use tbcc::assembly::assembly_creator::AssemblyCreator;
use tbcc::assembly::ast::{
    AssemblyType, BinaryOp as AsmBinaryOp, FuncDef, ImmValue, Instruction, Operand, Program,
    Register, StaticVar, TopLevel as AsmTopLevel, UnaryOp,
};
use tbcc::assembly::codegen::{CodeGenerator, Target};
use tbcc::assembly::instruction_fixer::InstructionFixer;
use tbcc::assembly::pseudo_reg_replacer::PseudoRegReplacer;
use tbcc::assembly::symbol_table::SymbolTableEntry as AsmEntry;
use tbcc::ast::Type;
use tbcc::common::symbol_table::{IdentAttrs, InitValue, SymbolTableEntry};
use tbcc::common::symbol_table_generic::SymbolTable;
use tbcc::tacky::ast::{
    BinaryOperator, Function as TackyFunction, Instruction as TackyInstruction, Program as TackyProgram,
    TopLevel, Value,
};

fn pseudo(name: &str) -> Operand {
    Operand::PseudoReg(name.to_string())
}

#[test]
fn creates_asm_program_with_binary_ops() {
    let mut symbol_table: SymbolTable<SymbolTableEntry> = SymbolTable::new();
    for i in 0..=4 {
        let var_name = format!("tmp.{}", i);
        symbol_table.insert(&var_name, SymbolTableEntry { c_type: Type::Int, attrs: IdentAttrs::Local });
    }
    symbol_table.insert(
        "main",
        SymbolTableEntry {
            c_type: Type::Function { return_type: Box::new(Type::Int), param_types: vec![] },
            attrs: IdentAttrs::Function { is_defined: true, is_global: true },
        },
    );
    let v = |n: &str| Value::Variable(n.to_string());
    let tacky_program = TackyProgram(vec![TopLevel::Function(TackyFunction {
        name: "main".to_string(),
        is_global: true,
        parameters: vec![],
        body: vec![
            TackyInstruction::Binary { op: BinaryOperator::Add, src1: Value::IntegerConstant(1), src2: Value::IntegerConstant(2), dst: v("tmp.0") },
            TackyInstruction::Binary { op: BinaryOperator::Subtract, src1: v("tmp.0"), src2: Value::IntegerConstant(3), dst: v("tmp.1") },
            TackyInstruction::Binary { op: BinaryOperator::Multiply, src1: v("tmp.1"), src2: Value::IntegerConstant(4), dst: v("tmp.2") },
            TackyInstruction::Binary { op: BinaryOperator::Divide, src1: v("tmp.2"), src2: Value::IntegerConstant(5), dst: v("tmp.3") },
            TackyInstruction::Binary { op: BinaryOperator::Remainder, src1: v("tmp.3"), src2: Value::IntegerConstant(2), dst: v("tmp.4") },
            TackyInstruction::Return(v("tmp.4")),
        ],
    })]);

    let assembly_creator = AssemblyCreator::new(symbol_table);
    let (assembly_program, _) = assembly_creator.create_program(&tacky_program).expect("Failed to create assembly program");
    let main_func = if let AsmTopLevel::Function(func) = &assembly_program.top_levels[0] { func } else { panic!("Expected function") };
    let instructions = &main_func.instructions;
    assert_eq!(instructions.len(), 16);
    let l = AssemblyType::Longword;
    let expected = vec![
        Instruction::Mov { assembly_type: l, src: Operand::Immediate(ImmValue::Int(1)), dst: pseudo("tmp.0") },
        Instruction::Binary { assembly_type: l, op: AsmBinaryOp::Add, left: Operand::Immediate(ImmValue::Int(2)), right: pseudo("tmp.0") },
        Instruction::Mov { assembly_type: l, src: pseudo("tmp.0"), dst: pseudo("tmp.1") },
        Instruction::Binary { assembly_type: l, op: AsmBinaryOp::Sub, left: Operand::Immediate(ImmValue::Int(3)), right: pseudo("tmp.1") },
        Instruction::Mov { assembly_type: l, src: pseudo("tmp.1"), dst: pseudo("tmp.2") },
        Instruction::Binary { assembly_type: l, op: AsmBinaryOp::Mul, left: Operand::Immediate(ImmValue::Int(4)), right: pseudo("tmp.2") },
        Instruction::Mov { assembly_type: l, src: pseudo("tmp.2"), dst: Operand::Register(Register::AX) },
        Instruction::Cdq(l),
        Instruction::Idiv { assembly_type: l, operand: Operand::Immediate(ImmValue::Int(5)) },
        Instruction::Mov { assembly_type: l, src: Operand::Register(Register::AX), dst: pseudo("tmp.3") },
        Instruction::Mov { assembly_type: l, src: pseudo("tmp.3"), dst: Operand::Register(Register::AX) },
        Instruction::Cdq(l),
        Instruction::Idiv { assembly_type: l, operand: Operand::Immediate(ImmValue::Int(2)) },
        Instruction::Mov { assembly_type: l, src: Operand::Register(Register::DX), dst: pseudo("tmp.4") },
        Instruction::Mov { assembly_type: l, src: pseudo("tmp.4"), dst: Operand::Register(Register::AX) },
        Instruction::Ret,
    ];
    assert_eq!(*instructions, expected);
}

fn apply_replacer(instructions: Vec<Instruction>, asm_symbol_table: SymbolTable<AsmEntry>) -> Vec<Instruction> {
    let func_def = FuncDef::new("main".to_string(), true, instructions);
    let mut program = Program::new(vec![AsmTopLevel::Function(func_def)]);
    let mut replacer = PseudoRegReplacer::new(asm_symbol_table);
    replacer.replace_pseudo_registers(&mut program);
    match program.top_levels.remove(0) {
        AsmTopLevel::Function(func) => func.instructions,
        _ => unreachable!(),
    }
}

fn fill_symbol_table(entries: &[(&str, AssemblyType)]) -> SymbolTable<AsmEntry> {
    let mut table = SymbolTable::new();
    for (name, asm_type) in entries {
        table.insert(name, AsmEntry::Object { assembly_type: *asm_type, is_static: false });
    }
    table
}

#[test]
fn replaces_distinct_pseudo_registers_with_unique_stack_offsets() {
    let table = fill_symbol_table(&[("a", AssemblyType::Longword), ("b", AssemblyType::Longword), ("c", AssemblyType::Longword)]);
    let instructions = vec![
        Instruction::Mov { assembly_type: AssemblyType::Longword, src: pseudo("a"), dst: pseudo("b") },
        Instruction::Unary { assembly_type: AssemblyType::Longword, op: UnaryOp::Neg, operand: pseudo("c") },
    ];
    let instructions = apply_replacer(instructions, table);
    match &instructions[0] {
        Instruction::Mov { src, dst, .. } => {
            assert!(matches!(src, Operand::Stack(-4)));
            assert!(matches!(dst, Operand::Stack(-8)));
        },
        _ => panic!("expected mov instruction"),
    }
    match &instructions[1] {
        Instruction::Unary { operand, .. } => assert!(matches!(operand, Operand::Stack(-12))),
        _ => panic!("expected unary instruction"),
    }
}

#[test]
fn reuses_stack_offset_for_same_pseudo_register() {
    let table = fill_symbol_table(&[("tmp", AssemblyType::Longword)]);
    let instructions = vec![
        Instruction::Mov { assembly_type: AssemblyType::Longword, src: pseudo("tmp"), dst: pseudo("tmp") },
        Instruction::Unary { assembly_type: AssemblyType::Longword, op: UnaryOp::Not, operand: pseudo("tmp") },
    ];
    let instructions = apply_replacer(instructions, table);
    match &instructions[0] {
        Instruction::Mov { src, dst, .. } => {
            assert!(matches!(src, Operand::Stack(-4)));
            assert!(matches!(dst, Operand::Stack(-4)));
        },
        _ => panic!("expected mov instruction"),
    }
    match &instructions[1] {
        Instruction::Unary { operand, .. } => assert!(matches!(operand, Operand::Stack(-4))),
        _ => panic!("expected unary instruction"),
    }
}

#[test]
fn leaves_non_pseudo_operands_unchanged() {
    let instructions = vec![
        Instruction::Mov {
            assembly_type: AssemblyType::Longword,
            src: Operand::Immediate(ImmValue::Int(7)),
            dst: Operand::Register(Register::AX),
        },
        Instruction::Ret,
    ];
    let instructions = apply_replacer(instructions, SymbolTable::new());
    match &instructions[0] {
        Instruction::Mov { src, dst, .. } => {
            assert!(matches!(src, Operand::Immediate(ImmValue::Int(7))));
            assert!(matches!(dst, Operand::Register(Register::AX)));
        },
        _ => panic!("expected mov instruction"),
    }
    assert!(matches!(instructions[1], Instruction::Ret));
}

#[test]
fn quadword_slots_are_eight_byte_aligned() {
    let table = fill_symbol_table(&[("a", AssemblyType::Longword), ("b", AssemblyType::Quadword)]);
    let instructions = vec![
        Instruction::Mov { assembly_type: AssemblyType::Longword, src: Operand::Immediate(ImmValue::Int(1)), dst: pseudo("a") },
        Instruction::Mov { assembly_type: AssemblyType::Quadword, src: Operand::Immediate(ImmValue::Long(2)), dst: pseudo("b") },
    ];
    let func_def = FuncDef::new("main".to_string(), true, instructions);
    let mut program = Program::new(vec![AsmTopLevel::Function(func_def)]);
    let mut replacer = PseudoRegReplacer::new(table);
    replacer.replace_pseudo_registers(&mut program);
    match &program.top_levels[0] {
        AsmTopLevel::Function(f) => {
            assert_eq!(f.instructions[0], Instruction::Mov { assembly_type: AssemblyType::Longword, src: Operand::Immediate(ImmValue::Int(1)), dst: Operand::Stack(-4) });
            assert_eq!(f.instructions[1], Instruction::Mov { assembly_type: AssemblyType::Quadword, src: Operand::Immediate(ImmValue::Long(2)), dst: Operand::Stack(-16) });
            assert_eq!(f.stack_frame_size, 16);
        },
        _ => panic!("expected function"),
    }
}

fn apply_fixer(instructions: Vec<Instruction>) -> Vec<Instruction> {
    let func_def = FuncDef::new("main".to_string(), true, instructions);
    let mut program = Program::new(vec![AsmTopLevel::Function(func_def)]);
    let mut replacer = PseudoRegReplacer::new(SymbolTable::new());
    replacer.replace_pseudo_registers(&mut program);
    let fixer = InstructionFixer::new();
    fixer.fix_program(&mut program);
    match program.top_levels.remove(0) {
        AsmTopLevel::Function(func) => func.instructions,
        _ => unreachable!(),
    }
}

#[test]
fn inserts_allocate_stack_as_first_instruction() {
    let fixed = apply_fixer(vec![Instruction::Ret]);
    assert_eq!(fixed[0], AssemblyCreator::allocate_stack(0));
    assert_eq!(fixed[1], Instruction::Ret);
}

#[test]
fn rewrites_stack_to_stack_mov_into_two_movs_via_r10() {
    let fixed = apply_fixer(vec![Instruction::Mov { assembly_type: AssemblyType::Longword, src: Operand::Stack(-4), dst: Operand::Stack(-8) }]);
    assert_eq!(fixed[0], AssemblyCreator::allocate_stack(0));
    match &fixed[1] {
        Instruction::Mov { src, dst, .. } => {
            assert!(matches!(src, Operand::Stack(-4)));
            assert!(matches!(dst, Operand::Register(Register::R10)));
        },
        _ => panic!("expected first rewritten mov"),
    }
    match &fixed[2] {
        Instruction::Mov { src, dst, .. } => {
            assert!(matches!(src, Operand::Register(Register::R10)));
            assert!(matches!(dst, Operand::Stack(-8)));
        },
        _ => panic!("expected second rewritten mov"),
    }
}

#[test]
fn keeps_non_stack_to_stack_instructions_in_order() {
    let instructions = vec![
        Instruction::Mov { assembly_type: AssemblyType::Longword, src: Operand::Immediate(ImmValue::Int(1)), dst: Operand::Register(Register::AX) },
        Instruction::Unary { assembly_type: AssemblyType::Longword, op: UnaryOp::Neg, operand: Operand::Register(Register::AX) },
        Instruction::Ret,
    ];
    let fixed = apply_fixer(instructions);
    assert_eq!(fixed.len(), 4);
    assert_eq!(fixed[0], AssemblyCreator::allocate_stack(0));
    match &fixed[1] {
        Instruction::Mov { src, dst, .. } => {
            assert_eq!(*src, Operand::Immediate(ImmValue::Int(1)));
            assert_eq!(*dst, Operand::Register(Register::AX));
        },
        _ => panic!("expected mov"),
    }
    match &fixed[2] {
        Instruction::Unary { op, operand, .. } => {
            assert_eq!(*op, UnaryOp::Neg);
            assert!(matches!(operand, Operand::Register(Register::AX)));
        },
        _ => panic!("expected unary"),
    }
    assert!(matches!(fixed[3], Instruction::Ret));
}

#[test]
fn fixes_immediate_divisor_and_compare() {
    let fixed = apply_fixer(vec![
        Instruction::Idiv { assembly_type: AssemblyType::Longword, operand: Operand::Immediate(ImmValue::Int(5)) },
        Instruction::Cmp { assembly_type: AssemblyType::Longword, op1: Operand::Stack(-4), op2: Operand::Immediate(ImmValue::Int(0)) },
    ]);
    let l = AssemblyType::Longword;
    assert_eq!(fixed[1], Instruction::Mov { assembly_type: l, src: Operand::Immediate(ImmValue::Int(5)), dst: Operand::Register(Register::R10) });
    assert_eq!(fixed[2], Instruction::Idiv { assembly_type: l, operand: Operand::Register(Register::R10) });
    assert_eq!(fixed[3], Instruction::Mov { assembly_type: l, src: Operand::Immediate(ImmValue::Int(0)), dst: Operand::Register(Register::R11) });
    assert_eq!(fixed[4], Instruction::Cmp { assembly_type: l, op1: Operand::Stack(-4), op2: Operand::Register(Register::R11) });
}

#[test]
fn insert_and_get_returns_inserted_entry() {
    let mut symbol_table: SymbolTable<AsmEntry> = SymbolTable::new();
    let entry = AsmEntry::Object { assembly_type: AssemblyType::Longword, is_static: false };
    symbol_table.insert("tmp.0", entry.clone());
    assert_eq!(symbol_table.get_entry("tmp.0"), Some(&entry));
}

#[test]
fn get_returns_none_for_unknown_key() {
    let symbol_table: SymbolTable<AsmEntry> = SymbolTable::new();
    assert_eq!(symbol_table.get_entry("does_not_exist"), None);
}

#[test]
fn clear_removes_all_entries() {
    let mut symbol_table: SymbolTable<AsmEntry> = SymbolTable::new();
    symbol_table.insert("a", AsmEntry::Function { is_defined: true });
    symbol_table.insert("b", AsmEntry::Object { assembly_type: AssemblyType::Quadword, is_static: true });
    symbol_table.clear();
    assert_eq!(symbol_table.get_entry("a"), None);
    assert_eq!(symbol_table.get_entry("b"), None);
}

#[test]
fn insert_overwrites_existing_entry_for_same_key() {
    let mut symbol_table: SymbolTable<AsmEntry> = SymbolTable::new();
    symbol_table.insert("tmp.1", AsmEntry::Function { is_defined: false });
    let updated = AsmEntry::Function { is_defined: true };
    symbol_table.insert("tmp.1", updated.clone());
    assert_eq!(symbol_table.get_entry("tmp.1"), Some(&updated));
}

#[test]
fn generates_text_for_a_small_function() {
    let mut table: SymbolTable<AsmEntry> = SymbolTable::new();
    table.insert("main", AsmEntry::Function { is_defined: true });
    let program = Program::new(vec![AsmTopLevel::Function(FuncDef {
        name: "main".to_string(),
        is_global: true,
        instructions: vec![
            AssemblyCreator::allocate_stack(16),
            Instruction::Mov { assembly_type: AssemblyType::Longword, src: Operand::Immediate(ImmValue::Int(-3)), dst: Operand::Stack(-4) },
            Instruction::Mov { assembly_type: AssemblyType::Longword, src: Operand::Stack(-4), dst: Operand::Register(Register::AX) },
            Instruction::Ret,
        ],
        stack_frame_size: 16,
    })]);
    let code = CodeGenerator::new(table, Target::Linux).generate_assembly(&program);
    let expected = "# ===== Program =====\n\t.globl main\n\t.text\n main:\n\tpushq \t%rbp\n\tmovq \t%rsp, %rbp\n\tsubq \t$16, %rsp\n\tmovl \t$-3, -4(%rbp)\n\tmovl \t-4(%rbp), %eax\n\tmovq \t%rbp, %rsp\n\tpopq \t%rbp\n\tret\n.section .note.GNU-stack,\"\",@progbits\n";
    assert_eq!(code, expected);
}

fn program_with_call_jump_and_static() -> (Program, SymbolTable<AsmEntry>) {
    let mut table: SymbolTable<AsmEntry> = SymbolTable::new();
    table.insert("main", AsmEntry::Function { is_defined: true });
    table.insert("f", AsmEntry::Function { is_defined: false });
    table.insert("x", AsmEntry::Object { assembly_type: AssemblyType::Longword, is_static: true });
    let program = Program::new(vec![
        AsmTopLevel::Function(FuncDef {
            name: "main".to_string(),
            is_global: true,
            instructions: vec![
                Instruction::Call("f".to_string()),
                Instruction::Jmp("end".to_string()),
                Instruction::Label("end".to_string()),
                Instruction::Mov {
                    assembly_type: AssemblyType::Longword,
                    src: Operand::Data("x".to_string()),
                    dst: Operand::Register(Register::AX),
                },
            ],
            stack_frame_size: 0,
        }),
        AsmTopLevel::StaticVariable(StaticVar {
            name: "x".to_string(),
            is_global: false,
            value: InitValue::Int(5),
            alignment: 4,
        }),
    ]);
    (program, table)
}

#[test]
fn text_follows_the_target_system() {
    let (program, table) = program_with_call_jump_and_static();
    let linux = CodeGenerator::new(table, Target::Linux).generate_assembly(&program);
    assert_eq!(
        linux,
        "# ===== Program =====\n\t.globl main\n\t.text\n main:\n\tpushq \t%rbp\n\tmovq \t%rsp, %rbp\n\tcall \tf@PLT\n\tjmp \t.Lend\n .Lend:\n\tmovl \tx(%rip), %eax\n\t.data\n\t.align 4\n x:\n\t.long 5\n.section .note.GNU-stack,\"\",@progbits\n"
    );
    let (program, table) = program_with_call_jump_and_static();
    let macos = CodeGenerator::new(table, Target::MacOs).generate_assembly(&program);
    assert_eq!(
        macos,
        "# ===== Program =====\n\t.globl main\n\t.text\n _main:\n\tpushq \t%rbp\n\tmovq \t%rsp, %rbp\n\tcall \t_f\n\tjmp \tLend\n Lend:\n\tmovl \t_x(%rip), %eax\n\t.data\n\t.balign 4\n _x:\n\t.long 5\n"
    );
}

fn is_memory(o: &Operand) -> bool {
    matches!(o, Operand::Stack(_) | Operand::Data(_))
}

#[test]
fn created_code_is_final() {
    let mut symbol_table: SymbolTable<SymbolTableEntry> = SymbolTable::new();
    for i in 0..=2 {
        symbol_table.insert(&format!("tmp.{}", i), SymbolTableEntry { c_type: Type::Int, attrs: IdentAttrs::Local });
    }
    symbol_table.insert(
        "main",
        SymbolTableEntry {
            c_type: Type::Function { return_type: Box::new(Type::Int), param_types: vec![] },
            attrs: IdentAttrs::Function { is_defined: true, is_global: true },
        },
    );
    let v = |n: &str| Value::Variable(n.to_string());
    let tacky_program = TackyProgram(vec![TopLevel::Function(TackyFunction {
        name: "main".to_string(),
        is_global: true,
        parameters: vec![],
        body: vec![
            TackyInstruction::Copy { src: Value::IntegerConstant(7), dst: v("tmp.0") },
            TackyInstruction::Binary { op: BinaryOperator::Add, src1: v("tmp.0"), src2: v("tmp.0"), dst: v("tmp.1") },
            TackyInstruction::Binary { op: BinaryOperator::Divide, src1: v("tmp.1"), src2: Value::IntegerConstant(3), dst: v("tmp.2") },
            TackyInstruction::Return(v("tmp.2")),
        ],
    })]);
    let (program, _) = tbcc::assembly::create_program(&tacky_program, symbol_table).expect("Failed to create");
    let f = match &program.top_levels[0] {
        AsmTopLevel::Function(f) => f,
        _ => panic!("Expected a function"),
    };
    assert_eq!(f.stack_frame_size % 16, 0);
    assert_eq!(f.stack_frame_size, 16);
    for i in &f.instructions {
        let ops: Vec<&Operand> = match i {
            Instruction::Mov { src, dst, .. } | Instruction::MovSx { src, dst } => vec![src, dst],
            Instruction::Binary { left, right, .. } => vec![left, right],
            Instruction::Cmp { op1, op2, .. } => vec![op1, op2],
            Instruction::Unary { operand, .. } | Instruction::Idiv { operand, .. } | Instruction::Push(operand) => vec![operand],
            Instruction::SetCC(_, o) => vec![o],
            _ => vec![],
        };
        assert!(ops.iter().all(|o| !matches!(o, Operand::PseudoReg(_))));
        if ops.len() == 2 {
            assert!(!(is_memory(ops[0]) && is_memory(ops[1])));
        }
        if let Instruction::Idiv { operand, .. } = i {
            assert!(!matches!(operand, Operand::Immediate(_)));
        }
    }
}
