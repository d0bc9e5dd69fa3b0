use tbcc::assembly::ast::{
    AssemblyType, FuncDef, ImmValue, Instruction, Operand, Program, Register, TopLevel as AsmTopLevel,
};
use tbcc::assembly::codegen::{program_can_print, Target};
use tbcc::assembly::pseudo_reg_replacer::program_resolvable;
use tbcc::assembly::symbol_table::SymbolTableEntry as AsmEntry;
use tbcc::assembly::translatable::{program_can_translate, table_objects_scalar};
use tbcc::ast::{Block, BlockItem, Declaration, Expression, FunctionDeclaration, Program as AstProgram, Statement, Type, TypedExpression, BinaryOp};
use tbcc::common::symbol_table::{IdentAttrs, SymbolTableEntry};
use tbcc::common::symbol_table_generic::SymbolTable;
use tbcc::lexer::Lexer;
use tbcc::parser::Parser;
use tbcc::tacky::ast::{Function as TackyFunction, Instruction as TackyInstruction, Program as TackyProgram, TopLevel, Value};
use tbcc::tacky::emittable::program_emittable;

fn int_expr(e: Expression) -> TypedExpression {
    TypedExpression(e, Type::Int)
}

fn main_with(stmt: Statement) -> AstProgram {
    AstProgram {
        decls: vec![Declaration::FunctionDecl(FunctionDeclaration {
            name: "main".to_string(),
            parameters: vec![],
            body: Some(Block { items: vec![BlockItem::Statement(stmt)] }),
            storage_class: None,
            func_type: Type::Function { return_type: Box::new(Type::Int), param_types: vec![] },
        })],
    }
}

#[test]
fn parsed_program_is_emittable() {
    let tokens = Lexer::new().scan_tokens("int main(void) { int a = 1; a += 2; return a * 3 + (a ? 1 : 2); }").unwrap();
    let program = Parser::new().parse(tokens).unwrap();
    assert!(program_emittable(&program));
}

#[test]
fn assignment_operator_in_binary_expression_is_not_emittable() {
    let bad = int_expr(Expression::BinaryExpr(
        BinaryOp::Assign,
        Box::new(int_expr(Expression::Var("a".to_string()))),
        Box::new(int_expr(Expression::IntegerConstant(1))),
    ));
    assert!(!program_emittable(&main_with(Statement::Return(bad))));
    let good = int_expr(Expression::BinaryExpr(
        BinaryOp::Add,
        Box::new(int_expr(Expression::IntegerConstant(2))),
        Box::new(int_expr(Expression::IntegerConstant(1))),
    ));
    assert!(program_emittable(&main_with(Statement::Return(good))));
}

fn table_with_main() -> SymbolTable<SymbolTableEntry> {
    let mut table: SymbolTable<SymbolTableEntry> = SymbolTable::new();
    table.insert(
        "main",
        SymbolTableEntry {
            c_type: Type::Function { return_type: Box::new(Type::Int), param_types: vec![] },
            attrs: IdentAttrs::Function { is_defined: true, is_global: true },
        },
    );
    table
}

fn tacky_returning(v: Value) -> TackyProgram {
    TackyProgram(vec![TopLevel::Function(TackyFunction {
        name: "main".to_string(),
        parameters: vec![],
        body: vec![TackyInstruction::Return(v)],
        is_global: true,
    })])
}

#[test]
fn translatability_follows_the_symbol_table() {
    let mut table = table_with_main();
    let program = tacky_returning(Value::Variable("x".to_string()));
    assert!(!program_can_translate(&table, &program));
    table.insert("x", SymbolTableEntry { c_type: Type::Long, attrs: IdentAttrs::Local });
    assert!(program_can_translate(&table, &program));
    assert!(program_can_translate(&table, &tacky_returning(Value::IntegerConstant(3))));
}

#[test]
fn objects_must_be_scalar() {
    let mut table = table_with_main();
    assert!(table_objects_scalar(&table));
    table.insert("y", SymbolTableEntry { c_type: Type::Undefined, attrs: IdentAttrs::Local });
    assert!(!table_objects_scalar(&table));
}

fn asm_with(instructions: Vec<Instruction>) -> Program {
    Program { top_levels: vec![AsmTopLevel::Function(FuncDef::new("main".to_string(), true, instructions))] }
}

#[test]
fn printability_rejects_pseudo_registers_and_unknown_calls() {
    let mut table: SymbolTable<AsmEntry> = SymbolTable::new();
    table.insert("main", AsmEntry::Function { is_defined: true });
    let ret = vec![
        Instruction::Mov {
            assembly_type: AssemblyType::Longword,
            src: Operand::Immediate(ImmValue::Int(1)),
            dst: Operand::Register(Register::AX),
        },
        Instruction::Ret,
    ];
    assert!(program_can_print(&table, &asm_with(ret), Target::Linux));
    let pseudo = vec![Instruction::Mov {
        assembly_type: AssemblyType::Longword,
        src: Operand::PseudoReg("a".to_string()),
        dst: Operand::Register(Register::AX),
    }];
    assert!(!program_can_print(&table, &asm_with(pseudo), Target::Linux));
    assert!(!program_can_print(&table, &asm_with(vec![Instruction::Call("f".to_string())]), Target::Linux));
    assert!(program_can_print(&table, &asm_with(vec![Instruction::Call("f".to_string())]), Target::MacOs));
    table.insert("f", AsmEntry::Function { is_defined: false });
    assert!(program_can_print(&table, &asm_with(vec![Instruction::Call("f".to_string())]), Target::Linux));
}

#[test]
fn pseudo_registers_must_name_objects() {
    let mut table: SymbolTable<AsmEntry> = SymbolTable::new();
    table.insert("main", AsmEntry::Function { is_defined: true });
    let uses_a = || {
        asm_with(vec![Instruction::Mov {
            assembly_type: AssemblyType::Longword,
            src: Operand::PseudoReg("a".to_string()),
            dst: Operand::Register(Register::AX),
        }])
    };
    assert!(!program_resolvable(&table, &uses_a()));
    table.insert("a", AsmEntry::Function { is_defined: false });
    assert!(!program_resolvable(&table, &uses_a()));
    table.insert("a", AsmEntry::Object { assembly_type: AssemblyType::Longword, is_static: false });
    assert!(program_resolvable(&table, &uses_a()));
    assert!(program_resolvable(&table, &asm_with(vec![Instruction::Ret])));
}
