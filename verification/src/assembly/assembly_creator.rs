use vstd::prelude::*;

use super::ast::{
    asm_view, tops_view, AsmTopView, AsmView, AssemblyType, BinaryOp, ConditionCode, FuncDef, ImmValue, Instruction,
    Operand, OperandView, Program, Register, StaticVar, TopLevel as AsmTopLevel, UnaryOp,
};
use super::symbol_table::SymbolTableEntry as AsmEntry;
use crate::ast::Type;
use crate::common::symbol_table::{IdentAttrs, InitValue, SymbolTableEntry};
use crate::common::symbol_table_generic::SymbolTable;
use crate::tacky::ast::{
    BinaryOperator, Function, Instruction as TackyInstruction, InstructionView, StaticVariable,
    TopLevel, UnaryOperator, Value, ValueView,
};
use crate::tacky::spec::{tacky_binary_value, tacky_unary_value};
use crate::util::{append_str, copy_string, string_of, strings_view};

verus! {

broadcast use vstd::std_specs::vec::group_vec_axioms;

/// Whether a C type is one the back end can hold in a register: `int` or `long`.
pub open spec fn is_scalar(t: Type) -> bool {
    t is Int || t is Long
}

/// The size class of a scalar type.
pub open spec fn asm_type_of(t: Type) -> AssemblyType {
    if t is Long {
        AssemblyType::Quadword
    } else {
        AssemblyType::Longword
    }
}

/// The operand a three-address value becomes: constants are immediates, variables pseudo
/// registers.
pub open spec fn operand_of(v: ValueView) -> OperandView {
    match v {
        ValueView::IntegerConstant(i) => OperandView::Immediate(ImmValue::Int(i)),
        ValueView::LongConstant(l) => OperandView::Immediate(ImmValue::Long(l)),
        ValueView::Variable(n) => OperandView::PseudoReg(n),
    }
}

/// Whether the symbol table gives a variable's value a scalar type (constants need nothing).
pub open spec fn value_known(table: Map<Seq<char>, SymbolTableEntry>, v: ValueView) -> bool {
    match v {
        ValueView::Variable(n) => table.contains_key(n) && is_scalar(table[n].c_type),
        _ => true,
    }
}

/// The size class of a value.
pub open spec fn value_type(table: Map<Seq<char>, SymbolTableEntry>, v: ValueView) -> AssemblyType {
    match v {
        ValueView::IntegerConstant(_) => AssemblyType::Longword,
        ValueView::LongConstant(_) => AssemblyType::Quadword,
        ValueView::Variable(n) => asm_type_of(table[n].c_type),
    }
}

/// The register that carries the integer argument at position `i` (below six).
pub open spec fn int_arg_register(i: int) -> Register {
    if i == 0 {
        Register::DI
    } else if i == 1 {
        Register::SI
    } else if i == 2 {
        Register::DX
    } else if i == 3 {
        Register::CX
    } else if i == 4 {
        Register::R8
    } else {
        Register::R9
    }
}

pub open spec fn reg(r: Register) -> OperandView {
    OperandView::Register(r)
}

pub open spec fn imm(i: i32) -> OperandView {
    OperandView::Immediate(ImmValue::Int(i))
}

/// Growing the stack by `bytes`.
pub open spec fn allocate_stack_view(bytes: i32) -> AsmView {
    AsmView::Binary {
        assembly_type: AssemblyType::Quadword,
        op: BinaryOp::Sub,
        left: imm(bytes),
        right: reg(Register::SP),
    }
}

/// Shrinking the stack by `bytes`.
pub open spec fn deallocate_stack_view(bytes: i32) -> AsmView {
    AsmView::Binary {
        assembly_type: AssemblyType::Quadword,
        op: BinaryOp::Add,
        left: imm(bytes),
        right: reg(Register::SP),
    }
}

pub open spec fn is_relational(op: BinaryOperator) -> bool {
    op == BinaryOperator::Equal || op == BinaryOperator::NotEqual || op == BinaryOperator::Greater
        || op == BinaryOperator::GreaterEqual || op == BinaryOperator::Less
        || op == BinaryOperator::LessEqual
}

/// Whether a binary operator has a direct machine counterpart.
pub open spec fn is_arithmetic(op: BinaryOperator) -> bool {
    op == BinaryOperator::Add || op == BinaryOperator::Subtract || op == BinaryOperator::Multiply
        || op == BinaryOperator::BitAnd || op == BinaryOperator::BitOr
        || op == BinaryOperator::BitXor || op == BinaryOperator::ShiftLeft
        || op == BinaryOperator::ShiftRight
}

pub open spec fn spec_binary_op(op: BinaryOperator) -> BinaryOp {
    match op {
        BinaryOperator::Add => BinaryOp::Add,
        BinaryOperator::Subtract => BinaryOp::Sub,
        BinaryOperator::Multiply => BinaryOp::Mul,
        BinaryOperator::BitAnd => BinaryOp::BitAnd,
        BinaryOperator::BitOr => BinaryOp::BitOr,
        BinaryOperator::BitXor => BinaryOp::BitXor,
        BinaryOperator::ShiftLeft => BinaryOp::ShiftLeft,
        _ => BinaryOp::ShiftRight,
    }
}

pub open spec fn spec_condition(op: BinaryOperator) -> ConditionCode {
    match op {
        BinaryOperator::Equal => ConditionCode::Eq,
        BinaryOperator::NotEqual => ConditionCode::NotEq,
        BinaryOperator::Greater => ConditionCode::Gt,
        BinaryOperator::GreaterEqual => ConditionCode::GtEq,
        BinaryOperator::Less => ConditionCode::Lt,
        _ => ConditionCode::LtEq,
    }
}

/// Whether condition code `c` holds after `cmp first, second` (AT&T order): the flags are
/// those of `second - first`, and the codes compare `second` with `first` as signed numbers.
pub open spec fn condition_holds(c: ConditionCode, first: int, second: int) -> bool {
    match c {
        ConditionCode::Eq => second == first,
        ConditionCode::NotEq => second != first,
        ConditionCode::Gt => second > first,
        ConditionCode::GtEq => second >= first,
        ConditionCode::Lt => second < first,
        ConditionCode::LtEq => second <= first,
    }
}

/// Law: a relational three-address instruction `dst = a op b` becomes `cmp b, a`, then
/// `dst = 0`, then a `set` into `dst` of a condition code that holds exactly when `a op b`
/// holds, so that `dst` ends up 1 exactly when the comparison is true (`>` sets on greater,
/// not on greater or equal, and so on for each comparison).
pub proof fn law_relational_translation(
    table: Map<Seq<char>, SymbolTableEntry>,
    op: BinaryOperator,
    src1: ValueView,
    src2: ValueView,
    dst: ValueView,
    a: i64,
    b: i64,
)
    requires
        is_relational(op),
    ensures
        ({
            let code = translate(table, InstructionView::Binary { op, src1, src2, dst });
            &&& code.len() == 3
            &&& code[0] matches AsmView::Cmp { op1, op2, .. } && op1 == operand_of(src2) && op2 == operand_of(src1)
            &&& code[1] matches AsmView::Mov { src, dst: d, .. } && src == imm(0) && d == operand_of(dst)
            &&& code[2] matches AsmView::SetCC(c, d) && d == operand_of(dst)
                && (condition_holds(c, b as int, a as int) <==> tacky_binary_value(op, a, b) == 1)
        }),
{
}

/// What a machine binary operation leaves in its destination, from the destination's value
/// `d` and the source's value `s`.
pub open spec fn machine_binary_value(op: BinaryOp, d: i64, s: i64) -> int {
    match op {
        BinaryOp::Add => d + s,
        BinaryOp::Sub => d - s,
        BinaryOp::Mul => d * s,
        BinaryOp::BitAnd => (d & s) as int,
        BinaryOp::BitOr => (d | s) as int,
        BinaryOp::BitXor => (d ^ s) as int,
        BinaryOp::ShiftLeft => (d << s) as int,
        BinaryOp::ShiftRight => (d >> s) as int,
    }
}

/// What a machine unary operation leaves in its operand, from its value `d`.
pub open spec fn machine_unary_value(op: UnaryOp, d: i64) -> int {
    match op {
        UnaryOp::Neg => -d,
        UnaryOp::Not => (!d) as int,
    }
}

/// What `idiv` by `b` leaves in a register when `a` was in the accumulator: the quotient in
/// `AX`, the remainder in `DX`; it says nothing of other registers.
pub open spec fn idiv_result(r: Register, a: i64, b: i64) -> Option<int> {
    match r {
        Register::AX => Some(a / b),
        Register::DX => Some((a % b) as int),
        _ => None,
    }
}

/// Law: a value is returned in the accumulator: a return becomes a move of the value into
/// `AX` followed by `ret`. A sign extension becomes one `movsx` from the source to the
/// destination, and a truncation one move of the low four bytes (a longword) of the source
/// into the destination.
pub proof fn law_return_and_conversion_translation(table: Map<Seq<char>, SymbolTableEntry>, src: ValueView, dst: ValueView)
    ensures
        ({
            let code = translate(table, InstructionView::Return(src));
            &&& code.len() == 2
            &&& code[0] matches AsmView::Mov { src: x, dst: d, .. } && x == operand_of(src) && d == reg(Register::AX)
            &&& code[1] is Ret
        }),
        translate(table, InstructionView::SignExtend { src, dst }) == seq![AsmView::MovSx { src: operand_of(src), dst: operand_of(dst) }],
        ({
            let code = translate(table, InstructionView::Truncate { src, dst });
            &&& code.len() == 1
            &&& code[0] matches AsmView::Mov { assembly_type, src: x, dst: d } && assembly_type == AssemblyType::Longword
                && x == operand_of(src) && d == operand_of(dst)
        }),
{
}

/// Law: an arithmetic three-address instruction `dst = a op b` becomes `dst = a` and then a
/// machine operation with source `b` and destination `dst` that computes `a op b`.
pub proof fn law_arithmetic_translation(
    table: Map<Seq<char>, SymbolTableEntry>,
    op: BinaryOperator,
    src1: ValueView,
    src2: ValueView,
    dst: ValueView,
    a: i64,
    b: i64,
)
    requires
        is_arithmetic(op),
    ensures
        ({
            let code = translate(table, InstructionView::Binary { op, src1, src2, dst });
            &&& code.len() == 2
            &&& code[0] matches AsmView::Mov { src, dst: d, .. } && src == operand_of(src1) && d == operand_of(dst)
            &&& code[1] matches AsmView::Binary { op: o, left, right, .. } && left == operand_of(src2)
                && right == operand_of(dst) && machine_binary_value(o, a, b) == tacky_binary_value(op, a, b)
        }),
{
}

/// Law: a division or remainder `dst = a op b` puts `a` in the accumulator, divides by `b`
/// with `idiv`, and moves into `dst` the register that holds the quotient for `/` and the
/// remainder for `%`.
pub proof fn law_division_translation(
    table: Map<Seq<char>, SymbolTableEntry>,
    op: BinaryOperator,
    src1: ValueView,
    src2: ValueView,
    dst: ValueView,
    a: i64,
    b: i64,
)
    requires
        op == BinaryOperator::Divide || op == BinaryOperator::Remainder,
    ensures
        ({
            let code = translate(table, InstructionView::Binary { op, src1, src2, dst });
            &&& code.len() == 4
            &&& code[0] matches AsmView::Mov { src, dst: d, .. } && src == operand_of(src1) && d == reg(Register::AX)
            &&& code[2] matches AsmView::Idiv { operand, .. } && operand == operand_of(src2)
            &&& code[3] matches AsmView::Mov { src: OperandView::Register(r), dst: d, .. } && d == operand_of(dst)
                && idiv_result(r, a, b) == Some(tacky_binary_value(op, a, b))
        }),
{
}

/// Law: a unary three-address instruction `dst = op a` computes `op a` into `dst`: negation
/// and complement by the machine operation of the same meaning on a copy, logical not by
/// `cmp $0, a`, `dst = 0` and a `set` of a condition that holds exactly when `a` is zero.
pub proof fn law_unary_translation(
    table: Map<Seq<char>, SymbolTableEntry>,
    op: UnaryOperator,
    src: ValueView,
    dst: ValueView,
    a: i64,
)
    ensures
        ({
            let code = translate(table, InstructionView::Unary { op, src, dst });
            if op == UnaryOperator::Not {
                &&& code.len() == 3
                &&& code[0] matches AsmView::Cmp { op1, op2, .. } && op1 == imm(0) && op2 == operand_of(src)
                &&& code[1] matches AsmView::Mov { src: z, dst: d, .. } && z == imm(0) && d == operand_of(dst)
                &&& code[2] matches AsmView::SetCC(c, d) && d == operand_of(dst)
                    && (condition_holds(c, 0, a as int) <==> tacky_unary_value(op, a) == 1)
            } else {
                &&& code.len() == 2
                &&& code[0] matches AsmView::Mov { src: x, dst: d, .. } && x == operand_of(src) && d == operand_of(dst)
                &&& code[1] matches AsmView::Unary { op: u, operand, .. } && operand == operand_of(dst)
                    && machine_unary_value(u, a) == tacky_unary_value(op, a)
            }
        }),
{
}

/// Law: a conditional jump on a value `v` becomes `cmp $0, v` and a conditional jump to the
/// same target whose condition holds exactly when `v` is zero (for a jump on zero) or not zero
/// (for a jump on non-zero).
pub proof fn law_conditional_jump_translation(
    table: Map<Seq<char>, SymbolTableEntry>,
    condition: ValueView,
    target: Seq<char>,
    v: int,
)
    ensures
        ({
            let code = translate(table, InstructionView::JumpIfZero { condition, target });
            &&& code.len() == 2
            &&& code[0] matches AsmView::Cmp { op1, op2, .. } && op1 == imm(0) && op2 == operand_of(condition)
            &&& code[1] matches AsmView::JmpCC(c, l) && l == target && (condition_holds(c, 0, v) <==> v == 0)
        }),
        ({
            let code = translate(table, InstructionView::JumpIfNotZero { condition, target });
            &&& code.len() == 2
            &&& code[0] matches AsmView::Cmp { op1, op2, .. } && op1 == imm(0) && op2 == operand_of(condition)
            &&& code[1] matches AsmView::JmpCC(c, l) && l == target && (condition_holds(c, 0, v) <==> v != 0)
        }),
{
}

/// How many of `n` arguments travel in registers.
pub open spec fn reg_count(n: int) -> int {
    if n < 6 {
        n
    } else {
        6
    }
}

/// Pushing one stack argument: immediates directly, quadwords from memory directly, longwords
/// through `AX`.
pub open spec fn push_arg_code(table: Map<Seq<char>, SymbolTableEntry>, v: ValueView) -> Seq<AsmView> {
    let op = operand_of(v);
    if op is Immediate || op is Register || value_type(table, v) == AssemblyType::Quadword {
        seq![AsmView::Push(op)]
    } else {
        seq![
            AsmView::Mov { assembly_type: value_type(table, v), src: op, dst: reg(Register::AX) },
            AsmView::Push(reg(Register::AX)),
        ]
    }
}

/// Pushing stack arguments, the last one first.
pub open spec fn push_args_code(table: Map<Seq<char>, SymbolTableEntry>, args: Seq<ValueView>) -> Seq<AsmView>
    decreases args.len(),
{
    if args.len() == 0 {
        Seq::empty()
    } else {
        push_arg_code(table, args.last()) + push_args_code(table, args.drop_last())
    }
}

/// Moving register arguments into their registers, in order.
pub open spec fn reg_moves_code(table: Map<Seq<char>, SymbolTableEntry>, args: Seq<ValueView>) -> Seq<AsmView> {
    Seq::new(
        args.len(),
        |i: int|
            AsmView::Mov {
                assembly_type: value_type(table, args[i]),
                src: operand_of(args[i]),
                dst: reg(int_arg_register(i)),
            },
    )
}

/// A call: stack padding to keep 16-byte alignment, register arguments, stack arguments pushed
/// last to first, the call, the stack released, the result taken from `AX`.
pub open spec fn call_code(
    table: Map<Seq<char>, SymbolTableEntry>,
    name: Seq<char>,
    args: Seq<ValueView>,
    dst: ValueView,
) -> Seq<AsmView> {
    let n = reg_count(args.len() as int);
    let stack_args = args.subrange(n, args.len() as int);
    let padding: int = if stack_args.len() % 2 == 0 {
        0
    } else {
        8
    };
    let bytes = 8 * stack_args.len() + padding;
    (if padding > 0 {
        seq![allocate_stack_view(8)]
    } else {
        Seq::empty()
    }) + reg_moves_code(table, args.subrange(0, n)) + push_args_code(table, stack_args) + seq![
        AsmView::Call(name),
    ] + (if bytes > 0 {
        seq![deallocate_stack_view(bytes as i32)]
    } else {
        Seq::empty()
    }) + seq![
        AsmView::Mov {
            assembly_type: value_type(table, dst),
            src: reg(Register::AX),
            dst: operand_of(dst),
        },
    ]
}

/// The assembly for one three-address instruction.
pub open spec fn translate(table: Map<Seq<char>, SymbolTableEntry>, i: InstructionView) -> Seq<AsmView> {
    match i {
        InstructionView::Return(v) => seq![
            AsmView::Mov { assembly_type: value_type(table, v), src: operand_of(v), dst: reg(Register::AX) },
            AsmView::Ret,
        ],
        InstructionView::SignExtend { src, dst } => seq![AsmView::MovSx { src: operand_of(src), dst: operand_of(dst) }],
        InstructionView::Truncate { src, dst } => seq![
            AsmView::Mov { assembly_type: AssemblyType::Longword, src: operand_of(src), dst: operand_of(dst) },
        ],
        InstructionView::Unary { op, src, dst } => if op == UnaryOperator::Not {
            seq![
                AsmView::Cmp { assembly_type: value_type(table, dst), op1: imm(0), op2: operand_of(src) },
                AsmView::Mov { assembly_type: value_type(table, dst), src: imm(0), dst: operand_of(dst) },
                AsmView::SetCC(ConditionCode::Eq, operand_of(dst)),
            ]
        } else {
            seq![
                AsmView::Mov { assembly_type: value_type(table, src), src: operand_of(src), dst: operand_of(dst) },
                AsmView::Unary {
                    assembly_type: value_type(table, src),
                    op: if op == UnaryOperator::Negate {
                        UnaryOp::Neg
                    } else {
                        UnaryOp::Not
                    },
                    operand: operand_of(dst),
                },
            ]
        },
        InstructionView::Binary { op, src1, src2, dst } => {
            let t = value_type(table, src1);
            if op == BinaryOperator::Divide || op == BinaryOperator::Remainder {
                seq![
                    AsmView::Mov { assembly_type: t, src: operand_of(src1), dst: reg(Register::AX) },
                    AsmView::Cdq(t),
                    AsmView::Idiv { assembly_type: t, operand: operand_of(src2) },
                    AsmView::Mov {
                        assembly_type: t,
                        src: reg(
                            if op == BinaryOperator::Divide {
                                Register::AX
                            } else {
                                Register::DX
                            },
                        ),
                        dst: operand_of(dst),
                    },
                ]
            } else if is_relational(op) {
                seq![
                    AsmView::Cmp { assembly_type: t, op1: operand_of(src2), op2: operand_of(src1) },
                    AsmView::Mov { assembly_type: value_type(table, dst), src: imm(0), dst: operand_of(dst) },
                    AsmView::SetCC(spec_condition(op), operand_of(dst)),
                ]
            } else {
                seq![
                    AsmView::Mov { assembly_type: t, src: operand_of(src1), dst: operand_of(dst) },
                    AsmView::Binary { assembly_type: t, op: spec_binary_op(op), left: operand_of(src2), right: operand_of(dst) },
                ]
            }
        },
        InstructionView::Copy { src, dst } => seq![
            AsmView::Mov { assembly_type: value_type(table, src), src: operand_of(src), dst: operand_of(dst) },
        ],
        InstructionView::Jump { target } => seq![AsmView::Jmp(target)],
        InstructionView::JumpIfZero { condition, target } => seq![
            AsmView::Cmp { assembly_type: value_type(table, condition), op1: imm(0), op2: operand_of(condition) },
            AsmView::JmpCC(ConditionCode::Eq, target),
        ],
        InstructionView::JumpIfNotZero { condition, target } => seq![
            AsmView::Cmp { assembly_type: value_type(table, condition), op1: imm(0), op2: operand_of(condition) },
            AsmView::JmpCC(ConditionCode::NotEq, target),
        ],
        InstructionView::Label(l) => seq![AsmView::Label(l)],
        InstructionView::FunctionCall { name, arguments, dst } => call_code(table, name, arguments, dst),
    }
}

/// The assembly for a sequence of instructions, in order.
pub open spec fn translate_all(table: Map<Seq<char>, SymbolTableEntry>, is: Seq<InstructionView>) -> Seq<AsmView>
    decreases is.len(),
{
    if is.len() == 0 {
        Seq::empty()
    } else {
        translate_all(table, is.drop_last()) + translate(table, is.last())
    }
}

/// Whether the symbol table gives `name` a function type whose parameters are all scalar and
/// as many as `n`.
pub open spec fn callable(table: Map<Seq<char>, SymbolTableEntry>, name: Seq<char>, n: int) -> bool {
    &&& table.contains_key(name)
    &&& table[name].c_type matches Type::Function { param_types, .. }
    &&& param_types@.len() == n
    &&& forall|i: int| #![trigger param_types@[i]] 0 <= i < n ==> is_scalar(param_types@[i])
}

/// Whether an instruction can be translated: its values have scalar types, its operators have
/// machine counterparts, and a called function takes the arguments given.
pub open spec fn translatable(table: Map<Seq<char>, SymbolTableEntry>, i: InstructionView) -> bool {
    match i {
        InstructionView::Return(v) => value_known(table, v),
        InstructionView::SignExtend { src, dst } | InstructionView::Truncate { src, dst }
        | InstructionView::Copy { src, dst } => value_known(table, src) && value_known(table, dst),
        InstructionView::Unary { src, dst, .. } => value_known(table, src) && value_known(table, dst),
        InstructionView::Binary { op, src1, src2, dst } => {
            &&& value_known(table, src1)
            &&& value_known(table, src2)
            &&& value_known(table, dst)
            &&& op != BinaryOperator::LogicalAnd && op != BinaryOperator::LogicalOr
        },
        InstructionView::JumpIfZero { condition, .. } | InstructionView::JumpIfNotZero { condition, .. } =>
            value_known(table, condition),
        InstructionView::FunctionCall { name, arguments, dst } => {
            &&& callable(table, name, arguments.len() as int)
            &&& arguments.len() < 0x1000_0000
            &&& forall|k: int| #![trigger arguments[k]] 0 <= k < arguments.len() ==> value_known(table, arguments[k])
            &&& value_known(table, dst)
        },
        _ => true,
    }
}

} // verus!
verus! {

/// The moves that fetch a function's parameters: the first six from the argument registers,
/// the others from the caller's frame, eight bytes apart from offset 16.
pub open spec fn param_moves(table: Map<Seq<char>, SymbolTableEntry>, params: Seq<Seq<char>>) -> Seq<AsmView> {
    Seq::new(
        params.len(),
        |i: int|
            AsmView::Mov {
                assembly_type: asm_type_of(table[params[i]].c_type),
                src: if i < 6 {
                    reg(int_arg_register(i))
                } else {
                    OperandView::Stack((16 + 8 * (i - 6)) as i32)
                },
                dst: OperandView::PseudoReg(params[i]),
            },
    )
}

pub open spec fn symbol_not_found_message(name: Seq<char>) -> Seq<char> {
    "symbol not found: "@ + name
}

pub open spec fn not_a_function_message(name: Seq<char>) -> Seq<char> {
    name + " is not a function"@
}

/// Whether a function's parameters all have scalar types in the symbol table, and are few
/// enough for their frame offsets.
pub open spec fn params_known(table: Map<Seq<char>, SymbolTableEntry>, params: Seq<Seq<char>>) -> bool {
    &&& params.len() < 0x1000_0000
    &&& forall|i: int| #![trigger params[i]] 0 <= i < params.len() ==> table.contains_key(params[i])
        && is_scalar(table[params[i]].c_type)
}

/// Whether a function can be translated without a panic.
pub open spec fn function_translatable(table: Map<Seq<char>, SymbolTableEntry>, f: Function) -> bool {
    &&& params_known(table, strings_view(f.parameters@))
    &&& forall|i: int| #![trigger f.body@[i]] 0 <= i < f.body@.len() ==> translatable(table, f.body@[i]@)
}

/// The outcome of translating a function: an error message, or its code.
pub open spec fn function_result(table: Map<Seq<char>, SymbolTableEntry>, f: Function) -> Result<Seq<AsmView>, Seq<char>> {
    let name = f.name@;
    let params = strings_view(f.parameters@);
    if !table.contains_key(name) {
        Err(symbol_not_found_message(name))
    } else {
        match table[name].c_type {
            Type::Function { param_types, .. } => if param_types@.len() != params.len() {
                Err("number of parameters and items do not match"@)
            } else if exists|i: int| 0 <= i < param_types@.len() && !is_scalar(#[trigger] param_types@[i]) {
                Err("unsupported parameter type"@)
            } else {
                Ok(
                    param_moves(table, params) + translate_all(
                        table,
                        f.body@.map_values(|i: TackyInstruction| i@),
                    ),
                )
            },
            _ => Err(not_a_function_message(name)),
        }
    }
}

/// The static value of a static variable, converted to its type.
pub open spec fn static_value(v: ValueView, t: Type) -> Result<InitValue, Seq<char>> {
    match v {
        ValueView::IntegerConstant(i) => if t is Int {
            Ok(InitValue::Int(i))
        } else if t is Long {
            Ok(InitValue::Long(i as i64))
        } else {
            Err("invalid target type of cast"@)
        },
        ValueView::LongConstant(l) => if t is Int {
            Ok(InitValue::Int(l as i32))
        } else if t is Long {
            Ok(InitValue::Long(l))
        } else {
            Err("invalid target type of cast"@)
        },
        ValueView::Variable(_) => Err("invalid initial value of static variable"@),
    }
}

/// The alignment of a static value: four bytes for `int`, eight for `long`.
pub open spec fn alignment_of(v: InitValue) -> i32 {
    match v {
        InitValue::Int(_) => 4,
        InitValue::Long(_) => 8,
    }
}

/// The outcome of translating a list of top-level items: the first error, or all of them.
pub open spec fn program_result(table: Map<Seq<char>, SymbolTableEntry>, ts: Seq<TopLevel>) -> Result<Seq<AsmTopView>, Seq<char>>
    decreases ts.len(),
{
    if ts.len() == 0 {
        Ok(Seq::empty())
    } else {
        match program_result(table, ts.drop_last()) {
            Err(m) => Err(m),
            Ok(done) => match ts.last() {
                TopLevel::Function(f) => match function_result(table, f) {
                    Err(m) => Err(m),
                    Ok(code) => Ok(
                        done.push(
                            AsmTopView::Function {
                                name: f.name@,
                                is_global: f.is_global,
                                instructions: code,
                                stack_frame_size: 0,
                            },
                        ),
                    ),
                },
                TopLevel::StaticVariable(v) => match static_value(v.initial_value@, v.c_type) {
                    Err(m) => Err(m),
                    Ok(value) => Ok(
                        done.push(
                            AsmTopView::StaticVariable {
                                name: v.name@,
                                is_global: v.is_global,
                                value,
                                alignment: alignment_of(value),
                            },
                        ),
                    ),
                },
            },
        }
    }
}

/// Whether every function of a program can be translated without a panic.
pub open spec fn program_translatable(table: Map<Seq<char>, SymbolTableEntry>, ts: Seq<TopLevel>) -> bool {
    forall|i: int| #![trigger ts[i]] 0 <= i < ts.len() ==> (ts[i] matches TopLevel::Function(f) ==> function_translatable(table, f))
}

/// The back end's entry for a front-end entry.
pub open spec fn asm_entry(e: SymbolTableEntry) -> AsmEntry {
    match e.attrs {
        IdentAttrs::Function { is_defined, .. } => AsmEntry::Function { is_defined },
        IdentAttrs::Static { .. } => AsmEntry::Object { assembly_type: asm_type_of(e.c_type), is_static: true },
        IdentAttrs::Local => AsmEntry::Object { assembly_type: asm_type_of(e.c_type), is_static: false },
    }
}

/// Whether every object of the symbol table has a scalar type.
pub open spec fn objects_scalar(table: Map<Seq<char>, SymbolTableEntry>) -> bool {
    forall|k: Seq<char>| #[trigger] table.contains_key(k) ==> (table[k].attrs is Function || is_scalar(table[k].c_type))
}

fn push_asm(out: &mut Vec<Instruction>, i: Instruction)
    ensures
        asm_view(final(out)@) == asm_view(old(out)@).push(i@),
{
    out.push(i);
    assert(asm_view(out@) =~= asm_view(old(out)@).push(i@));
}

fn create_operand(v: &Value) -> (o: Operand)
    ensures
        o@ == operand_of(v@),
{
    match v {
        Value::IntegerConstant(i) => Operand::Immediate(ImmValue::Int(*i)),
        Value::LongConstant(l) => Operand::Immediate(ImmValue::Long(*l)),
        Value::Variable(n) => Operand::PseudoReg(n.clone()),
    }
}

fn int_arg_register_at(i: usize) -> (r: Register)
    requires
        i < 6,
    ensures
        r == int_arg_register(i as int),
{
    if i == 0 {
        Register::DI
    } else if i == 1 {
        Register::SI
    } else if i == 2 {
        Register::DX
    } else if i == 3 {
        Register::CX
    } else if i == 4 {
        Register::R8
    } else {
        Register::R9
    }
}

fn map_binary_operator(op: BinaryOperator) -> (r: BinaryOp)
    requires
        is_arithmetic(op),
    ensures
        r == spec_binary_op(op),
{
    match op {
        BinaryOperator::Add => BinaryOp::Add,
        BinaryOperator::Subtract => BinaryOp::Sub,
        BinaryOperator::Multiply => BinaryOp::Mul,
        BinaryOperator::BitAnd => BinaryOp::BitAnd,
        BinaryOperator::BitOr => BinaryOp::BitOr,
        BinaryOperator::BitXor => BinaryOp::BitXor,
        BinaryOperator::ShiftLeft => BinaryOp::ShiftLeft,
        _ => BinaryOp::ShiftRight,
    }
}

fn map_relational_operator(op: BinaryOperator) -> (r: ConditionCode)
    requires
        is_relational(op),
    ensures
        r == spec_condition(op),
{
    match op {
        BinaryOperator::Equal => ConditionCode::Eq,
        BinaryOperator::NotEqual => ConditionCode::NotEq,
        BinaryOperator::Greater => ConditionCode::Gt,
        BinaryOperator::GreaterEqual => ConditionCode::GtEq,
        BinaryOperator::Less => ConditionCode::Lt,
        _ => ConditionCode::LtEq,
    }
}

fn asm_type_for(t: &Type) -> (r: AssemblyType)
    ensures
        r == asm_type_of(*t),
{
    if matches!(t, Type::Long) {
        AssemblyType::Quadword
    } else {
        AssemblyType::Longword
    }
}

/// Translates three-address code into assembly with pseudo registers.
pub struct AssemblyCreator {
    symbol_table: SymbolTable<SymbolTableEntry>,
}

fn asm_entry_of(e: &SymbolTableEntry) -> (r: AsmEntry)
    ensures
        r == asm_entry(*e),
{
    match e.attrs {
        IdentAttrs::Function { is_defined, .. } => AsmEntry::Function { is_defined },
        IdentAttrs::Static { .. } => AsmEntry::Object { assembly_type: asm_type_for(&e.c_type), is_static: true },
        IdentAttrs::Local => AsmEntry::Object { assembly_type: asm_type_for(&e.c_type), is_static: false },
    }
}

proof fn lemma_program_result_stop(table: Map<Seq<char>, SymbolTableEntry>, ts: Seq<TopLevel>, i: int)
    requires
        0 <= i <= ts.len(),
        program_result(table, ts.subrange(0, i)) is Err,
    ensures
        program_result(table, ts) == program_result(table, ts.subrange(0, i)),
    decreases ts.len(),
{
    if i == ts.len() {
        assert(ts.subrange(0, i) =~= ts);
    } else {
        let shorter = ts.drop_last();
        assert(shorter.subrange(0, i) =~= ts.subrange(0, i));
        lemma_program_result_stop(table, shorter, i);
    }
}

impl AssemblyCreator {
    /// The symbol table the translation reads.
    pub closed spec fn table(&self) -> Map<Seq<char>, SymbolTableEntry> {
        self.symbol_table@
    }

    pub fn new(symbol_table: SymbolTable<SymbolTableEntry>) -> (c: Self)
        ensures
            c.table() == symbol_table@,
    {
        AssemblyCreator { symbol_table }
    }

    /// Grows the stack by `bytes`.
    pub fn allocate_stack(bytes: i32) -> (i: Instruction)
        ensures
            i@ == allocate_stack_view(bytes),
    {
        Instruction::Binary {
            assembly_type: AssemblyType::Quadword,
            op: BinaryOp::Sub,
            left: Operand::Immediate(ImmValue::Int(bytes)),
            right: Operand::Register(Register::SP),
        }
    }

    /// Shrinks the stack by `bytes`.
    pub fn deallocate_stack(bytes: i32) -> (i: Instruction)
        ensures
            i@ == deallocate_stack_view(bytes),
    {
        Instruction::Binary {
            assembly_type: AssemblyType::Quadword,
            op: BinaryOp::Add,
            left: Operand::Immediate(ImmValue::Int(bytes)),
            right: Operand::Register(Register::SP),
        }
    }

    fn lookup_asm_type(&self, name: &String) -> (t: AssemblyType)
        requires
            self.table().contains_key(name@),
        ensures
            t == asm_type_of(self.table()[name@].c_type),
    {
        match self.symbol_table.get_entry(name.as_str()) {
            Some(entry) => asm_type_for(&entry.c_type),
            None => AssemblyType::Longword,
        }
    }

    fn get_asm_type(&self, v: &Value) -> (t: AssemblyType)
        requires
            value_known(self.table(), v@),
        ensures
            t == value_type(self.table(), v@),
    {
        match v {
            Value::IntegerConstant(_) => AssemblyType::Longword,
            Value::LongConstant(_) => AssemblyType::Quadword,
            Value::Variable(n) => self.lookup_asm_type(n),
        }
    }

    fn push_arg(&self, v: &Value, out: &mut Vec<Instruction>)
        requires
            value_known(self.table(), v@),
        ensures
            asm_view(final(out)@) == asm_view(old(out)@) + push_arg_code(self.table(), v@),
    {
        let t = self.get_asm_type(v);
        let op = create_operand(v);
        if matches!(op, Operand::Immediate(_) | Operand::Register(_)) || t == AssemblyType::Quadword {
            push_asm(out, Instruction::Push(op));
        } else {
            push_asm(out, Instruction::Mov { assembly_type: t, src: op, dst: Operand::Register(Register::AX) });
            push_asm(out, Instruction::Push(Operand::Register(Register::AX)));
        }
        assert(asm_view(out@) =~= asm_view(old(out)@) + push_arg_code(self.table(), v@));
    }

    fn push_function_call(&self, name: &String, arguments: &Vec<Value>, dst: &Value, out: &mut Vec<Instruction>)
        requires
            arguments@.len() < 0x1000_0000,
            forall|k: int| 0 <= k < arguments@.len() ==> value_known(self.table(), (#[trigger] arguments@[k])@),
            value_known(self.table(), dst@),
        ensures
            asm_view(final(out)@) == asm_view(old(out)@) + call_code(
                self.table(),
                name@,
                crate::tacky::ast::values_view(arguments@),
                dst@,
            ),
    {
        let ghost table = self.table();
        let ghost vs = crate::tacky::ast::values_view(arguments@);
        let len = arguments.len();
        let n: usize = if len < 6 { len } else { 6 };
        let stack_len = len - n;
        let padding: usize = if stack_len % 2 == 0 { 0 } else { 8 };
        let ghost start = asm_view(out@);
        if padding > 0 {
            push_asm(out, Self::allocate_stack(8));
        }
        let ghost pre = asm_view(out@);
        let mut i: usize = 0;
        while i < n
            invariant
                i <= n,
                n == reg_count(len as int),
                len == arguments@.len(),
                vs == crate::tacky::ast::values_view(arguments@),
                table == self.table(),
                forall|k: int| 0 <= k < arguments@.len() ==> value_known(self.table(), (#[trigger] arguments@[k])@),
                asm_view(out@) == pre + reg_moves_code(table, vs.subrange(0, i as int)),
            decreases n - i,
        {
            let t = self.get_asm_type(&arguments[i]);
            let op = create_operand(&arguments[i]);
            let r = int_arg_register_at(i);
            let ghost before = asm_view(out@);
            push_asm(out, Instruction::Mov { assembly_type: t, src: op, dst: Operand::Register(r) });
            assert(reg_moves_code(table, vs.subrange(0, i as int + 1)) =~= reg_moves_code(table, vs.subrange(0, i as int)).push(asm_view(out@).last()));
            assert(asm_view(out@) =~= pre + reg_moves_code(table, vs.subrange(0, i as int + 1)));
            i = i + 1;
        }
        let ghost mid = asm_view(out@);
        let mut k: usize = len;
        assert(asm_view(out@) + push_args_code(table, vs.subrange(n as int, k as int)) =~= mid + push_args_code(table, vs.subrange(n as int, len as int)));
        while k > n
            invariant
                n <= k <= len,
                len == arguments@.len(),
                vs == crate::tacky::ast::values_view(arguments@),
                table == self.table(),
                forall|j: int| 0 <= j < arguments@.len() ==> value_known(self.table(), (#[trigger] arguments@[j])@),
                asm_view(out@) + push_args_code(table, vs.subrange(n as int, k as int)) == mid + push_args_code(table, vs.subrange(n as int, len as int)),
            decreases k,
        {
            let ghost before = asm_view(out@);
            let ghost sub = vs.subrange(n as int, k as int);
            assert(sub.drop_last() =~= vs.subrange(n as int, k as int - 1));
            assert(sub.last() == arguments@[k - 1]@);
            self.push_arg(&arguments[k - 1], out);
            assert(asm_view(out@) + push_args_code(table, vs.subrange(n as int, k as int - 1)) =~= before + push_args_code(table, sub));
            k = k - 1;
        }
        assert(asm_view(out@) =~= asm_view(out@) + push_args_code(table, vs.subrange(n as int, n as int)));
        push_asm(out, Instruction::Call(name.clone()));
        let bytes = 8 * stack_len + padding;
        if bytes > 0 {
            push_asm(out, Self::deallocate_stack(bytes as i32));
        }
        let t = self.get_asm_type(dst);
        let op = create_operand(dst);
        push_asm(out, Instruction::Mov { assembly_type: t, src: Operand::Register(Register::AX), dst: op });
        assert(asm_view(out@) =~= start + call_code(table, name@, vs, dst@));
    }

    /// Appends the assembly for one instruction.
    fn push_instruction(&self, i: &TackyInstruction, out: &mut Vec<Instruction>)
        requires
            translatable(self.table(), i@),
        ensures
            asm_view(final(out)@) == asm_view(old(out)@) + translate(self.table(), i@),
    {
        let ghost table = self.table();
        match i {
            TackyInstruction::Return(v) => {
                let t = self.get_asm_type(v);
                push_asm(out, Instruction::Mov { assembly_type: t, src: create_operand(v), dst: Operand::Register(Register::AX) });
                push_asm(out, Instruction::Ret);
            },
            TackyInstruction::SignExtend { src, dst } => {
                push_asm(out, Instruction::MovSx { src: create_operand(src), dst: create_operand(dst) });
            },
            TackyInstruction::Truncate { src, dst } => {
                push_asm(out, Instruction::Mov { assembly_type: AssemblyType::Longword, src: create_operand(src), dst: create_operand(dst) });
            },
            TackyInstruction::Unary { op, src, dst } => {
                if *op == UnaryOperator::Not {
                    let t = self.get_asm_type(dst);
                    push_asm(out, Instruction::Cmp { assembly_type: t, op1: Operand::Immediate(ImmValue::Int(0)), op2: create_operand(src) });
                    push_asm(out, Instruction::Mov { assembly_type: t, src: Operand::Immediate(ImmValue::Int(0)), dst: create_operand(dst) });
                    push_asm(out, Instruction::SetCC(ConditionCode::Eq, create_operand(dst)));
                } else {
                    let t = self.get_asm_type(src);
                    let uop = if *op == UnaryOperator::Negate { UnaryOp::Neg } else { UnaryOp::Not };
                    push_asm(out, Instruction::Mov { assembly_type: t, src: create_operand(src), dst: create_operand(dst) });
                    push_asm(out, Instruction::Unary { assembly_type: t, op: uop, operand: create_operand(dst) });
                }
            },
            TackyInstruction::Binary { op, src1, src2, dst } => {
                let t = self.get_asm_type(src1);
                if *op == BinaryOperator::Divide || *op == BinaryOperator::Remainder {
                    let result = if *op == BinaryOperator::Divide { Register::AX } else { Register::DX };
                    push_asm(out, Instruction::Mov { assembly_type: t, src: create_operand(src1), dst: Operand::Register(Register::AX) });
                    push_asm(out, Instruction::Cdq(t));
                    push_asm(out, Instruction::Idiv { assembly_type: t, operand: create_operand(src2) });
                    push_asm(out, Instruction::Mov { assembly_type: t, src: Operand::Register(result), dst: create_operand(dst) });
                } else if *op == BinaryOperator::Equal || *op == BinaryOperator::NotEqual || *op == BinaryOperator::Greater
                    || *op == BinaryOperator::GreaterEqual || *op == BinaryOperator::Less || *op == BinaryOperator::LessEqual {
                    let cc = map_relational_operator(*op);
                    let dt = self.get_asm_type(dst);
                    push_asm(out, Instruction::Cmp { assembly_type: t, op1: create_operand(src2), op2: create_operand(src1) });
                    push_asm(out, Instruction::Mov { assembly_type: dt, src: Operand::Immediate(ImmValue::Int(0)), dst: create_operand(dst) });
                    push_asm(out, Instruction::SetCC(cc, create_operand(dst)));
                } else {
                    let bop = map_binary_operator(*op);
                    push_asm(out, Instruction::Mov { assembly_type: t, src: create_operand(src1), dst: create_operand(dst) });
                    push_asm(out, Instruction::Binary { assembly_type: t, op: bop, left: create_operand(src2), right: create_operand(dst) });
                }
            },
            TackyInstruction::Copy { src, dst } => {
                let t = self.get_asm_type(src);
                push_asm(out, Instruction::Mov { assembly_type: t, src: create_operand(src), dst: create_operand(dst) });
            },
            TackyInstruction::Jump { target } => {
                push_asm(out, Instruction::Jmp(target.clone()));
            },
            TackyInstruction::JumpIfZero { condition, target } => {
                let t = self.get_asm_type(condition);
                push_asm(out, Instruction::Cmp { assembly_type: t, op1: Operand::Immediate(ImmValue::Int(0)), op2: create_operand(condition) });
                push_asm(out, Instruction::JmpCC(ConditionCode::Eq, target.clone()));
            },
            TackyInstruction::JumpIfNotZero { condition, target } => {
                let t = self.get_asm_type(condition);
                push_asm(out, Instruction::Cmp { assembly_type: t, op1: Operand::Immediate(ImmValue::Int(0)), op2: create_operand(condition) });
                push_asm(out, Instruction::JmpCC(ConditionCode::NotEq, target.clone()));
            },
            TackyInstruction::Label(l) => {
                push_asm(out, Instruction::Label(l.clone()));
            },
            TackyInstruction::FunctionCall { name, arguments, dst } => {
                assert forall|k: int| 0 <= k < arguments@.len() implies value_known(table, (#[trigger] arguments@[k])@) by {
                    assert(crate::tacky::ast::values_view(arguments@)[k] == arguments@[k]@);
                }
                self.push_function_call(name, arguments, dst, out);
                return;
            },
        }
        assert(asm_view(out@) =~= asm_view(old(out)@) + translate(table, i@));
    }
}


impl AssemblyCreator {
    #[verifier::loop_isolation(false)]
    fn create_func_def(&self, f: &Function) -> (r: Result<FuncDef, String>)
        requires
            function_translatable(self.table(), *f),
        ensures
            r is Ok <==> function_result(self.table(), *f) is Ok,
            r matches Ok(fd) ==> AsmTopLevel::Function(fd)@ == (AsmTopView::Function {
                name: f.name@,
                is_global: f.is_global,
                instructions: function_result(self.table(), *f)->Ok_0,
                stack_frame_size: 0,
            }),
            r matches Err(m) ==> m@ == function_result(self.table(), *f)->Err_0,
    {
        let ghost table = self.table();
        let ghost params = strings_view(f.parameters@);
        let entry = match self.symbol_table.get_entry(f.name.as_str()) {
            None => {
                let mut m = string_of("symbol not found: ");
                append_str(&mut m, f.name.as_str());
                return Err(m);
            },
            Some(e) => e,
        };
        let param_types = match &entry.c_type {
            Type::Function { param_types, .. } => param_types,
            _ => {
                let mut m = copy_string(&f.name);
                append_str(&mut m, " is not a function");
                return Err(m);
            },
        };
        if param_types.len() != f.parameters.len() {
            return Err(string_of("number of parameters and items do not match"));
        }
        let mut i: usize = 0;
        while i < param_types.len()
            invariant
                i <= param_types@.len(),
                forall|k: int| 0 <= k < i ==> is_scalar(#[trigger] param_types@[k]),
            decreases param_types@.len() - i,
        {
            if !matches!(param_types[i], Type::Int | Type::Long) {
                assert(!is_scalar(param_types@[i as int]));
                return Err(string_of("unsupported parameter type"));
            }
            i = i + 1;
        }
        assert(!exists|k: int| 0 <= k < param_types@.len() && !is_scalar(#[trigger] param_types@[k]));
        let mut out: Vec<Instruction> = Vec::new();
        let mut j: usize = 0;
        let ghost moves = param_moves(table, params);
        assert(asm_view(out@) =~= moves.subrange(0, 0));
        while j < f.parameters.len()
            invariant
                j <= f.parameters@.len(),
                params == strings_view(f.parameters@),
                table == self.table(),
                moves == param_moves(table, params),
                params_known(table, params),
                asm_view(out@) == moves.subrange(0, j as int),
            decreases f.parameters@.len() - j,
        {
            assert(params[j as int] == f.parameters@[j as int]@);
            let t = self.lookup_asm_type(&f.parameters[j]);
            let src = if j < 6 {
                Operand::Register(int_arg_register_at(j))
            } else {
                Operand::Stack((16 + 8 * (j - 6)) as i32)
            };
            push_asm(&mut out, Instruction::Mov { assembly_type: t, src, dst: Operand::PseudoReg(f.parameters[j].clone()) });
            assert(asm_view(out@) =~= moves.subrange(0, j as int + 1));
            j = j + 1;
        }
        assert(moves.subrange(0, moves.len() as int) =~= moves);
        let ghost body = f.body@.map_values(|i: TackyInstruction| i@);
        let mut k: usize = 0;
        assert(body.subrange(0, 0) =~= Seq::<InstructionView>::empty());
        assert(asm_view(out@) =~= moves + translate_all(table, body.subrange(0, 0)));
        while k < f.body.len()
            invariant
                k <= f.body@.len(),
                table == self.table(),
                body == f.body@.map_values(|i: TackyInstruction| i@),
                function_translatable(table, *f),
                asm_view(out@) == moves + translate_all(table, body.subrange(0, k as int)),
            decreases f.body@.len() - k,
        {
            let ghost sub = body.subrange(0, k as int + 1);
            assert(sub.drop_last() =~= body.subrange(0, k as int));
            assert(sub.last() == f.body@[k as int]@);
            self.push_instruction(&f.body[k], &mut out);
            assert(asm_view(out@) =~= moves + translate_all(table, sub));
            k = k + 1;
        }
        assert(body.subrange(0, body.len() as int) =~= body);
        Ok(FuncDef::new(f.name.clone(), f.is_global, out))
    }

    fn create_static_var(&self, v: &StaticVariable) -> (r: Result<StaticVar, String>)
        ensures
            r is Ok <==> static_value(v.initial_value@, v.c_type) is Ok,
            r matches Ok(sv) ==> AsmTopLevel::StaticVariable(sv)@ == (AsmTopView::StaticVariable {
                name: v.name@,
                is_global: v.is_global,
                value: static_value(v.initial_value@, v.c_type)->Ok_0,
                alignment: alignment_of(static_value(v.initial_value@, v.c_type)->Ok_0),
            }),
            r matches Err(m) ==> m@ == static_value(v.initial_value@, v.c_type)->Err_0,
    {
        let value = match &v.initial_value {
            Value::IntegerConstant(i) => match v.c_type {
                Type::Int => InitValue::Int(*i),
                Type::Long => InitValue::Long(*i as i64),
                _ => return Err(string_of("invalid target type of cast")),
            },
            Value::LongConstant(l) => match v.c_type {
                Type::Int => InitValue::Int(*l as i32),
                Type::Long => InitValue::Long(*l),
                _ => return Err(string_of("invalid target type of cast")),
            },
            Value::Variable(_) => return Err(string_of("invalid initial value of static variable")),
        };
        let alignment: i32 = match value {
            InitValue::Int(_) => 4,
            InitValue::Long(_) => 8,
        };
        Ok(StaticVar { name: v.name.clone(), is_global: v.is_global, value, alignment })
    }

    /// The back end's symbol table: each entry of the front end's, by kind.
    fn fill_asm_symbol_table(&self) -> (t: SymbolTable<AsmEntry>)
        ensures
            t@ == self.table().map_values(|e: SymbolTableEntry| asm_entry(e)),
    {
        let ghost table = self.table();
        let all = self.symbol_table.get_all_entries();
        let mut t: SymbolTable<AsmEntry> = SymbolTable::new();
        let mut i: usize = 0;
        while i < all.len()
            invariant
                i <= all@.len(),
                table == self.table(),
                forall|j: int| 0 <= j < all@.len() ==> table.contains_key(#[trigger] all@[j].0@) && table[all@[j].0@] == all@[j].1,
                forall|k: Seq<char>| #[trigger] t@.contains_key(k) <==> exists|j: int| 0 <= j < i && #[trigger] all@[j].0@ == k,
                forall|k: Seq<char>| #[trigger] t@.contains_key(k) ==> t@[k] == asm_entry(table[k]),
            decreases all@.len() - i,
        {
            let (name, entry) = &all[i];
            let e = asm_entry_of(entry);
            let _ = t.insert(name.as_str(), e);
            assert forall|k: Seq<char>| #[trigger] t@.contains_key(k) implies exists|j: int| 0 <= j < i + 1 && #[trigger] all@[j].0@ == k by {
                if k != all@[i as int].0@ {
                    let j = choose|j: int| 0 <= j < i && #[trigger] all@[j].0@ == k;
                    assert(all@[j].0@ == k);
                }
            }
            i = i + 1;
        }
        assert(t@ =~= table.map_values(|e: SymbolTableEntry| asm_entry(e)));
        t
    }

    /// Translates a program; fails with the first function or static variable that cannot be
    /// translated. Also gives the back end's symbol table.
    pub fn create_program(&self, tacky_program: &crate::tacky::ast::Program) -> (r: Result<(Program, SymbolTable<AsmEntry>), String>)
        requires
            program_translatable(self.table(), tacky_program.0@),
            objects_scalar(self.table()),
        ensures
            r is Ok <==> program_result(self.table(), tacky_program.0@) is Ok,
            r matches Ok((p, t)) ==> tops_view(p.top_levels@) == program_result(self.table(), tacky_program.0@)->Ok_0
                && t@ == self.table().map_values(|e: SymbolTableEntry| asm_entry(e)),
            r matches Err(m) ==> m@ == program_result(self.table(), tacky_program.0@)->Err_0,
    {
        let ghost table = self.table();
        let ghost ts = tacky_program.0@;
        let mut tops: Vec<AsmTopLevel> = Vec::new();
        let mut i: usize = 0;
        assert(ts.subrange(0, 0) =~= Seq::<TopLevel>::empty());
        assert(tops_view(tops@) =~= Seq::<AsmTopView>::empty());
        while i < tacky_program.0.len()
            invariant
                i <= ts.len(),
                ts == tacky_program.0@,
                table == self.table(),
                program_translatable(table, ts),
                program_result(table, ts.subrange(0, i as int)) == Ok::<Seq<AsmTopView>, Seq<char>>(tops_view(tops@)),
            decreases ts.len() - i,
        {
            let ghost sub = ts.subrange(0, i as int + 1);
            assert(sub.drop_last() =~= ts.subrange(0, i as int));
            assert(sub.last() == ts[i as int]);
            let ghost before = tops@;
            match &tacky_program.0[i] {
                TopLevel::Function(f) => {
                    assert(function_translatable(table, *f));
                    match self.create_func_def(f) {
                        Ok(fd) => {
                            tops.push(AsmTopLevel::Function(fd));
                        },
                        Err(m) => {
                            proof {
                                lemma_program_result_stop(table, ts, i as int + 1);
                            }
                            return Err(m);
                        },
                    }
                },
                TopLevel::StaticVariable(v) => {
                    match self.create_static_var(v) {
                        Ok(sv) => {
                            tops.push(AsmTopLevel::StaticVariable(sv));
                        },
                        Err(m) => {
                            proof {
                                lemma_program_result_stop(table, ts, i as int + 1);
                            }
                            return Err(m);
                        },
                    }
                },
            }
            assert(tops_view(tops@) =~= tops_view(before).push(tops@.last()@));
            i = i + 1;
        }
        assert(ts.subrange(0, ts.len() as int) =~= ts);
        let t = self.fill_asm_symbol_table();
        Ok((Program::new(tops), t))
    }
}

} // verus!
