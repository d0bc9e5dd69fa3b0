use vstd::prelude::*;

use crate::common::symbol_table::InitValue;

verus! {

/// An assembly program: its functions and static variables, in order.
#[derive(Debug)]
pub struct Program {
    pub top_levels: Vec<TopLevel>,
}

impl Program {
    pub fn new(top_levels: Vec<TopLevel>) -> (p: Self)
        ensures
            p.top_levels == top_levels,
    {
        Program { top_levels }
    }
}

#[derive(Debug)]
pub enum TopLevel {
    Function(FuncDef),
    StaticVariable(StaticVar),
}

#[derive(Debug)]
pub struct FuncDef {
    pub name: String,
    pub is_global: bool,
    pub instructions: Vec<Instruction>,
    pub stack_frame_size: usize,
}

impl FuncDef {
    /// A function whose stack frame size is still to be determined (zero).
    pub fn new(name: String, is_global: bool, instructions: Vec<Instruction>) -> (f: Self)
        ensures
            f.name == name,
            f.is_global == is_global,
            f.instructions == instructions,
            f.stack_frame_size == 0,
    {
        FuncDef { name, is_global, instructions, stack_frame_size: 0 }
    }
}

#[derive(Debug)]
pub struct StaticVar {
    pub name: String,
    pub is_global: bool,
    pub value: InitValue,
    pub alignment: i32,
}

#[derive(Debug, Clone, Copy, PartialEq, Eq, Structural)]
pub enum AssemblyType {
    Longword,
    Quadword,
}

#[derive(Debug, Clone, Copy, PartialEq, Eq, Structural)]
pub enum ImmValue {
    Int(i32),
    Long(i64),
}

#[derive(Debug, PartialEq)]
pub enum Instruction {
    Mov { assembly_type: AssemblyType, src: Operand, dst: Operand },
    MovSx { src: Operand, dst: Operand },
    Unary { assembly_type: AssemblyType, op: UnaryOp, operand: Operand },
    Binary { assembly_type: AssemblyType, op: BinaryOp, left: Operand, right: Operand },
    Cmp { assembly_type: AssemblyType, op1: Operand, op2: Operand },
    Idiv { assembly_type: AssemblyType, operand: Operand },
    Cdq(AssemblyType),
    Jmp(String),
    JmpCC(ConditionCode, String),
    SetCC(ConditionCode, Operand),
    Label(String),
    Push(Operand),
    Call(String),
    Ret,
}

#[derive(Debug, Clone, Copy, PartialEq, Eq, Structural)]
pub enum ConditionCode {
    Eq,
    NotEq,
    Gt,
    GtEq,
    Lt,
    LtEq,
}

#[derive(Debug, PartialEq)]
pub enum Operand {
    Immediate(ImmValue),
    Register(Register),
    PseudoReg(String),
    Data(String),
    Stack(i32),
}

#[derive(Debug, Clone, Copy, PartialEq, Eq, Structural)]
pub enum BinaryOp {
    Add,
    Sub,
    Mul,
    BitAnd,
    BitOr,
    BitXor,
    ShiftLeft,
    ShiftRight,
}

#[derive(Debug, Clone, Copy, PartialEq, Eq, Structural)]
pub enum UnaryOp {
    Neg,
    Not,
}

#[derive(Debug, Clone, Copy, PartialEq, Eq, Structural)]
pub enum Register {
    AX,
    CX,
    DX,
    DI,
    SI,
    R8,
    R9,
    R10,
    R11,
    SP,
}

/// An operand with its names as text.
pub enum OperandView {
    Immediate(ImmValue),
    Register(Register),
    PseudoReg(Seq<char>),
    Data(Seq<char>),
    Stack(i32),
}

impl View for Operand {
    type V = OperandView;

    open spec fn view(&self) -> OperandView {
        match self {
            Operand::Immediate(i) => OperandView::Immediate(*i),
            Operand::Register(r) => OperandView::Register(*r),
            Operand::PseudoReg(n) => OperandView::PseudoReg(n@),
            Operand::Data(n) => OperandView::Data(n@),
            Operand::Stack(o) => OperandView::Stack(*o),
        }
    }
}

/// An instruction with its names as text.
pub enum AsmView {
    Mov { assembly_type: AssemblyType, src: OperandView, dst: OperandView },
    MovSx { src: OperandView, dst: OperandView },
    Unary { assembly_type: AssemblyType, op: UnaryOp, operand: OperandView },
    Binary { assembly_type: AssemblyType, op: BinaryOp, left: OperandView, right: OperandView },
    Cmp { assembly_type: AssemblyType, op1: OperandView, op2: OperandView },
    Idiv { assembly_type: AssemblyType, operand: OperandView },
    Cdq(AssemblyType),
    Jmp(Seq<char>),
    JmpCC(ConditionCode, Seq<char>),
    SetCC(ConditionCode, OperandView),
    Label(Seq<char>),
    Push(OperandView),
    Call(Seq<char>),
    Ret,
}

impl View for Instruction {
    type V = AsmView;

    open spec fn view(&self) -> AsmView {
        match self {
            Instruction::Mov { assembly_type, src, dst } => AsmView::Mov {
                assembly_type: *assembly_type,
                src: src@,
                dst: dst@,
            },
            Instruction::MovSx { src, dst } => AsmView::MovSx { src: src@, dst: dst@ },
            Instruction::Unary { assembly_type, op, operand } => AsmView::Unary {
                assembly_type: *assembly_type,
                op: *op,
                operand: operand@,
            },
            Instruction::Binary { assembly_type, op, left, right } => AsmView::Binary {
                assembly_type: *assembly_type,
                op: *op,
                left: left@,
                right: right@,
            },
            Instruction::Cmp { assembly_type, op1, op2 } => AsmView::Cmp {
                assembly_type: *assembly_type,
                op1: op1@,
                op2: op2@,
            },
            Instruction::Idiv { assembly_type, operand } => AsmView::Idiv {
                assembly_type: *assembly_type,
                operand: operand@,
            },
            Instruction::Cdq(t) => AsmView::Cdq(*t),
            Instruction::Jmp(l) => AsmView::Jmp(l@),
            Instruction::JmpCC(c, l) => AsmView::JmpCC(*c, l@),
            Instruction::SetCC(c, o) => AsmView::SetCC(*c, o@),
            Instruction::Label(l) => AsmView::Label(l@),
            Instruction::Push(o) => AsmView::Push(o@),
            Instruction::Call(n) => AsmView::Call(n@),
            Instruction::Ret => AsmView::Ret,
        }
    }
}

/// The views of a sequence of instructions.
pub open spec fn asm_view(is: Seq<Instruction>) -> Seq<AsmView> {
    is.map_values(|i: Instruction| i@)
}

/// A top-level item with its names and code as text.
pub enum AsmTopView {
    Function { name: Seq<char>, is_global: bool, instructions: Seq<AsmView>, stack_frame_size: usize },
    StaticVariable { name: Seq<char>, is_global: bool, value: InitValue, alignment: i32 },
}

impl View for TopLevel {
    type V = AsmTopView;

    open spec fn view(&self) -> AsmTopView {
        match self {
            TopLevel::Function(f) => AsmTopView::Function {
                name: f.name@,
                is_global: f.is_global,
                instructions: asm_view(f.instructions@),
                stack_frame_size: f.stack_frame_size,
            },
            TopLevel::StaticVariable(v) => AsmTopView::StaticVariable {
                name: v.name@,
                is_global: v.is_global,
                value: v.value,
                alignment: v.alignment,
            },
        }
    }
}

/// The views of a sequence of top-level items.
pub open spec fn tops_view(ts: Seq<TopLevel>) -> Seq<AsmTopView> {
    ts.map_values(|t: TopLevel| t@)
}

/// Whether an operand is in memory (on the stack or in the data section).
pub open spec fn is_memory(o: OperandView) -> bool {
    o is Stack || o is Data
}

impl Operand {
    /// A copy of this operand.
    pub fn duplicate(&self) -> (r: Operand)
        ensures
            r@ == self@,
    {
        match self {
            Operand::Immediate(i) => Operand::Immediate(*i),
            Operand::Register(r) => Operand::Register(*r),
            Operand::PseudoReg(n) => Operand::PseudoReg(n.clone()),
            Operand::Data(n) => Operand::Data(n.clone()),
            Operand::Stack(o) => Operand::Stack(*o),
        }
    }

    /// Whether this operand is in memory.
    pub fn is_memory(&self) -> (r: bool)
        ensures
            r == is_memory(self@),
    {
        matches!(self, Operand::Stack(_) | Operand::Data(_))
    }
}

impl Instruction {
    /// A copy of this instruction.
    pub fn duplicate(&self) -> (r: Instruction)
        ensures
            r@ == self@,
    {
        match self {
            Instruction::Mov { assembly_type, src, dst } => Instruction::Mov {
                assembly_type: *assembly_type,
                src: src.duplicate(),
                dst: dst.duplicate(),
            },
            Instruction::MovSx { src, dst } => Instruction::MovSx { src: src.duplicate(), dst: dst.duplicate() },
            Instruction::Unary { assembly_type, op, operand } => Instruction::Unary {
                assembly_type: *assembly_type,
                op: *op,
                operand: operand.duplicate(),
            },
            Instruction::Binary { assembly_type, op, left, right } => Instruction::Binary {
                assembly_type: *assembly_type,
                op: *op,
                left: left.duplicate(),
                right: right.duplicate(),
            },
            Instruction::Cmp { assembly_type, op1, op2 } => Instruction::Cmp {
                assembly_type: *assembly_type,
                op1: op1.duplicate(),
                op2: op2.duplicate(),
            },
            Instruction::Idiv { assembly_type, operand } => Instruction::Idiv {
                assembly_type: *assembly_type,
                operand: operand.duplicate(),
            },
            Instruction::Cdq(t) => Instruction::Cdq(*t),
            Instruction::Jmp(l) => Instruction::Jmp(l.clone()),
            Instruction::JmpCC(c, l) => Instruction::JmpCC(*c, l.clone()),
            Instruction::SetCC(c, o) => Instruction::SetCC(*c, o.duplicate()),
            Instruction::Label(l) => Instruction::Label(l.clone()),
            Instruction::Push(o) => Instruction::Push(o.duplicate()),
            Instruction::Call(n) => Instruction::Call(n.clone()),
            Instruction::Ret => Instruction::Ret,
        }
    }
}

} // verus!
