use vstd::prelude::*;

use crate::ast::{same_type, Type};
use crate::util::strings_view;

verus! {

/// A program in three-address code: its functions and static variables.
#[derive(Debug, PartialEq)]
pub struct Program(pub Vec<TopLevel>);

#[derive(Debug, PartialEq)]
pub enum TopLevel {
    Function(Function),
    StaticVariable(StaticVariable),
}

#[derive(Debug, PartialEq)]
pub struct Function {
    pub name: String,
    pub parameters: Vec<String>,
    pub body: Vec<Instruction>,
    pub is_global: bool,
}

#[derive(Debug, PartialEq)]
pub struct StaticVariable {
    pub name: String,
    pub is_global: bool,
    pub initial_value: Value,
    pub c_type: Type,
}

#[derive(Debug, PartialEq)]
pub enum Instruction {
    Return(Value),
    SignExtend { src: Value, dst: Value },
    Truncate { src: Value, dst: Value },
    Unary { op: UnaryOperator, src: Value, dst: Value },
    Binary { op: BinaryOperator, src1: Value, src2: Value, dst: Value },
    Copy { src: Value, dst: Value },
    Jump { target: String },
    JumpIfZero { condition: Value, target: String },
    JumpIfNotZero { condition: Value, target: String },
    Label(String),
    FunctionCall { name: String, arguments: Vec<Value>, dst: Value },
}

#[derive(Debug, PartialEq)]
pub enum Value {
    IntegerConstant(i32),
    LongConstant(i64),
    Variable(String),
}

#[derive(Debug, Clone, Copy, PartialEq, Eq, Structural)]
pub enum UnaryOperator {
    Complement,
    Negate,
    Not,
}

#[derive(Debug, Clone, Copy, PartialEq, Eq, Structural)]
pub enum BinaryOperator {
    Add,
    Subtract,
    Multiply,
    Divide,
    Remainder,
    BitAnd,
    BitOr,
    BitXor,
    ShiftLeft,
    ShiftRight,
    LogicalAnd,
    LogicalOr,
    Equal,
    NotEqual,
    Greater,
    Less,
    GreaterEqual,
    LessEqual,
}

/// A value as text: constants by their number, variables by their name.
pub enum ValueView {
    IntegerConstant(i32),
    LongConstant(i64),
    Variable(Seq<char>),
}

/// An instruction with its names as text.
pub enum InstructionView {
    Return(ValueView),
    SignExtend { src: ValueView, dst: ValueView },
    Truncate { src: ValueView, dst: ValueView },
    Unary { op: UnaryOperator, src: ValueView, dst: ValueView },
    Binary { op: BinaryOperator, src1: ValueView, src2: ValueView, dst: ValueView },
    Copy { src: ValueView, dst: ValueView },
    Jump { target: Seq<char> },
    JumpIfZero { condition: ValueView, target: Seq<char> },
    JumpIfNotZero { condition: ValueView, target: Seq<char> },
    Label(Seq<char>),
    FunctionCall { name: Seq<char>, arguments: Seq<ValueView>, dst: ValueView },
}

impl View for Value {
    type V = ValueView;

    open spec fn view(&self) -> ValueView {
        match self {
            Value::IntegerConstant(i) => ValueView::IntegerConstant(*i),
            Value::LongConstant(l) => ValueView::LongConstant(*l),
            Value::Variable(n) => ValueView::Variable(n@),
        }
    }
}

/// The views of a sequence of values.
pub open spec fn values_view(vs: Seq<Value>) -> Seq<ValueView> {
    vs.map_values(|v: Value| v@)
}

impl View for Instruction {
    type V = InstructionView;

    open spec fn view(&self) -> InstructionView {
        match self {
            Instruction::Return(v) => InstructionView::Return(v@),
            Instruction::SignExtend { src, dst } => InstructionView::SignExtend { src: src@, dst: dst@ },
            Instruction::Truncate { src, dst } => InstructionView::Truncate { src: src@, dst: dst@ },
            Instruction::Unary { op, src, dst } => InstructionView::Unary { op: *op, src: src@, dst: dst@ },
            Instruction::Binary { op, src1, src2, dst } => InstructionView::Binary {
                op: *op,
                src1: src1@,
                src2: src2@,
                dst: dst@,
            },
            Instruction::Copy { src, dst } => InstructionView::Copy { src: src@, dst: dst@ },
            Instruction::Jump { target } => InstructionView::Jump { target: target@ },
            Instruction::JumpIfZero { condition, target } => InstructionView::JumpIfZero {
                condition: condition@,
                target: target@,
            },
            Instruction::JumpIfNotZero { condition, target } => InstructionView::JumpIfNotZero {
                condition: condition@,
                target: target@,
            },
            Instruction::Label(l) => InstructionView::Label(l@),
            Instruction::FunctionCall { name, arguments, dst } => InstructionView::FunctionCall {
                name: name@,
                arguments: values_view(arguments@),
                dst: dst@,
            },
        }
    }
}

/// The views of a sequence of instructions.
pub open spec fn instructions_view(is: Seq<Instruction>) -> Seq<InstructionView> {
    is.map_values(|i: Instruction| i@)
}

/// A function with its names and code as text.
pub struct FunctionView {
    pub name: Seq<char>,
    pub parameters: Seq<Seq<char>>,
    pub body: Seq<InstructionView>,
    pub is_global: bool,
}

/// A static variable with its name as text.
pub struct StaticVariableView {
    pub name: Seq<char>,
    pub is_global: bool,
    pub initial_value: ValueView,
    pub c_type: Type,
}

pub enum TopLevelView {
    Function(FunctionView),
    StaticVariable(StaticVariableView),
}

impl View for TopLevel {
    type V = TopLevelView;

    open spec fn view(&self) -> TopLevelView {
        match self {
            TopLevel::Function(f) => TopLevelView::Function(FunctionView {
                name: f.name@,
                parameters: strings_view(f.parameters@),
                body: instructions_view(f.body@),
                is_global: f.is_global,
            }),
            TopLevel::StaticVariable(v) => TopLevelView::StaticVariable(StaticVariableView {
                name: v.name@,
                is_global: v.is_global,
                initial_value: v.initial_value@,
                c_type: v.c_type,
            }),
        }
    }
}

/// Whether two lists of top-level items agree: the same items, with static variables whose
/// types are the same types.
pub open spec fn top_levels_agree(a: Seq<TopLevelView>, b: Seq<TopLevelView>) -> bool {
    &&& a.len() == b.len()
    &&& forall|i: int|
        #![trigger a[i], b[i]]
        0 <= i < a.len() ==> match (a[i], b[i]) {
            (TopLevelView::Function(x), TopLevelView::Function(y)) => x == y,
            (TopLevelView::StaticVariable(x), TopLevelView::StaticVariable(y)) => {
                &&& x.name == y.name
                &&& x.is_global == y.is_global
                &&& x.initial_value == y.initial_value
                &&& same_type(x.c_type, y.c_type)
            },
            _ => false,
        }
}

impl Value {
    /// A copy of this value.
    pub fn duplicate(&self) -> (r: Value)
        ensures
            r@ == self@,
    {
        match self {
            Value::IntegerConstant(i) => Value::IntegerConstant(*i),
            Value::LongConstant(l) => Value::LongConstant(*l),
            Value::Variable(n) => Value::Variable(n.clone()),
        }
    }
}

} // verus!
