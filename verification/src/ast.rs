use vstd::prelude::*;

use crate::util::copy_string;

verus! {

/// A translation unit: the declarations at file scope, in source order.
#[derive(Debug)]
pub struct Program {
    pub decls: Vec<Declaration>,
}

impl Program {
    /// A program without declarations.
    pub fn new() -> (p: Self)
        ensures
            p.decls@.len() == 0,
    {
        Program { decls: Vec::new() }
    }
}

#[derive(Debug)]
pub enum Declaration {
    FunctionDecl(FunctionDeclaration),
    VarDecl(VarDeclaration),
}

#[derive(Debug)]
pub struct FunctionDeclaration {
    pub name: String,
    pub parameters: Vec<String>,
    pub body: Option<Block>,
    pub storage_class: Option<StorageClass>,
    pub func_type: Type,
}

impl FunctionDeclaration {
    pub fn new(
        name: String,
        parameters: Vec<String>,
        body: Option<Block>,
        storage_class: Option<StorageClass>,
        func_type: Type,
    ) -> (d: Self)
        ensures
            d == (FunctionDeclaration { name, parameters, body, storage_class, func_type }),
    {
        FunctionDeclaration { name, parameters, body, storage_class, func_type }
    }
}

#[derive(Debug)]
pub struct VarDeclaration {
    pub name: String,
    pub init_expr: Option<TypedExpression>,
    pub storage_class: Option<StorageClass>,
    pub var_type: Type,
}

impl VarDeclaration {
    pub fn new(
        name: String,
        init_expr: Option<TypedExpression>,
        storage_class: Option<StorageClass>,
        var_type: Type,
    ) -> (d: Self)
        ensures
            d == (VarDeclaration { name, init_expr, storage_class, var_type }),
    {
        VarDeclaration { name, init_expr, storage_class, var_type }
    }
}

/// The types of C values and functions.
#[derive(Debug, PartialEq)]
pub enum Type {
    Int,
    Long,
    Function { return_type: Box<Type>, param_types: Vec<Type> },
    Undefined,
}

/// Whether two types are the same type: equal kinds, and for functions equal return types
/// and equal parameter types, position by position.
pub open spec fn same_type(a: Type, b: Type) -> bool
    decreases a,
{
    match a {
        Type::Int => b is Int,
        Type::Long => b is Long,
        Type::Undefined => b is Undefined,
        Type::Function { return_type: ra, param_types: pa } => match b {
            Type::Function { return_type: rb, param_types: pb } => {
                &&& same_type(*ra, *rb)
                &&& pa@.len() == pb@.len()
                &&& forall|i: int| #![trigger pa@[i]] 0 <= i < pa@.len() ==> same_type(pa@[i], pb@[i])
            },
            _ => false,
        },
    }
}

/// `same_type` relates each type to itself.
pub proof fn lemma_same_type_reflexive(a: Type)
    ensures
        same_type(a, a),
    decreases a,
{
    if let Type::Function { return_type, param_types } = a {
        lemma_same_type_reflexive(*return_type);
        assert forall|i: int| 0 <= i < param_types@.len() implies same_type(
            #[trigger] param_types@[i],
            param_types@[i],
        ) by {
            lemma_same_type_reflexive(param_types@[i]);
        }
    }
}

/// `same_type` is symmetric.
pub proof fn lemma_same_type_symmetric(a: Type, b: Type)
    requires
        same_type(a, b),
    ensures
        same_type(b, a),
    decreases a,
{
    if let Type::Function { return_type: ra, param_types: pa } = a {
        if let Type::Function { return_type: rb, param_types: pb } = b {
            lemma_same_type_symmetric(*ra, *rb);
            assert forall|i: int| 0 <= i < pb@.len() implies same_type(#[trigger] pb@[i], pa@[i]) by {
                lemma_same_type_symmetric(pa@[i], pb@[i]);
            }
        }
    }
}

impl Type {
    /// Whether this type is the same type as `other`.
    #[verifier::loop_isolation(false)]
    pub fn equals(&self, other: &Type) -> (r: bool)
        ensures
            r == same_type(*self, *other),
        decreases self,
    {
        match self {
            Type::Int => matches!(other, Type::Int),
            Type::Long => matches!(other, Type::Long),
            Type::Undefined => matches!(other, Type::Undefined),
            Type::Function { return_type: ra, param_types: pa } => match other {
                Type::Function { return_type: rb, param_types: pb } => {
                    if !ra.equals(rb) {
                        return false;
                    }
                    if pa.len() != pb.len() {
                        return false;
                    }
                    let mut i: usize = 0;
                    while i < pa.len()
                        invariant
                            i <= pa@.len(),
                            pa@.len() == pb@.len(),
                            forall|j: int| 0 <= j < i ==> same_type(#[trigger] pa@[j], pb@[j]),
                        decreases pa@.len() - i,
                    {
                        proof {
                            vstd::std_specs::vec::axiom_vec_index_decreases(*pa, i as int);
                        }
                        if !pa[i].equals(&pb[i]) {
                            assert(!same_type(pa@[i as int], pb@[i as int]));
                            return false;
                        }
                        i = i + 1;
                    }
                    true
                },
                _ => false,
            },
        }
    }

    /// A copy of this type.
    #[verifier::loop_isolation(false)]
    pub fn duplicate(&self) -> (r: Type)
        ensures
            same_type(r, *self),
            (*self is Int || *self is Long || *self is Undefined) ==> r == *self,
        decreases self,
    {
        match self {
            Type::Int => Type::Int,
            Type::Long => Type::Long,
            Type::Undefined => Type::Undefined,
            Type::Function { return_type, param_types } => {
                let r = return_type.duplicate();
                let mut ps: Vec<Type> = Vec::new();
                let mut i: usize = 0;
                while i < param_types.len()
                    invariant
                        i <= param_types@.len(),
                        ps@.len() == i,
                        forall|j: int| 0 <= j < i ==> same_type(#[trigger] ps@[j], param_types@[j]),
                    decreases param_types@.len() - i,
                {
                    proof {
                        vstd::std_specs::vec::axiom_vec_index_decreases(*param_types, i as int);
                    }
                    let p = param_types[i].duplicate();
                    ps.push(p);
                    i = i + 1;
                }
                Type::Function { return_type: Box::new(r), param_types: ps }
            },
        }
    }
}

impl Clone for Type {
    fn clone(&self) -> (r: Type)
        ensures
            same_type(r, *self),
    {
        self.duplicate()
    }
}

#[derive(Debug, Clone, Copy, PartialEq, Eq, Structural)]
pub enum StorageClass {
    Static,
    Extern,
}

#[derive(Debug)]
pub struct Block {
    pub items: Vec<BlockItem>,
}

impl Block {
    pub fn new(items: Vec<BlockItem>) -> (b: Self)
        ensures
            b.items == items,
    {
        Block { items }
    }
}

#[derive(Debug)]
pub enum BlockItem {
    VarDeclaration(VarDeclaration),
    FunctionDeclaration(FunctionDeclaration),
    Statement(Statement),
}

#[derive(Debug)]
pub enum Statement {
    Return(TypedExpression),
    Expression(TypedExpression),
    Null,
    Break { loop_id: String },
    Continue { loop_id: String },
    While { loop_id: String, condition: TypedExpression, body: Box<Statement> },
    DoWhile { loop_id: String, condition: TypedExpression, body: Box<Statement> },
    For {
        loop_id: String,
        init: ForInit,
        condition: Option<TypedExpression>,
        post: Option<TypedExpression>,
        body: Box<Statement>,
    },
    CompoundStatement(Block),
    IfStatement {
        condition: TypedExpression,
        then_branch: Box<Statement>,
        else_branch: Option<Box<Statement>>,
    },
    SwitchStatement {
        switch_id: String,
        condition: TypedExpression,
        body: Box<Statement>,
        arms: Vec<(String, Option<TypedExpression>)>,
    },
    GotoStatement(String),
    LabeledStatement { label: Label, statement: Box<Statement> },
}

#[derive(Debug)]
pub enum Label {
    Label(String),
    Case { case_id: String, value: TypedExpression },
    Default { default_id: String },
}

/// The name under which a label is emitted: the label's own name, or the id of a case or
/// default arm.
pub open spec fn label_name(label: Label) -> Seq<char> {
    match label {
        Label::Label(name) => name@,
        Label::Case { case_id, .. } => case_id@,
        Label::Default { default_id } => default_id@,
    }
}

impl Label {
    pub fn get_name(&self) -> (name: String)
        ensures
            name@ == label_name(*self),
    {
        match self {
            Label::Label(name) => copy_string(name),
            Label::Case { case_id, .. } => copy_string(case_id),
            Label::Default { default_id } => copy_string(default_id),
        }
    }

    pub fn get_case_value(&self) -> (value: Option<&TypedExpression>)
        ensures
            value == (match *self {
                Label::Case { value, .. } => Some(&value),
                _ => None,
            }),
    {
        match self {
            Label::Case { value, .. } => Some(value),
            _ => None,
        }
    }
}

#[derive(Debug)]
pub enum ForInit {
    InitDeclaration(VarDeclaration),
    InitExpression(Option<TypedExpression>),
}

/// An expression together with its type (`Undefined` until the type checker has run).
#[derive(Debug)]
pub struct TypedExpression(pub Expression, pub Type);

impl TypedExpression {
    pub fn new(expr: Expression) -> (t: Self)
        ensures
            t.0 == expr,
            t.1 == Type::Undefined,
    {
        TypedExpression(expr, Type::Undefined)
    }

    pub fn with_type(expr: Expression, c_type: Type) -> (t: Self)
        ensures
            t.0 == expr,
            t.1 == c_type,
    {
        TypedExpression(expr, c_type)
    }

    pub fn get_type(&self) -> (t: Type)
        ensures
            same_type(t, self.1),
    {
        self.1.duplicate()
    }

    pub fn set_type(&mut self, c_type: Type)
        ensures
            final(self).0 == old(self).0,
            final(self).1 == c_type,
    {
        self.1 = c_type;
    }
}

/// Whether two expressions are copies of each other: the same structure, names, constants
/// and operators, with types that are the same types.
pub open spec fn same_expr(a: TypedExpression, b: TypedExpression) -> bool
    decreases a,
{
    &&& same_type(a.1, b.1)
    &&& match (a.0, b.0) {
        (Expression::IntegerConstant(x), Expression::IntegerConstant(y)) => x == y,
        (Expression::LongConstant(x), Expression::LongConstant(y)) => x == y,
        (Expression::Var(x), Expression::Var(y)) => x == y,
        (Expression::Cast { expr: x, target_type: tx }, Expression::Cast { expr: y, target_type: ty }) =>
            same_expr(*x, *y) && same_type(tx, ty),
        (Expression::FuncCall { name: nx, args: ax }, Expression::FuncCall { name: ny, args: ay }) => {
            &&& nx == ny
            &&& ax@.len() == ay@.len()
            &&& forall|i: int| #![trigger ax@[i]] 0 <= i < ax@.len() ==> same_expr(ax@[i], ay@[i])
        },
        (Expression::UnaryExpr(ox, x), Expression::UnaryExpr(oy, y)) => ox == oy && same_expr(*x, *y),
        (Expression::BinaryExpr(ox, lx, rx), Expression::BinaryExpr(oy, ly, ry)) => ox == oy && same_expr(*lx, *ly)
            && same_expr(*rx, *ry),
        (
            Expression::Assignment { left: lx, right: rx, is_postfix: px },
            Expression::Assignment { left: ly, right: ry, is_postfix: py },
        ) => px == py && same_expr(*lx, *ly) && same_expr(*rx, *ry),
        (
            Expression::ConditionalExpr { condition: cx, then_expr: tx, else_expr: ex },
            Expression::ConditionalExpr { condition: cy, then_expr: ty, else_expr: ey },
        ) => same_expr(*cx, *cy) && same_expr(*tx, *ty) && same_expr(*ex, *ey),
        _ => false,
    }
}

impl TypedExpression {
    /// A copy of this expression.
    #[verifier::loop_isolation(false)]
    pub fn duplicate(&self) -> (r: TypedExpression)
        ensures
            same_expr(*self, r),
        decreases self,
    {
        let t = self.1.duplicate();
        proof {
            crate::ast::lemma_same_type_symmetric(t, self.1);
        }
        let e = match &self.0 {
            Expression::IntegerConstant(v) => Expression::IntegerConstant(*v),
            Expression::LongConstant(v) => Expression::LongConstant(*v),
            Expression::Var(n) => Expression::Var(n.clone()),
            Expression::Cast { expr, target_type } => {
                let tt = target_type.duplicate();
                proof {
                    crate::ast::lemma_same_type_symmetric(tt, *target_type);
                }
                Expression::Cast { expr: Box::new(expr.duplicate()), target_type: tt }
            },
            Expression::FuncCall { name, args } => {
                let mut copies: Vec<TypedExpression> = Vec::new();
                let mut i: usize = 0;
                while i < args.len()
                    invariant
                        i <= args@.len(),
                        copies@.len() == i,
                        forall|j: int| 0 <= j < i ==> same_expr(#[trigger] args@[j], copies@[j]),
                    decreases args@.len() - i,
                {
                    proof {
                        vstd::std_specs::vec::axiom_vec_index_decreases(*args, i as int);
                    }
                    copies.push(args[i].duplicate());
                    i = i + 1;
                }
                Expression::FuncCall { name: name.clone(), args: copies }
            },
            Expression::UnaryExpr(op, inner) => Expression::UnaryExpr(*op, Box::new(inner.duplicate())),
            Expression::BinaryExpr(op, l, r) => Expression::BinaryExpr(*op, Box::new(l.duplicate()), Box::new(r.duplicate())),
            Expression::Assignment { left, right, is_postfix } => Expression::Assignment {
                left: Box::new(left.duplicate()),
                right: Box::new(right.duplicate()),
                is_postfix: *is_postfix,
            },
            Expression::ConditionalExpr { condition, then_expr, else_expr } => Expression::ConditionalExpr {
                condition: Box::new(condition.duplicate()),
                then_expr: Box::new(then_expr.duplicate()),
                else_expr: Box::new(else_expr.duplicate()),
            },
        };
        TypedExpression(e, t)
    }
}

/// An expression whose type is not yet known.
pub fn typed(expression: Expression) -> (t: TypedExpression)
    ensures
        t.0 == expression,
        t.1 == Type::Undefined,
{
    TypedExpression::new(expression)
}

#[derive(Debug)]
pub enum Expression {
    IntegerConstant(i32),
    LongConstant(i64),
    Cast { expr: Box<TypedExpression>, target_type: Type },
    Var(String),
    FuncCall { name: String, args: Vec<TypedExpression> },
    UnaryExpr(UnaryOp, Box<TypedExpression>),
    BinaryExpr(BinaryOp, Box<TypedExpression>, Box<TypedExpression>),
    Assignment { left: Box<TypedExpression>, right: Box<TypedExpression>, is_postfix: bool },
    ConditionalExpr {
        condition: Box<TypedExpression>,
        then_expr: Box<TypedExpression>,
        else_expr: Box<TypedExpression>,
    },
}

#[derive(Debug, Clone, Copy, PartialEq, Eq, Structural)]
pub enum UnaryOp {
    Negate,
    Complement,
    Not,
}

#[derive(Debug, Clone, Copy, PartialEq, Eq, Structural)]
pub enum BinaryOp {
    Add,
    Subtract,
    Multiply,
    Divide,
    Remainder,
    BitAnd,
    BitOr,
    BitXor,
    ShiftLeft,
    ShiftRight,
    LogicalAnd,
    LogicalOr,
    Equal,
    NotEqual,
    Greater,
    Less,
    GreaterEqual,
    LessEqual,
    Assign,
    AssignAdd,
    AssignSubtract,
    AssignMultiply,
    AssignDivide,
    AssignRemainder,
    AssignBitAnd,
    AssignBitOr,
    AssignBitXor,
    AssignShiftLeft,
    AssignShiftRight,
    Conditional,
}

#[derive(Debug, Clone, Copy, PartialEq, Eq, Structural)]
pub enum Associativity {
    Left,
    Right,
}

/// Assignments and the conditional operator group to the right; all other binary operators to
/// the left.
pub open spec fn spec_associativity(op: BinaryOp) -> Associativity {
    match op {
        BinaryOp::Assign | BinaryOp::AssignAdd | BinaryOp::AssignSubtract
        | BinaryOp::AssignMultiply | BinaryOp::AssignDivide | BinaryOp::AssignRemainder
        | BinaryOp::AssignBitAnd | BinaryOp::AssignBitOr | BinaryOp::AssignBitXor
        | BinaryOp::AssignShiftLeft | BinaryOp::AssignShiftRight
        | BinaryOp::Conditional => Associativity::Right,
        _ => Associativity::Left,
    }
}

impl Associativity {
    /// The associativity of a binary operator.
    pub fn of(op: &BinaryOp) -> (a: Associativity)
        ensures
            a == spec_associativity(*op),
    {
        match op {
            BinaryOp::Assign | BinaryOp::AssignAdd | BinaryOp::AssignSubtract
            | BinaryOp::AssignMultiply | BinaryOp::AssignDivide | BinaryOp::AssignRemainder
            | BinaryOp::AssignBitAnd | BinaryOp::AssignBitOr | BinaryOp::AssignBitXor
            | BinaryOp::AssignShiftLeft | BinaryOp::AssignShiftRight
            | BinaryOp::Conditional => Associativity::Right,
            _ => Associativity::Left,
        }
    }
}

/// 1 where a condition holds and 0 where it does not: the value C gives a comparison.
pub open spec fn truth(c: bool) -> int {
    if c { 1 } else { 0 }
}

/// What a binary C operator computes from two integer operands: the sum, difference,
/// product, quotient and remainder, the bitwise and, or and exclusive or, the shifts, and 1 or
/// 0 for the logical operators and the comparisons. Assignments and `?:` compute no value
/// from two operands alone.
pub open spec fn c_binary_value(op: BinaryOp, a: i64, b: i64) -> Option<int> {
    match op {
        BinaryOp::Add => Some(a + b),
        BinaryOp::Subtract => Some(a - b),
        BinaryOp::Multiply => Some(a * b),
        BinaryOp::Divide => Some(a / b),
        BinaryOp::Remainder => Some((a % b) as int),
        BinaryOp::BitAnd => Some((a & b) as int),
        BinaryOp::BitOr => Some((a | b) as int),
        BinaryOp::BitXor => Some((a ^ b) as int),
        BinaryOp::ShiftLeft => Some((a << b) as int),
        BinaryOp::ShiftRight => Some((a >> b) as int),
        BinaryOp::LogicalAnd => Some(truth(a != 0 && b != 0)),
        BinaryOp::LogicalOr => Some(truth(a != 0 || b != 0)),
        BinaryOp::Equal => Some(truth(a == b)),
        BinaryOp::NotEqual => Some(truth(a != b)),
        BinaryOp::Greater => Some(truth(a > b)),
        BinaryOp::Less => Some(truth(a < b)),
        BinaryOp::GreaterEqual => Some(truth(a >= b)),
        BinaryOp::LessEqual => Some(truth(a <= b)),
        _ => None,
    }
}

/// What a compound assignment `x op= y` stores in `x`, from the values of `x` and `y`.
pub open spec fn compound_value(op: BinaryOp, x: i64, y: i64) -> Option<int> {
    match op {
        BinaryOp::AssignAdd => Some(x + y),
        BinaryOp::AssignSubtract => Some(x - y),
        BinaryOp::AssignMultiply => Some(x * y),
        BinaryOp::AssignDivide => Some(x / y),
        BinaryOp::AssignRemainder => Some((x % y) as int),
        BinaryOp::AssignBitAnd => Some((x & y) as int),
        BinaryOp::AssignBitOr => Some((x | y) as int),
        BinaryOp::AssignBitXor => Some((x ^ y) as int),
        BinaryOp::AssignShiftLeft => Some((x << y) as int),
        BinaryOp::AssignShiftRight => Some((x >> y) as int),
        _ => None,
    }
}

/// What a unary C operator computes from an integer operand: the negation, the bitwise
/// complement, and 1 or 0 for the logical not.
pub open spec fn c_unary_value(op: UnaryOp, a: i64) -> int {
    match op {
        UnaryOp::Negate => -a,
        UnaryOp::Complement => (!a) as int,
        UnaryOp::Not => truth(a == 0),
    }
}

} // verus!
