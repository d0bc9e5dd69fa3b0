use vstd::prelude::*;

use super::ast::{
    BinaryOperator, FunctionView, InstructionView, StaticVariableView, TopLevelView, UnaryOperator,
    ValueView,
};
use crate::ast::{
    c_binary_value, c_unary_value, truth,
    Declaration, label_name, same_type, BinaryOp, BlockItem, Expression, ForInit, FunctionDeclaration,
    Statement, StorageClass, Type, TypedExpression, UnaryOp, VarDeclaration,
};
use crate::common::symbol_table::{IdentAttrs, InitValue, InitialValue, SymbolTableEntry};
use crate::util::strings_view;
use crate::semantic::name_generator::{gen_next, GenView};

verus! {

broadcast use vstd::std_specs::vec::group_vec_axioms;

/// The state the emitter threads through: its two name generators and what the symbol table
/// holds (attributes exactly, types up to `same_type`).
pub struct EmitView {
    pub labels: GenView,
    pub tmps: GenView,
    pub attrs: Map<Seq<char>, IdentAttrs>,
    pub types: Map<Seq<char>, Type>,
}

/// The code emitted for an expression, the value that holds its result, and the state after.
pub struct ExprOut {
    pub st: EmitView,
    pub code: Seq<InstructionView>,
    pub value: ValueView,
}

/// The code emitted for a statement or a list of block items, and the state after. When `ok`
/// is false the emission stopped with an error, `st` is the state at that point and `missing`
/// the function that the symbol table did not know.
pub struct StmtOut {
    pub st: EmitView,
    pub code: Seq<InstructionView>,
    pub ok: bool,
    pub missing: Seq<char>,
}

/// A successful emission.
pub open spec fn done(st: EmitView, code: Seq<InstructionView>) -> StmtOut {
    StmtOut { st, code, ok: true, missing: Seq::empty() }
}

/// An emission that stopped in state `st` because function `name` is not in the symbol table.
pub open spec fn fail(st: EmitView, name: Seq<char>) -> StmtOut {
    StmtOut { st, code: Seq::empty(), ok: false, missing: name }
}

/// A fresh label made from `prefix`.
pub open spec fn spec_make_label(st: EmitView, prefix: Seq<char>) -> (EmitView, Seq<char>) {
    let (g, n) = gen_next(st.labels, prefix);
    (EmitView { labels: g, tmps: st.tmps, attrs: st.attrs, types: st.types }, n)
}

/// A fresh temporary of type `t`, recorded in the symbol table as a local.
pub open spec fn spec_make_temp(st: EmitView, t: Type) -> (EmitView, Seq<char>) {
    let (g, n) = gen_next(st.tmps, Seq::empty());
    (
        EmitView {
            labels: st.labels,
            tmps: g,
            attrs: st.attrs.insert(n, IdentAttrs::Local),
            types: st.types.insert(n, t),
        },
        n,
    )
}

pub open spec fn spec_unary_op(op: UnaryOp) -> UnaryOperator {
    match op {
        UnaryOp::Negate => UnaryOperator::Negate,
        UnaryOp::Complement => UnaryOperator::Complement,
        UnaryOp::Not => UnaryOperator::Not,
    }
}

/// What a three-address unary operator computes from an integer operand.
pub open spec fn tacky_unary_value(op: UnaryOperator, a: i64) -> int {
    match op {
        UnaryOperator::Negate => -a,
        UnaryOperator::Complement => (!a) as int,
        UnaryOperator::Not => truth(a == 0),
    }
}

/// Law: the three-address operator emitted for a unary C operator computes the same value:
/// `-` negates, `~` complements, `!` gives 1 exactly for zero.
pub proof fn law_unary_operator_meaning(op: UnaryOp, a: i64)
    ensures
        tacky_unary_value(spec_unary_op(op), a) == c_unary_value(op, a),
{
}

/// The three-address operator of a binary operator that is neither an assignment nor the
/// conditional operator.
pub open spec fn spec_binary_op(op: BinaryOp) -> BinaryOperator {
    match op {
        BinaryOp::Add => BinaryOperator::Add,
        BinaryOp::Subtract => BinaryOperator::Subtract,
        BinaryOp::Multiply => BinaryOperator::Multiply,
        BinaryOp::Divide => BinaryOperator::Divide,
        BinaryOp::Remainder => BinaryOperator::Remainder,
        BinaryOp::BitAnd => BinaryOperator::BitAnd,
        BinaryOp::BitOr => BinaryOperator::BitOr,
        BinaryOp::BitXor => BinaryOperator::BitXor,
        BinaryOp::ShiftLeft => BinaryOperator::ShiftLeft,
        BinaryOp::ShiftRight => BinaryOperator::ShiftRight,
        BinaryOp::LogicalAnd => BinaryOperator::LogicalAnd,
        BinaryOp::LogicalOr => BinaryOperator::LogicalOr,
        BinaryOp::Equal => BinaryOperator::Equal,
        BinaryOp::NotEqual => BinaryOperator::NotEqual,
        BinaryOp::Greater => BinaryOperator::Greater,
        BinaryOp::Less => BinaryOperator::Less,
        BinaryOp::GreaterEqual => BinaryOperator::GreaterEqual,
        _ => BinaryOperator::LessEqual,
    }
}

/// What a three-address binary operator computes from two integer operands.
pub open spec fn tacky_binary_value(op: BinaryOperator, a: i64, b: i64) -> int {
    match op {
        BinaryOperator::Add => a + b,
        BinaryOperator::Subtract => a - b,
        BinaryOperator::Multiply => a * b,
        BinaryOperator::Divide => a / b,
        BinaryOperator::Remainder => (a % b) as int,
        BinaryOperator::BitAnd => (a & b) as int,
        BinaryOperator::BitOr => (a | b) as int,
        BinaryOperator::BitXor => (a ^ b) as int,
        BinaryOperator::ShiftLeft => (a << b) as int,
        BinaryOperator::ShiftRight => (a >> b) as int,
        BinaryOperator::LogicalAnd => truth(a != 0 && b != 0),
        BinaryOperator::LogicalOr => truth(a != 0 || b != 0),
        BinaryOperator::Equal => truth(a == b),
        BinaryOperator::NotEqual => truth(a != b),
        BinaryOperator::Greater => truth(a > b),
        BinaryOperator::Less => truth(a < b),
        BinaryOperator::GreaterEqual => truth(a >= b),
        BinaryOperator::LessEqual => truth(a <= b),
    }
}

/// Law: the three-address operator emitted for a C binary operator computes the same value
/// from the same operands: `%` gives the remainder, `/` the quotient, `>` the comparison `>`,
/// and so on for every operator that has a three-address counterpart.
pub proof fn law_binary_operator_meaning(op: BinaryOp, a: i64, b: i64)
    requires
        is_plain_binary_op(op),
    ensures
        c_binary_value(op, a, b) == Some(tacky_binary_value(spec_binary_op(op), a, b)),
{
}

/// Whether a binary operator has a three-address counterpart (the parser turns assignments and
/// `?:` into their own expression forms).
pub open spec fn is_plain_binary_op(op: BinaryOp) -> bool {
    match op {
        BinaryOp::Assign | BinaryOp::AssignAdd | BinaryOp::AssignSubtract
        | BinaryOp::AssignMultiply | BinaryOp::AssignDivide | BinaryOp::AssignRemainder
        | BinaryOp::AssignBitAnd | BinaryOp::AssignBitOr | BinaryOp::AssignBitXor
        | BinaryOp::AssignShiftLeft | BinaryOp::AssignShiftRight | BinaryOp::Conditional => false,
        _ => true,
    }
}

/// An expression the emitter can translate: every binary operator in it is a plain one.
pub open spec fn emittable_expr(e: TypedExpression) -> bool
    decreases e,
{
    match e.0 {
        Expression::IntegerConstant(_) | Expression::LongConstant(_) | Expression::Var(_) => true,
        Expression::Cast { expr, .. } => emittable_expr(*expr),
        Expression::FuncCall { args, .. } => forall|i: int|
            #![trigger args@[i]]
            0 <= i < args@.len() ==> emittable_expr(args@[i]),
        Expression::UnaryExpr(_, inner) => emittable_expr(*inner),
        Expression::BinaryExpr(op, l, r) => is_plain_binary_op(op) && emittable_expr(*l)
            && emittable_expr(*r),
        Expression::Assignment { left, right, .. } => emittable_expr(*left) && emittable_expr(
            *right,
        ),
        Expression::ConditionalExpr { condition, then_expr, else_expr } => emittable_expr(
            *condition,
        ) && emittable_expr(*then_expr) && emittable_expr(*else_expr),
    }
}

pub open spec fn emittable_opt(e: Option<TypedExpression>) -> bool {
    match e {
        Some(e) => emittable_expr(e),
        None => true,
    }
}

pub open spec fn emittable_var_decl(d: VarDeclaration) -> bool {
    emittable_opt(d.init_expr)
}

/// A statement the emitter can translate: every expression in it is emittable.
pub open spec fn emittable_stmt(s: Statement) -> bool
    decreases s,
{
    match s {
        Statement::Return(e) | Statement::Expression(e) => emittable_expr(e),
        Statement::Null | Statement::Break { .. } | Statement::Continue { .. }
        | Statement::GotoStatement(_) => true,
        Statement::While { condition, body, .. } | Statement::DoWhile { condition, body, .. } =>
            emittable_expr(condition) && emittable_stmt(*body),
        Statement::For { init, condition, post, body, .. } => {
            &&& match init {
                ForInit::InitDeclaration(d) => emittable_var_decl(d),
                ForInit::InitExpression(e) => emittable_opt(e),
            }
            &&& emittable_opt(condition)
            &&& emittable_opt(post)
            &&& emittable_stmt(*body)
        },
        Statement::CompoundStatement(block) => forall|i: int|
            #![trigger block.items@[i]]
            0 <= i < block.items@.len() ==> emittable_item(block.items@[i]),
        Statement::IfStatement { condition, then_branch, else_branch } => {
            &&& emittable_expr(condition)
            &&& emittable_stmt(*then_branch)
            &&& match else_branch {
                Some(b) => emittable_stmt(*b),
                None => true,
            }
        },
        Statement::SwitchStatement { condition, body, arms, .. } => {
            &&& emittable_expr(condition)
            &&& emittable_stmt(*body)
            &&& forall|i: int| #![trigger arms@[i]] 0 <= i < arms@.len() ==> emittable_opt(arms@[i].1)
        },
        Statement::LabeledStatement { statement, .. } => emittable_stmt(*statement),
    }
}

pub open spec fn emittable_item(item: BlockItem) -> bool
    decreases item,
{
    match item {
        BlockItem::VarDeclaration(d) => emittable_var_decl(d),
        BlockItem::FunctionDeclaration(f) => emittable_func(f),
        BlockItem::Statement(s) => emittable_stmt(s),
    }
}

pub open spec fn emittable_func(f: FunctionDeclaration) -> bool
    decreases f,
{
    match f.body {
        Some(b) => forall|i: int|
            #![trigger b.items@[i]]
            0 <= i < b.items@.len() ==> emittable_item(b.items@[i]),
        None => true,
    }
}

pub open spec fn var(n: Seq<char>) -> ValueView {
    ValueView::Variable(n)
}

/// The code for an expression: operands first, left to right, then the operation into a fresh
/// temporary; `&&`, `||` and `?:` jump so that only the needed operands are evaluated.
#[verifier::opaque]
pub open spec fn emit_expr(st: EmitView, e: TypedExpression) -> ExprOut
    decreases e,
{
    let t = e.1;
    match e.0 {
        Expression::IntegerConstant(v) => ExprOut {
            st,
            code: Seq::empty(),
            value: ValueView::IntegerConstant(v),
        },
        Expression::LongConstant(v) => ExprOut {
            st,
            code: Seq::empty(),
            value: ValueView::LongConstant(v),
        },
        Expression::Var(name) => ExprOut { st, code: Seq::empty(), value: var(name@) },
        Expression::UnaryExpr(op, inner) => {
            let r = emit_expr(st, *inner);
            let (st2, dst) = spec_make_temp(r.st, t);
            ExprOut {
                st: st2,
                code: r.code.push(
                    InstructionView::Unary { op: spec_unary_op(op), src: r.value, dst: var(dst) },
                ),
                value: var(dst),
            }
        },
        Expression::BinaryExpr(op, left, right) => {
            if op == BinaryOp::LogicalAnd || op == BinaryOp::LogicalOr {
                let is_and = op == BinaryOp::LogicalAnd;
                let (st1, end_label) = spec_make_label(
                    st,
                    if is_and {
                        "and_end"@
                    } else {
                        "or_end"@
                    },
                );
                let (st2, jump_label) = spec_make_label(
                    st1,
                    if is_and {
                        "and_false"@
                    } else {
                        "or_true"@
                    },
                );
                let (st3, result) = spec_make_temp(st2, t);
                let l = emit_expr(st3, *left);
                let r = emit_expr(l.st, *right);
                let (jump1, jump2) = if is_and {
                    (
                        InstructionView::JumpIfZero { condition: l.value, target: jump_label },
                        InstructionView::JumpIfZero { condition: r.value, target: jump_label },
                    )
                } else {
                    (
                        InstructionView::JumpIfNotZero { condition: l.value, target: jump_label },
                        InstructionView::JumpIfNotZero { condition: r.value, target: jump_label },
                    )
                };
                let (first, second) = if is_and {
                    (1i32, 0i32)
                } else {
                    (0i32, 1i32)
                };
                ExprOut {
                    st: r.st,
                    code: l.code.push(jump1) + r.code.push(jump2) + seq![
                        InstructionView::Copy {
                            src: ValueView::IntegerConstant(first),
                            dst: var(result),
                        },
                        InstructionView::Jump { target: end_label },
                        InstructionView::Label(jump_label),
                        InstructionView::Copy {
                            src: ValueView::IntegerConstant(second),
                            dst: var(result),
                        },
                        InstructionView::Label(end_label),
                    ],
                    value: var(result),
                }
            } else {
                let l = emit_expr(st, *left);
                let r = emit_expr(l.st, *right);
                let (st2, dst) = spec_make_temp(r.st, t);
                ExprOut {
                    st: st2,
                    code: l.code + r.code.push(
                        InstructionView::Binary {
                            op: spec_binary_op(op),
                            src1: l.value,
                            src2: r.value,
                            dst: var(dst),
                        },
                    ),
                    value: var(dst),
                }
            }
        },
        Expression::Assignment { left, right, is_postfix } => {
            let r = emit_expr(st, *right);
            let l = emit_expr(r.st, *left);
            if !is_postfix {
                ExprOut {
                    st: l.st,
                    code: r.code + l.code.push(InstructionView::Copy { src: r.value, dst: l.value }),
                    value: l.value,
                }
            } else {
                let (st2, orig) = spec_make_temp(l.st, t);
                ExprOut {
                    st: st2,
                    code: r.code + l.code + seq![
                        InstructionView::Copy { src: l.value, dst: var(orig) },
                        InstructionView::Copy { src: r.value, dst: l.value },
                    ],
                    value: var(orig),
                }
            }
        },
        Expression::ConditionalExpr { condition, then_expr, else_expr } => {
            let (st1, end_label) = spec_make_label(st, "cond_end"@);
            let (st2, else_label) = spec_make_label(st1, "cond_else"@);
            let (st3, result) = spec_make_temp(st2, t);
            let c = emit_expr(st3, *condition);
            let th = emit_expr(c.st, *then_expr);
            let el = emit_expr(th.st, *else_expr);
            ExprOut {
                st: el.st,
                code: c.code.push(
                    InstructionView::JumpIfZero { condition: c.value, target: else_label },
                ) + th.code + seq![
                    InstructionView::Copy { src: th.value, dst: var(result) },
                    InstructionView::Jump { target: end_label },
                    InstructionView::Label(else_label),
                ] + el.code + seq![
                    InstructionView::Copy { src: el.value, dst: var(result) },
                    InstructionView::Label(end_label),
                ],
                value: var(result),
            }
        },
        Expression::FuncCall { name, args } => {
            let a = emit_args(st, args@);
            let (st2, dst) = spec_make_temp(a.st, t);
            ExprOut {
                st: st2,
                code: a.code.push(
                    InstructionView::FunctionCall { name: name@, arguments: a.values, dst: var(dst) },
                ),
                value: var(dst),
            }
        },
        Expression::Cast { expr, target_type } => {
            let r = emit_expr(st, *expr);
            if same_type(expr.1, target_type) {
                r
            } else {
                let (st2, dst) = spec_make_temp(r.st, target_type);
                let conv = if target_type is Long {
                    InstructionView::SignExtend { src: r.value, dst: var(dst) }
                } else {
                    InstructionView::Truncate { src: r.value, dst: var(dst) }
                };
                ExprOut { st: st2, code: r.code.push(conv), value: var(dst) }
            }
        },
    }
}

/// The code for a list of arguments, evaluated left to right.
pub struct ArgsOut {
    pub st: EmitView,
    pub code: Seq<InstructionView>,
    pub values: Seq<ValueView>,
}

#[verifier::opaque]
pub open spec fn emit_args(st: EmitView, args: Seq<TypedExpression>) -> ArgsOut
    decreases args,
{
    if args.len() == 0 {
        ArgsOut { st, code: Seq::empty(), values: Seq::empty() }
    } else {
        let a = emit_args(st, args.subrange(0, args.len() - 1));
        let r = emit_expr(a.st, args[args.len() - 1]);
        ArgsOut { st: r.st, code: a.code + r.code, values: a.values.push(r.value) }
    }
}

pub open spec fn jump_to(prefix: Seq<char>, id: Seq<char>) -> InstructionView {
    InstructionView::Jump { target: prefix + id }
}

pub open spec fn label_at(prefix: Seq<char>, id: Seq<char>) -> InstructionView {
    InstructionView::Label(prefix + id)
}

/// The code for a local variable declaration: static ones are not initialized here; others copy
/// their initializer, if any, into the variable.
pub open spec fn emit_var_decl(st: EmitView, d: VarDeclaration) -> StmtOut {
    if d.storage_class == Some(StorageClass::Static) {
        done(st, Seq::empty())
    } else {
        match d.init_expr {
            Some(e) => {
                let r = emit_expr(st, e);
                done(r.st, r.code.push(InstructionView::Copy { src: r.value, dst: var(d.name@) }))
            },
            None => done(st, Seq::empty()),
        }
    }
}

/// The code for an optional expression whose value is not used.
pub open spec fn emit_opt_expr(st: EmitView, e: Option<TypedExpression>) -> StmtOut {
    match e {
        Some(e) => {
            let r = emit_expr(st, e);
            done(r.st, r.code)
        },
        None => done(st, Seq::empty()),
    }
}

pub open spec fn emit_for_init(st: EmitView, init: ForInit) -> StmtOut {
    match init {
        ForInit::InitDeclaration(d) => emit_var_decl(st, d),
        ForInit::InitExpression(e) => emit_opt_expr(st, e),
    }
}

/// The dispatch of a switch: each case arm compares its value with the condition and jumps to
/// its label when they are equal; the default arm jumps unconditionally.
#[verifier::opaque]
pub open spec fn emit_arms(
    st: EmitView,
    condition: ValueView,
    arms: Seq<(String, Option<TypedExpression>)>,
) -> StmtOut
    decreases arms.len(),
{
    if arms.len() == 0 {
        done(st, Seq::empty())
    } else {
        let a = emit_arms(st, condition, arms.subrange(0, arms.len() - 1));
        let (label, expr) = arms[arms.len() - 1];
        match expr {
            Some(e) => {
                let r = emit_expr(a.st, e);
                let (st2, dst) = spec_make_temp(r.st, Type::Int);
                done(
                    st2,
                    a.code + r.code + seq![
                        InstructionView::Binary {
                            op: BinaryOperator::Equal,
                            src1: r.value,
                            src2: condition,
                            dst: var(dst),
                        },
                        InstructionView::JumpIfNotZero { condition: var(dst), target: label@ },
                    ],
                )
            },
            None => done(a.st, a.code.push(InstructionView::Jump { target: label@ })),
        }
    }
}

/// The code for a statement. It stops with an error when a function declared in a block is not
/// known as a function to the symbol table.
pub open spec fn emit_stmt(st: EmitView, s: Statement) -> StmtOut
    decreases s,
{
    match s {
        Statement::Return(e) => {
            let r = emit_expr(st, e);
            done(r.st, r.code.push(InstructionView::Return(r.value)))
        },
        Statement::Expression(e) => {
            let r = emit_expr(st, e);
            done(r.st, r.code)
        },
        Statement::Null => done(st, Seq::empty()),
        Statement::CompoundStatement(block) => emit_items(st, block.items@),
        Statement::IfStatement { condition, then_branch, else_branch } => {
            let (st1, end_label) = spec_make_label(st, "if_end"@);
            let c = emit_expr(st1, condition);
            match else_branch {
                Some(else_branch) => {
                    let (st2, else_label) = spec_make_label(c.st, "if_else"@);
                    let th = emit_stmt(st2, *then_branch);
                    if !th.ok {
                        th
                    } else {
                        let el = emit_stmt(th.st, *else_branch);
                        if !el.ok {
                            el
                        } else {
                            done(
                                el.st,
                                c.code.push(
                                    InstructionView::JumpIfZero { condition: c.value, target: else_label },
                                ) + th.code + seq![
                                    InstructionView::Jump { target: end_label },
                                    InstructionView::Label(else_label),
                                ] + el.code.push(InstructionView::Label(end_label)),
                            )
                        }
                    }
                },
                None => {
                    let th = emit_stmt(c.st, *then_branch);
                    if !th.ok {
                        th
                    } else {
                        done(
                            th.st,
                            c.code.push(
                                InstructionView::JumpIfZero { condition: c.value, target: end_label },
                            ) + th.code.push(InstructionView::Label(end_label)),
                        )
                    }
                },
            }
        },
        Statement::SwitchStatement { switch_id, condition, body, arms } => {
            let c = emit_expr(st, condition);
            let a = emit_arms(c.st, c.value, arms@);
            let b = emit_stmt(a.st, *body);
            if !b.ok {
                b
            } else {
                done(
                    b.st,
                    c.code + a.code.push(jump_to("break."@, switch_id@)) + b.code.push(
                        label_at("break."@, switch_id@),
                    ),
                )
            }
        },
        Statement::GotoStatement(label) => done(st, seq![InstructionView::Jump { target: label@ }]),
        Statement::LabeledStatement { label, statement } => {
            let b = emit_stmt(st, *statement);
            if !b.ok {
                b
            } else {
                done(b.st, seq![InstructionView::Label(label_name(label))] + b.code)
            }
        },
        Statement::Break { loop_id } => done(st, seq![jump_to("break."@, loop_id@)]),
        Statement::Continue { loop_id } => done(st, seq![jump_to("continue."@, loop_id@)]),
        Statement::DoWhile { loop_id, condition, body } => {
            let b = emit_stmt(st, *body);
            if !b.ok {
                b
            } else {
                let c = emit_expr(b.st, condition);
                done(
                    c.st,
                    seq![label_at("start."@, loop_id@)] + b.code.push(label_at("continue."@, loop_id@))
                        + c.code + seq![
                        InstructionView::JumpIfNotZero {
                            condition: c.value,
                            target: "start."@ + loop_id@,
                        },
                        label_at("break."@, loop_id@),
                    ],
                )
            }
        },
        Statement::While { loop_id, condition, body } => {
            let c = emit_expr(st, condition);
            let b = emit_stmt(c.st, *body);
            if !b.ok {
                b
            } else {
                done(
                    b.st,
                    seq![label_at("continue."@, loop_id@)] + c.code.push(
                        InstructionView::JumpIfZero { condition: c.value, target: "break."@ + loop_id@ },
                    ) + b.code + seq![jump_to("continue."@, loop_id@), label_at("break."@, loop_id@)],
                )
            }
        },
        Statement::For { loop_id, init, condition, post, body } => {
            let i = emit_for_init(st, init);
            let cnd = emit_for_condition(i.st, condition, loop_id@);
            let b = emit_stmt(cnd.st, *body);
            if !b.ok {
                b
            } else {
                let p = emit_opt_expr(b.st, post);
                done(
                    p.st,
                    i.code.push(label_at("start."@, loop_id@)) + cnd.code + b.code.push(
                        label_at("continue."@, loop_id@),
                    ) + p.code + seq![jump_to("start."@, loop_id@), label_at("break."@, loop_id@)],
                )
            }
        },
    }
}

/// The test of a `for` loop: leave the loop when the condition is zero; no code without a
/// condition.
pub open spec fn emit_for_condition(st: EmitView, condition: Option<TypedExpression>, loop_id: Seq<char>) -> StmtOut {
    match condition {
        Some(c) => {
            let r = emit_expr(st, c);
            done(
                r.st,
                r.code.push(InstructionView::JumpIfZero { condition: r.value, target: "break."@ + loop_id }),
            )
        },
        None => done(st, Seq::empty()),
    }
}

/// The code for the items of a block, in order.
pub open spec fn emit_items(st: EmitView, items: Seq<BlockItem>) -> StmtOut
    decreases items,
{
    if items.len() == 0 {
        done(st, Seq::empty())
    } else {
        let a = emit_items(st, items.subrange(0, items.len() - 1));
        if !a.ok {
            a
        } else {
            let b = emit_item(a.st, items[items.len() - 1]);
            if !b.ok {
                b
            } else {
                done(b.st, a.code + b.code)
            }
        }
    }
}

pub open spec fn emit_item(st: EmitView, item: BlockItem) -> StmtOut
    decreases item,
{
    match item {
        BlockItem::FunctionDeclaration(f) => emit_func_body(st, f),
        BlockItem::VarDeclaration(d) => emit_var_decl(st, d),
        BlockItem::Statement(s) => emit_stmt(st, s),
    }
}

/// The body of a function: its statements followed by `return 0`, or nothing for a declaration
/// without body. It stops with an error when the name is not known as a function to the
/// symbol table.
pub open spec fn emit_func_body(st: EmitView, f: FunctionDeclaration) -> StmtOut
    decreases f,
{
    let body = match f.body {
        Some(b) => {
            let o = emit_items(st, b.items@);
            if !o.ok {
                o
            } else {
                done(o.st, o.code.push(InstructionView::Return(ValueView::IntegerConstant(0))))
            }
        },
        None => done(st, Seq::empty()),
    };
    if !body.ok {
        body
    } else if body.st.attrs.contains_key(f.name@) && body.st.attrs[f.name@] is Function {
        body
    } else {
        fail(body.st, f.name@)
    }
}

/// Whether every function of a program that has a body can be translated.
pub open spec fn emittable_program(decls: Seq<Declaration>) -> bool {
    forall|i: int|
        #![trigger decls[i]]
        0 <= i < decls.len() ==> (decls[i] matches Declaration::FunctionDecl(f) ==> emittable_func(f))
}

/// The functions of a program after translation, and the state after them.
pub struct FunctionsOut {
    pub st: EmitView,
    pub functions: Seq<TopLevelView>,
}

/// Whether the attributes of a function say it is global.
pub open spec fn global_function(attrs: IdentAttrs) -> bool {
    match attrs {
        IdentAttrs::Function { is_global, .. } => is_global,
        _ => false,
    }
}

/// The translation of the functions with a body, in order. A function whose translation fails
/// is left out; the state still advances past it.
pub open spec fn emit_functions(st: EmitView, decls: Seq<Declaration>) -> FunctionsOut
    decreases decls.len(),
{
    if decls.len() == 0 {
        FunctionsOut { st, functions: Seq::empty() }
    } else {
        let a = emit_functions(st, decls.drop_last());
        match decls.last() {
            Declaration::FunctionDecl(f) => if f.body is Some {
                let o = emit_func_body(a.st, f);
                if o.ok {
                    FunctionsOut {
                        st: o.st,
                        functions: a.functions.push(
                            TopLevelView::Function(FunctionView {
                                name: f.name@,
                                parameters: strings_view(f.parameters@),
                                body: o.code,
                                is_global: global_function(o.st.attrs[f.name@]),
                            }),
                        ),
                    }
                } else {
                    FunctionsOut { st: o.st, functions: a.functions }
                }
            } else {
                a
            },
            Declaration::VarDecl(_) => a,
        }
    }
}

/// The initial value of a static variable in three-address code.
pub open spec fn static_initial_value(iv: InitialValue) -> ValueView {
    match iv {
        InitialValue::Initialized(InitValue::Int(i)) => ValueView::IntegerConstant(i),
        InitialValue::Initialized(InitValue::Long(l)) => ValueView::LongConstant(l),
        InitialValue::Tentative => ValueView::IntegerConstant(0),
    }
}

/// The static variables the symbol table defines (those with an initial value, tentative or
/// not), in the order of its entries.
pub open spec fn static_vars(entries: Seq<(String, SymbolTableEntry)>) -> Seq<TopLevelView>
    decreases entries.len(),
{
    if entries.len() == 0 {
        Seq::empty()
    } else {
        let rest = static_vars(entries.drop_last());
        let (name, e) = entries.last();
        match e.attrs {
            IdentAttrs::Static { init_value: Some(iv), is_global } => rest.push(
                TopLevelView::StaticVariable(StaticVariableView {
                    name: name@,
                    is_global,
                    initial_value: static_initial_value(iv),
                    c_type: e.c_type,
                }),
            ),
            _ => rest,
        }
    }
}

/// Law: the code of `a op b` (for an operator other than `&&` and `||`) evaluates `a`, then
/// `b`, then one binary instruction whose first source is the value of `a`, whose second
/// source is the value of `b`, which computes `a op b`, and whose destination is the value of
/// the whole expression.
pub proof fn law_binary_emission(st: EmitView, op: BinaryOp, left: TypedExpression, right: TypedExpression, t: Type)
    requires
        is_plain_binary_op(op),
        op != BinaryOp::LogicalAnd,
        op != BinaryOp::LogicalOr,
    ensures
        ({
            let out = emit_expr(st, TypedExpression(Expression::BinaryExpr(op, Box::new(left), Box::new(right)), t));
            let l = emit_expr(st, left);
            let r = emit_expr(l.st, right);
            let n = out.code.len();
            &&& n == l.code.len() + r.code.len() + 1
            &&& out.code.subrange(0, l.code.len() as int) == l.code
            &&& out.code.subrange(l.code.len() as int, n - 1) == r.code
            &&& out.code[n - 1] matches InstructionView::Binary { op: o, src1, src2, dst }
                && src1 == l.value && src2 == r.value && dst == out.value
                && forall|a: i64, b: i64| #![trigger tacky_binary_value(o, a, b)]
                    c_binary_value(op, a, b) == Some(tacky_binary_value(o, a, b))
        }),
{
    reveal_with_fuel(emit_expr, 1);
    let out = emit_expr(st, TypedExpression(Expression::BinaryExpr(op, Box::new(left), Box::new(right)), t));
    let l = emit_expr(st, left);
    let r = emit_expr(l.st, right);
    let n = out.code.len();
    assert(out.code.subrange(0, l.code.len() as int) =~= l.code);
    assert(out.code.subrange(l.code.len() as int, n - 1) =~= r.code);
    assert forall|a: i64, b: i64| #![trigger tacky_binary_value(spec_binary_op(op), a, b)]
        c_binary_value(op, a, b) == Some(tacky_binary_value(spec_binary_op(op), a, b)) by {
        law_binary_operator_meaning(op, a, b);
    }
}

/// Law: the code of a unary expression evaluates its operand and then one unary instruction
/// from the operand's value into the value of the whole expression, computing what the C
/// operator computes.
pub proof fn law_unary_emission(st: EmitView, op: UnaryOp, inner: TypedExpression, t: Type)
    ensures
        ({
            let out = emit_expr(st, TypedExpression(Expression::UnaryExpr(op, Box::new(inner)), t));
            let r = emit_expr(st, inner);
            let n = out.code.len();
            &&& n == r.code.len() + 1
            &&& out.code.subrange(0, n - 1) == r.code
            &&& out.code[n - 1] matches InstructionView::Unary { op: o, src, dst }
                && src == r.value && dst == out.value
                && forall|a: i64| #![trigger tacky_unary_value(o, a)] tacky_unary_value(o, a) == c_unary_value(op, a)
        }),
{
    reveal_with_fuel(emit_expr, 1);
    let out = emit_expr(st, TypedExpression(Expression::UnaryExpr(op, Box::new(inner)), t));
    let r = emit_expr(st, inner);
    assert(out.code.subrange(0, out.code.len() - 1) =~= r.code);
    assert forall|a: i64| #![trigger tacky_unary_value(spec_unary_op(op), a)]
        tacky_unary_value(spec_unary_op(op), a) == c_unary_value(op, a) by {
        law_unary_operator_meaning(op, a);
    }
}

/// The size in bytes of a value of a scalar type.
pub open spec fn type_bytes(t: Type) -> int {
    match t {
        Type::Int => 4,
        Type::Long => 8,
        _ => 0,
    }
}

/// Law: a cast between the scalar types evaluates its operand and then, where the types
/// differ, converts into a fresh result: by sign extension exactly when the target is wider
/// than the operand, by truncation exactly when it is narrower. A cast to the operand's own
/// type adds no code.
pub proof fn law_cast_conversion(st: EmitView, inner: TypedExpression, target: Type, t: Type)
    requires
        inner.1 is Int || inner.1 is Long,
        target is Int || target is Long,
    ensures
        ({
            let out = emit_expr(st, TypedExpression(Expression::Cast { expr: Box::new(inner), target_type: target }, t));
            let r = emit_expr(st, inner);
            if type_bytes(inner.1) == type_bytes(target) {
                out == r
            } else {
                &&& out.code.len() == r.code.len() + 1
                &&& out.code.subrange(0, r.code.len() as int) == r.code
                &&& out.code.last() matches InstructionView::SignExtend { src, dst } ==> src == r.value && dst == out.value
                &&& out.code.last() matches InstructionView::Truncate { src, dst } ==> src == r.value && dst == out.value
                &&& (out.code.last() is SignExtend <==> type_bytes(target) > type_bytes(inner.1))
                &&& (out.code.last() is Truncate <==> type_bytes(target) < type_bytes(inner.1))
            }
        }),
{
    reveal_with_fuel(emit_expr, 1);
    let out = emit_expr(st, TypedExpression(Expression::Cast { expr: Box::new(inner), target_type: target }, t));
    let r = emit_expr(st, inner);
    if type_bytes(inner.1) != type_bytes(target) {
        assert(out.code.subrange(0, r.code.len() as int) =~= r.code);
    }
}

/// Whether a three-address jump is taken when its condition has value `v`: a jump on zero
/// when `v` is zero, a jump on non-zero when it is not, an unconditional jump always.
pub open spec fn jump_taken(i: InstructionView, v: int) -> bool {
    match i {
        InstructionView::JumpIfZero { .. } => v == 0,
        InstructionView::JumpIfNotZero { .. } => v != 0,
        InstructionView::Jump { .. } => true,
        _ => false,
    }
}

/// The label a jump goes to, or that a label instruction marks.
pub open spec fn label_of(i: InstructionView) -> Option<Seq<char>> {
    match i {
        InstructionView::JumpIfZero { target, .. } => Some(target),
        InstructionView::JumpIfNotZero { target, .. } => Some(target),
        InstructionView::Jump { target } => Some(target),
        InstructionView::Label(l) => Some(l),
        _ => None,
    }
}

/// The integer constant a copy stores, if it stores one.
pub open spec fn copied_constant(i: InstructionView) -> Option<int> {
    match i {
        InstructionView::Copy { src: ValueView::IntegerConstant(c), .. } => Some(c as int),
        _ => None,
    }
}

/// Law: the code of `a && b` and of `a || b` jumps after each operand on a condition to one
/// label, and ends: store one constant in the result, jump to the end, that label, store
/// another constant, the end label. Whatever values the operands have, the constant stored
/// on the path taken (the second where a jump is taken, the first otherwise) is the value of
/// the logical operator: 1 for `a && b` exactly when both are non-zero, 1 for `a || b`
/// exactly when one is.
pub proof fn law_short_circuit(st: EmitView, op: BinaryOp, left: TypedExpression, right: TypedExpression, t: Type)
    requires
        op == BinaryOp::LogicalAnd || op == BinaryOp::LogicalOr,
    ensures
        ({
            let out = emit_expr(st, TypedExpression(Expression::BinaryExpr(op, Box::new(left), Box::new(right)), t));
            let code = out.code;
            let n = code.len();
            exists|k: int|
                #![trigger code[k]]
                {
                    &&& 0 <= k < n - 6
                    &&& label_of(code[k]) == label_of(code[n - 3])
                    &&& label_of(code[n - 6]) == label_of(code[n - 3])
                    &&& code[n - 3] is Label
                    &&& code[n - 4] is Jump && label_of(code[n - 4]) == label_of(code[n - 1])
                    &&& code[n - 1] is Label
                    &&& code[n - 5] matches InstructionView::Copy { dst, .. } && dst == out.value
                    &&& code[n - 2] matches InstructionView::Copy { dst, .. } && dst == out.value
                    &&& forall|a: i64, b: i64|
                        #![trigger c_binary_value(op, a, b)]
                        Some(
                            if jump_taken(code[k], a as int) || jump_taken(code[n - 6], b as int) {
                                copied_constant(code[n - 2])->0
                            } else {
                                copied_constant(code[n - 5])->0
                            },
                        ) == c_binary_value(op, a, b)
                    &&& copied_constant(code[n - 2]) is Some && copied_constant(code[n - 5]) is Some
                    &&& (code[k] is JumpIfZero || code[k] is JumpIfNotZero)
                    &&& (code[n - 6] is JumpIfZero || code[n - 6] is JumpIfNotZero)
                }
        }),
{
    reveal_with_fuel(emit_expr, 1);
    let e = TypedExpression(Expression::BinaryExpr(op, Box::new(left), Box::new(right)), t);
    let is_and = op == BinaryOp::LogicalAnd;
    let (st1, end_label) = spec_make_label(st, if is_and { "and_end"@ } else { "or_end"@ });
    let (st2, jump_label) = spec_make_label(st1, if is_and { "and_false"@ } else { "or_true"@ });
    let (st3, result) = spec_make_temp(st2, t);
    let l = emit_expr(st3, left);
    let r = emit_expr(l.st, right);
    let out = emit_expr(st, e);
    let code = out.code;
    let n = code.len();
    let k = l.code.len() as int;
    let (jump1, jump2) = if is_and {
        (
            InstructionView::JumpIfZero { condition: l.value, target: jump_label },
            InstructionView::JumpIfZero { condition: r.value, target: jump_label },
        )
    } else {
        (
            InstructionView::JumpIfNotZero { condition: l.value, target: jump_label },
            InstructionView::JumpIfNotZero { condition: r.value, target: jump_label },
        )
    };
    let (first, second) = if is_and { (1i32, 0i32) } else { (0i32, 1i32) };
    let tail = seq![
        InstructionView::Copy { src: ValueView::IntegerConstant(first), dst: var(result) },
        InstructionView::Jump { target: end_label },
        InstructionView::Label(jump_label),
        InstructionView::Copy { src: ValueView::IntegerConstant(second), dst: var(result) },
        InstructionView::Label(end_label),
    ];
    let a1 = l.code.push(jump1);
    let b1 = r.code.push(jump2);
    assert(code == a1 + b1 + tail);
    assert(out.value == var(result));
    assert(n == l.code.len() + r.code.len() + 7);
    assert(code[k] == jump1) by {
        assert((a1 + b1 + tail)[k] == a1[k]);
    }
    assert(code[n - 6] == jump2) by {
        assert((a1 + b1 + tail)[n - 6] == (a1 + b1)[n - 6]);
        assert((a1 + b1)[n - 6] == b1[n - 6 - a1.len()]);
    }
    assert(code[n - 5] == tail[0]);
    assert(code[n - 4] == tail[1]);
    assert(code[n - 3] == tail[2]);
    assert(code[n - 2] == tail[3]);
    assert(code[n - 1] == tail[4]);
    assert forall|a: i64, b: i64|
        #![trigger c_binary_value(op, a, b)]
        Some(
            if jump_taken(code[k], a as int) || jump_taken(code[n - 6], b as int) {
                copied_constant(code[n - 2])->0
            } else {
                copied_constant(code[n - 5])->0
            },
        ) == c_binary_value(op, a, b) by {}
}

} // verus!
