use vstd::prelude::*;

use super::spec::{
    emittable_expr, emittable_func, emittable_item, emittable_opt, emittable_program, emittable_stmt,
    emittable_var_decl, is_plain_binary_op,
};
use crate::ast::{
    BinaryOp, BlockItem, Declaration, Expression, ForInit, FunctionDeclaration, Program, Statement,
    TypedExpression, VarDeclaration,
};

verus! {

broadcast use vstd::std_specs::vec::group_vec_axioms;

/// Whether a binary operator has a three-address counterpart.
fn plain_binary_op(op: BinaryOp) -> (b: bool)
    ensures
        b == is_plain_binary_op(op),
{
    match op {
        BinaryOp::Assign | BinaryOp::AssignAdd | BinaryOp::AssignSubtract | BinaryOp::AssignMultiply
        | BinaryOp::AssignDivide | BinaryOp::AssignRemainder | BinaryOp::AssignBitAnd
        | BinaryOp::AssignBitOr | BinaryOp::AssignBitXor | BinaryOp::AssignShiftLeft
        | BinaryOp::AssignShiftRight | BinaryOp::Conditional => false,
        _ => true,
    }
}

/// Whether the emitter can translate an expression.
#[verifier::loop_isolation(false)]
pub fn expr_emittable(e: &TypedExpression) -> (b: bool)
    ensures
        b == emittable_expr(*e),
    decreases *e,
{
    match &e.0 {
        Expression::IntegerConstant(_) | Expression::LongConstant(_) | Expression::Var(_) => true,
        Expression::Cast { expr, .. } => expr_emittable(expr),
        Expression::FuncCall { args, .. } => {
            let mut i: usize = 0;
            while i < args.len()
                invariant
                    i <= args@.len(),
                    forall|k: int| 0 <= k < i ==> emittable_expr(#[trigger] args@[k]),
                decreases args@.len() - i,
            {
                proof {
                    vstd::std_specs::vec::axiom_vec_index_decreases(*args, i as int);
                }
                if !expr_emittable(&args[i]) {
                    return false;
                }
                i = i + 1;
            }
            true
        },
        Expression::UnaryExpr(_, inner) => expr_emittable(inner),
        Expression::BinaryExpr(op, l, r) => plain_binary_op(*op) && expr_emittable(l) && expr_emittable(r),
        Expression::Assignment { left, right, .. } => expr_emittable(left) && expr_emittable(right),
        Expression::ConditionalExpr { condition, then_expr, else_expr } => expr_emittable(condition)
            && expr_emittable(then_expr) && expr_emittable(else_expr),
    }
}

fn opt_emittable(e: &Option<TypedExpression>) -> (b: bool)
    ensures
        b == emittable_opt(*e),
{
    match e {
        Some(x) => expr_emittable(x),
        None => true,
    }
}

fn var_decl_emittable(d: &VarDeclaration) -> (b: bool)
    ensures
        b == emittable_var_decl(*d),
{
    opt_emittable(&d.init_expr)
}

/// Whether the emitter can translate a statement.
#[verifier::loop_isolation(false)]
pub fn stmt_emittable(s: &Statement) -> (b: bool)
    ensures
        b == emittable_stmt(*s),
    decreases *s, 0nat,
{
    match s {
        Statement::Return(e) | Statement::Expression(e) => expr_emittable(e),
        Statement::Null | Statement::Break { .. } | Statement::Continue { .. } | Statement::GotoStatement(_) => true,
        Statement::While { condition, body, .. } | Statement::DoWhile { condition, body, .. } => expr_emittable(condition)
            && stmt_emittable(body),
        Statement::For { init, condition, post, body, .. } => {
            let init_ok = match init {
                ForInit::InitDeclaration(d) => var_decl_emittable(d),
                ForInit::InitExpression(e) => opt_emittable(e),
            };
            init_ok && opt_emittable(condition) && opt_emittable(post) && stmt_emittable(body)
        },
        Statement::CompoundStatement(block) => items_emittable(&block.items),
        Statement::IfStatement { condition, then_branch, else_branch } => {
            let else_ok = match else_branch {
                Some(b) => stmt_emittable(b),
                None => true,
            };
            expr_emittable(condition) && stmt_emittable(then_branch) && else_ok
        },
        Statement::SwitchStatement { condition, body, arms, .. } => {
            if !expr_emittable(condition) || !stmt_emittable(body) {
                return false;
            }
            let mut i: usize = 0;
            while i < arms.len()
                invariant
                    i <= arms@.len(),
                    forall|k: int| 0 <= k < i ==> emittable_opt((#[trigger] arms@[k]).1),
                decreases arms@.len() - i,
            {
                if !opt_emittable(&arms[i].1) {
                    return false;
                }
                i = i + 1;
            }
            true
        },
        Statement::LabeledStatement { statement, .. } => stmt_emittable(statement),
    }
}

fn items_emittable(items: &Vec<BlockItem>) -> (b: bool)
    ensures
        b == (forall|k: int| #![trigger items@[k]] 0 <= k < items@.len() ==> emittable_item(items@[k])),
    decreases *items, 1nat,
{
    let mut i: usize = 0;
    while i < items.len()
        invariant
            i <= items@.len(),
            forall|k: int| 0 <= k < i ==> emittable_item(#[trigger] items@[k]),
        decreases items@.len() - i,
    {
        proof {
            vstd::std_specs::vec::axiom_vec_index_decreases(*items, i as int);
        }
        if !item_emittable(&items[i]) {
            return false;
        }
        i = i + 1;
    }
    true
}

fn item_emittable(item: &BlockItem) -> (b: bool)
    ensures
        b == emittable_item(*item),
    decreases *item, 1nat,
{
    match item {
        BlockItem::VarDeclaration(d) => var_decl_emittable(d),
        BlockItem::FunctionDeclaration(f) => func_emittable(f),
        BlockItem::Statement(s) => stmt_emittable(s),
    }
}

fn func_emittable(f: &FunctionDeclaration) -> (b: bool)
    ensures
        b == emittable_func(*f),
    decreases *f, 1nat,
{
    match &f.body {
        Some(b) => items_emittable(&b.items),
        None => true,
    }
}

/// Whether the emitter can translate a program: every expression in it uses only operators
/// that have a three-address counterpart.
pub fn program_emittable(program: &Program) -> (b: bool)
    ensures
        b == emittable_program(program.decls@),
{
    let mut i: usize = 0;
    while i < program.decls.len()
        invariant
            i <= program.decls@.len(),
            forall|k: int|
                #![trigger program.decls@[k]]
                0 <= k < i ==> (program.decls@[k] matches Declaration::FunctionDecl(f) ==> emittable_func(f)),
        decreases program.decls@.len() - i,
    {
        match &program.decls[i] {
            Declaration::FunctionDecl(f) => {
                if !func_emittable(f) {
                    return false;
                }
            },
            Declaration::VarDecl(_) => {},
        }
        i = i + 1;
    }
    true
}

} // verus!
