use vstd::prelude::*;

use crate::ast::{
    Block, BlockItem, Declaration, ForInit, FunctionDeclaration, Label, Statement, Type,
    TypedExpression, VarDeclaration,
};
use crate::ast_view::{
    arms_view, decl_view, decls_view, func_decl_view, item_view, items_view, label_view, lemma_same_expr_view,
    lemma_same_type_view, names_view, opt_view, stmt_view, texpr_view, type_view, var_decl_view,
};
use crate::util::{copy_string, copy_strings, strings_view};

verus! {

broadcast use vstd::std_specs::vec::group_vec_axioms;

fn copy_type(t: &Type) -> (r: Type)
    ensures
        type_view(r) == type_view(*t),
{
    let r = t.duplicate();
    proof {
        lemma_same_type_view(r, *t);
    }
    r
}

fn copy_expr(e: &TypedExpression) -> (r: TypedExpression)
    ensures
        texpr_view(r) == texpr_view(*e),
{
    let r = e.duplicate();
    proof {
        lemma_same_expr_view(*e, r);
    }
    r
}

fn copy_opt_expr(e: &Option<TypedExpression>) -> (r: Option<TypedExpression>)
    ensures
        opt_view(r) == opt_view(*e),
{
    match e {
        Some(x) => Some(copy_expr(x)),
        None => None,
    }
}

fn copy_var_decl(d: &VarDeclaration) -> (r: VarDeclaration)
    ensures
        var_decl_view(r) == var_decl_view(*d),
{
    VarDeclaration {
        name: copy_string(&d.name),
        init_expr: copy_opt_expr(&d.init_expr),
        storage_class: d.storage_class,
        var_type: copy_type(&d.var_type),
    }
}

fn copy_label(l: &Label) -> (r: Label)
    ensures
        label_view(r) == label_view(*l),
{
    match l {
        Label::Label(n) => Label::Label(copy_string(n)),
        Label::Case { case_id, value } => Label::Case { case_id: copy_string(case_id), value: copy_expr(value) },
        Label::Default { default_id } => Label::Default { default_id: copy_string(default_id) },
    }
}

fn copy_arms(arms: &Vec<(String, Option<TypedExpression>)>) -> (r: Vec<(String, Option<TypedExpression>)>)
    ensures
        arms_view(r@) == arms_view(arms@),
{
    let mut r: Vec<(String, Option<TypedExpression>)> = Vec::new();
    let mut i: usize = 0;
    while i < arms.len()
        invariant
            i <= arms@.len(),
            r@.len() == i,
            forall|k: int| 0 <= k < i ==> (#[trigger] r@[k]).0@ == arms@[k].0@ && opt_view(r@[k].1) == opt_view(arms@[k].1),
        decreases arms@.len() - i,
    {
        let (n, e) = &arms[i];
        r.push((copy_string(n), copy_opt_expr(e)));
        i = i + 1;
    }
    assert(arms_view(r@) =~= arms_view(arms@));
    r
}

/// A copy of a statement, with the same view.
pub fn copy_stmt(s: &Statement) -> (r: Statement)
    ensures
        stmt_view(r) == stmt_view(*s),
    decreases s,
{
    match s {
        Statement::Return(e) => Statement::Return(copy_expr(e)),
        Statement::Expression(e) => Statement::Expression(copy_expr(e)),
        Statement::Null => Statement::Null,
        Statement::Break { loop_id } => Statement::Break { loop_id: copy_string(loop_id) },
        Statement::Continue { loop_id } => Statement::Continue { loop_id: copy_string(loop_id) },
        Statement::While { loop_id, condition, body } => Statement::While {
            loop_id: copy_string(loop_id),
            condition: copy_expr(condition),
            body: Box::new(copy_stmt(body)),
        },
        Statement::DoWhile { loop_id, condition, body } => Statement::DoWhile {
            loop_id: copy_string(loop_id),
            condition: copy_expr(condition),
            body: Box::new(copy_stmt(body)),
        },
        Statement::For { loop_id, init, condition, post, body } => {
            let init2 = match init {
                ForInit::InitDeclaration(d) => ForInit::InitDeclaration(copy_var_decl(d)),
                ForInit::InitExpression(e) => ForInit::InitExpression(copy_opt_expr(e)),
            };
            Statement::For {
                loop_id: copy_string(loop_id),
                init: init2,
                condition: copy_opt_expr(condition),
                post: copy_opt_expr(post),
                body: Box::new(copy_stmt(body)),
            }
        },
        Statement::CompoundStatement(b) => Statement::CompoundStatement(Block { items: copy_items(&b.items) }),
        Statement::IfStatement { condition, then_branch, else_branch } => {
            let e2 = match else_branch {
                Some(e) => Some(Box::new(copy_stmt(e))),
                None => None,
            };
            Statement::IfStatement { condition: copy_expr(condition), then_branch: Box::new(copy_stmt(then_branch)), else_branch: e2 }
        },
        Statement::SwitchStatement { switch_id, condition, body, arms } => Statement::SwitchStatement {
            switch_id: copy_string(switch_id),
            condition: copy_expr(condition),
            body: Box::new(copy_stmt(body)),
            arms: copy_arms(arms),
        },
        Statement::GotoStatement(l) => Statement::GotoStatement(copy_string(l)),
        Statement::LabeledStatement { label, statement } => Statement::LabeledStatement {
            label: copy_label(label),
            statement: Box::new(copy_stmt(statement)),
        },
    }
}

fn copy_items(items: &Vec<BlockItem>) -> (r: Vec<BlockItem>)
    ensures
        items_view(r@) == items_view(items@),
    decreases items,
{
    let mut r: Vec<BlockItem> = Vec::new();
    let mut i: usize = 0;
    assert(items@.subrange(0, 0) =~= Seq::<BlockItem>::empty());
    while i < items.len()
        invariant
            i <= items@.len(),
            items_view(r@) == items_view(items@.subrange(0, i as int)),
        decreases items@.len() - i,
    {
        proof {
            vstd::std_specs::vec::axiom_vec_index_decreases(*items, i as int);
        }
        let x = copy_item(&items[i]);
        let ghost prev = r@;
        r.push(x);
        proof {
            let sub = items@.subrange(0, i as int + 1);
            assert(sub.drop_last() =~= items@.subrange(0, i as int));
            assert(r@.drop_last() =~= prev);
        }
        i = i + 1;
    }
    assert(items@.subrange(0, items@.len() as int) =~= items@);
    r
}

fn copy_item(item: &BlockItem) -> (r: BlockItem)
    ensures
        item_view(r) == item_view(*item),
    decreases item,
{
    match item {
        BlockItem::VarDeclaration(d) => BlockItem::VarDeclaration(copy_var_decl(d)),
        BlockItem::FunctionDeclaration(f) => BlockItem::FunctionDeclaration(copy_function(f)),
        BlockItem::Statement(s) => BlockItem::Statement(copy_stmt(s)),
    }
}

fn copy_function(f: &FunctionDeclaration) -> (r: FunctionDeclaration)
    ensures
        func_decl_view(r) == func_decl_view(*f),
    decreases f,
{
    let params = copy_strings(&f.parameters);
    assert(names_view(params@) == strings_view(params@));
    assert(names_view(f.parameters@) == strings_view(f.parameters@));
    let body = match &f.body {
        Some(b) => Some(Block { items: copy_items(&b.items) }),
        None => None,
    };
    FunctionDeclaration {
        name: copy_string(&f.name),
        parameters: params,
        body,
        storage_class: f.storage_class,
        func_type: copy_type(&f.func_type),
    }
}

/// A copy of a declaration, with the same view.
pub fn copy_decl(d: &Declaration) -> (r: Declaration)
    ensures
        decl_view(r) == decl_view(*d),
{
    match d {
        Declaration::FunctionDecl(f) => Declaration::FunctionDecl(copy_function(f)),
        Declaration::VarDecl(v) => Declaration::VarDecl(copy_var_decl(v)),
    }
}

/// The declarations `done`, then `kept`, then `rest`: a program put back together after a
/// pass stopped at `kept`.
pub fn restore_decls(done: Vec<Declaration>, kept: Declaration, rest: Vec<Declaration>) -> (r: Vec<Declaration>)
    ensures
        r@ == done@.push(kept) + rest@,
        decls_view(r@) == decls_view(done@).push(decl_view(kept)) + decls_view(rest@),
{
    let mut r = done;
    let mut rest = rest;
    let ghost rest0 = rest@;
    r.push(kept);
    r.append(&mut rest);
    assert(decls_view(r@) =~= decls_view(done@).push(decl_view(kept)) + decls_view(rest0));
    r
}

} // verus!
