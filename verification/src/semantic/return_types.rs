use vstd::prelude::*;

use crate::common::symbol_table::IdentAttrs;
use crate::ast_view::{DeclView, FuncDeclView, ItemView, StmtView, TypeView};
use crate::semantic::type_checker::{return_type, type_body, type_decls, type_function, type_item, type_items, type_stmt, TState};

verus! {

/// Every `return` of a statement (outside the functions declared in it) returns a value of
/// type `rt`; the functions declared in it return values of their own return types.
pub open spec fn stmt_returns(s: StmtView, rt: TypeView) -> bool
    decreases s, 0nat,
{
    match s {
        StmtView::Return(e) => e.t == rt,
        StmtView::While(_, _, b) => stmt_returns(*b, rt),
        StmtView::DoWhile(_, _, b) => stmt_returns(*b, rt),
        StmtView::For(_, _, _, _, b) => stmt_returns(*b, rt),
        StmtView::Compound(items) => items_return(items, rt),
        StmtView::If(_, t, e) => stmt_returns(*t, rt) && match e {
            Some(x) => stmt_returns(*x, rt),
            None => true,
        },
        StmtView::Switch(_, _, b, _) => stmt_returns(*b, rt),
        StmtView::Labeled(_, b) => stmt_returns(*b, rt),
        _ => true,
    }
}

/// `stmt_returns` for each item of a block.
pub open spec fn items_return(items: Seq<ItemView>, rt: TypeView) -> bool
    decreases items, 1nat,
{
    if items.len() == 0 {
        true
    } else {
        items_return(items.drop_last(), rt) && item_returns(items.last(), rt)
    }
}

/// `stmt_returns` for one item of a block.
pub open spec fn item_returns(item: ItemView, rt: TypeView) -> bool
    decreases item, 0nat,
{
    match item {
        ItemView::Var(_) => true,
        ItemView::Func(f) => func_returns(f),
        ItemView::Stmt(x) => stmt_returns(x, rt),
    }
}

/// Every `return` in the body of a function returns a value of the function's return type.
pub open spec fn func_returns(f: FuncDeclView) -> bool
    decreases f.body, 1nat,
{
    match f.body {
        None => true,
        Some(items) => match f.t {
            TypeView::Function { ret, .. } => items_return(items, *ret),
            _ => true,
        },
    }
}

/// The function being checked, if any, returns `rt`.
pub open spec fn returns_into(cur: Option<TypeView>, rt: TypeView) -> bool {
    match return_type(cur) {
        Ok(r) => r == rt,
        Err(_) => true,
    }
}

proof fn lemma_stmt(st: TState, s: StmtView, rt: TypeView)
    requires
        returns_into(st.cur, rt),
        type_stmt(st, s) is Ok,
    ensures
        stmt_returns(type_stmt(st, s)->Ok_0.1, rt),
        type_stmt(st, s)->Ok_0.0.cur == st.cur || type_stmt(st, s)->Ok_0.0.cur is None,
    decreases s, 0nat,
{
    match s {
        StmtView::While(_, _, b) => lemma_stmt(st, *b, rt),
        StmtView::DoWhile(_, _, b) => lemma_stmt(st, *b, rt),
        StmtView::For(_, _, _, _, b) => lemma_stmt(st, *b, rt),
        StmtView::Compound(items) => lemma_items(st, items, rt),
        StmtView::If(_, t, e) => {
            lemma_stmt(st, *t, rt);
            match e {
                Some(x) => {
                    let st1 = type_stmt(st, *t)->Ok_0.0;
                    lemma_stmt(st1, *x, rt);
                },
                None => {},
            }
        },
        StmtView::Switch(_, _, b, _) => lemma_stmt(st, *b, rt),
        StmtView::Labeled(_, b) => lemma_stmt(st, *b, rt),
        _ => {},
    }
}

proof fn lemma_items(st: TState, items: Seq<ItemView>, rt: TypeView)
    requires
        returns_into(st.cur, rt),
        type_items(st, items) is Ok,
    ensures
        items_return(type_items(st, items)->Ok_0.1, rt),
        type_items(st, items)->Ok_0.0.cur == st.cur || type_items(st, items)->Ok_0.0.cur is None,
    decreases items, 1nat,
{
    if items.len() > 0 {
        lemma_items(st, items.drop_last(), rt);
        let (st1, prefix) = type_items(st, items.drop_last())->Ok_0;
        lemma_item(st1, items.last(), rt);
        let out = type_items(st, items)->Ok_0.1;
        assert(out.drop_last() =~= prefix);
    }
}

proof fn lemma_item(st: TState, item: ItemView, rt: TypeView)
    requires
        returns_into(st.cur, rt),
        type_item(st, item) is Ok,
    ensures
        item_returns(type_item(st, item)->Ok_0.1, rt),
        type_item(st, item)->Ok_0.0.cur == st.cur || type_item(st, item)->Ok_0.0.cur is None,
    decreases item, 0nat,
{
    match item {
        ItemView::Var(_) => {},
        ItemView::Func(f) => lemma_function(st, f),
        ItemView::Stmt(x) => lemma_stmt(st, x, rt),
    }
}

proof fn lemma_function(st: TState, f: FuncDeclView)
    requires
        type_function(st, f) is Ok,
    ensures
        func_returns(type_function(st, f)->Ok_0.1),
        type_function(st, f)->Ok_0.0.cur == st.cur || type_function(st, f)->Ok_0.0.cur is None,
    decreases f.body, 2nat,
{
    if st.table.contains_key(f.name) {
        match st.table[f.name] {
            (TypeView::Function { ret: ro, params: po }, IdentAttrs::Function { is_defined, is_global }) => {
                if f.body is Some {
                    let t = st.table.insert(f.name, (st.table[f.name].0, IdentAttrs::Function { is_defined: true, is_global }));
                    if type_body(t, f, po) is Ok {
                        lemma_body(t, f, po);
                    }
                }
            },
            _ => {},
        }
    } else if f.body is Some {
        match f.t {
            TypeView::Function { params, .. } => {
                let t1 = st.table.insert(
                    f.name,
                    (f.t, IdentAttrs::Function {
                        is_defined: true,
                        is_global: f.storage != Some(crate::ast::StorageClass::Static),
                    }),
                );
                lemma_body(t1, f, params);
            },
            _ => {},
        }
    }
}

proof fn lemma_body(table: crate::semantic::type_checker::TypeTable, f: FuncDeclView, param_types: Seq<TypeView>)
    requires
        type_body(table, f, param_types) is Ok,
    ensures
        func_returns(type_body(table, f, param_types)->Ok_0.1),
        type_body(table, f, param_types)->Ok_0.0.cur is None,
    decreases f.body, 1nat,
{
    match f.body {
        None => {},
        Some(items) => match f.t {
            TypeView::Function { ret, .. } => {
                let st = TState { table: crate::semantic::type_checker::enter_params(table, f.params, param_types), cur: Some(f.t) };
                lemma_items(st, items, *ret);
            },
            _ => {},
        },
    }
}

/// Law: after type checking, the expression of every `return` statement has the return type
/// of the function it stands in; where the checked expression had another type, a conversion
/// to the return type was put around it.
pub proof fn law_returns_have_function_type(st: TState, ds: Seq<DeclView>)
    requires
        st.cur is None,
        type_decls(st, ds) is Ok,
    ensures
        type_decls(st, ds)->Ok_0.0.cur is None,
        type_decls(st, ds)->Ok_0.1.len() == ds.len(),
        forall|i: int|
            #![trigger type_decls(st, ds)->Ok_0.1[i]]
            0 <= i < ds.len() ==> (type_decls(st, ds)->Ok_0.1[i] matches DeclView::Func(f) ==> func_returns(f)),
    decreases ds.len(),
{
    if ds.len() > 0 {
        law_returns_have_function_type(st, ds.drop_last());
        let (st1, prefix) = type_decls(st, ds.drop_last())->Ok_0;
        match ds.last() {
            DeclView::Func(f) => lemma_function(st1, f),
            DeclView::Var(_) => {},
        }
        let out = type_decls(st, ds)->Ok_0.1;
        assert forall|i: int|
            #![trigger out[i]]
            0 <= i < ds.len() implies (out[i] matches DeclView::Func(f) ==> func_returns(f)) by {
            if i < ds.len() - 1 {
                assert(out[i] == prefix[i]);
            }
        }
    }
}

} // verus!
