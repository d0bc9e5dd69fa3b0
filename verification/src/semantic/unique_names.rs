use vstd::prelude::*;

use crate::ast_view::{DeclView, ForInitView, FuncDeclView, ItemView, StmtView, VarDeclView};
use crate::semantic::identifier_resolver::{
    declare, resolve_block, resolve_decls, resolve_function, resolve_item, resolve_items,
    resolve_params, resolve_stmt, resolve_var_decl, var_linkage, ResolverState,
};
use crate::semantic::name_generator::{format_name, law_format_name_injective, GenView, NameFormat};
use crate::semantic::scope::Linkage;

verus! {

/// The unique name a variable declaration introduces: its own, unless it is `extern`.
pub open spec fn var_names(v: VarDeclView) -> Seq<Seq<char>> {
    if var_linkage(v.storage) == Linkage::NoLinkage {
        seq![v.name]
    } else {
        Seq::empty()
    }
}

/// The name a `for` loop's initializer declares, if it declares one without linkage.
pub open spec fn for_init_names(init: ForInitView) -> Seq<Seq<char>> {
    match init {
        ForInitView::Decl(v) => var_names(v),
        ForInitView::Expr(_) => Seq::empty(),
    }
}

/// The names without linkage that a statement declares, nested ones included, in order.
pub open spec fn stmt_names(s: StmtView) -> Seq<Seq<char>>
    decreases s, 0nat,
{
    match s {
        StmtView::While(_, _, body) => stmt_names(*body),
        StmtView::DoWhile(_, _, body) => stmt_names(*body),
        StmtView::Switch(_, _, body, _) => stmt_names(*body),
        StmtView::Labeled(_, body) => stmt_names(*body),
        StmtView::For(_, init, _, _, body) => for_init_names(init) + stmt_names(*body),
        StmtView::If(_, t, e) => match e {
            Some(x) => stmt_names(*t) + stmt_names(*x),
            None => stmt_names(*t),
        },
        StmtView::Compound(items) => items_names(items),
        _ => Seq::empty(),
    }
}

/// The names without linkage that a block item declares.
pub open spec fn item_names(item: ItemView) -> Seq<Seq<char>>
    decreases item, 0nat,
{
    match item {
        ItemView::Var(v) => var_names(v),
        ItemView::Func(f) => function_names(f),
        ItemView::Stmt(s) => stmt_names(s),
    }
}

/// The names without linkage that the items of a block declare, in order.
pub open spec fn items_names(items: Seq<ItemView>) -> Seq<Seq<char>>
    decreases items, 1nat,
{
    if items.len() == 0 {
        Seq::empty()
    } else {
        items_names(items.drop_last()) + item_names(items.last())
    }
}

/// The names a function declaration declares: its parameters, then those of its body.
pub open spec fn function_names(f: FuncDeclView) -> Seq<Seq<char>>
    decreases f.body, 2nat,
{
    f.params + match f.body {
        Some(items) => items_names(items),
        None => Seq::empty(),
    }
}

/// The names without linkage that the declarations of a program declare, in order.
pub open spec fn decls_names(ds: Seq<DeclView>) -> Seq<Seq<char>>
    decreases ds.len(),
{
    if ds.len() == 0 {
        Seq::empty()
    } else {
        decls_names(ds.drop_last()) + match ds.last() {
            DeclView::Func(f) => function_names(f),
            DeclView::Var(v) => var_names(v),
        }
    }
}

/// Whether a generator has a counter for every base name.
pub open spec fn total(g: GenView) -> bool {
    forall|n: Seq<char>| #[trigger] g.counts.dom().contains(n)
}

/// Whether no counter of a generator has reached its limit.
pub open spec fn bounded(g: GenView) -> bool {
    forall|n: Seq<char>| #[trigger] g.counts[n] < usize::MAX
}

/// Whether `b` is `a` after some names were made: same format, no counter lower.
pub open spec fn grows(a: GenView, b: GenView) -> bool {
    &&& b.format == a.format
    &&& total(b)
    &&& forall|n: Seq<char>| a.counts[n] <= #[trigger] b.counts[n]
}

/// Whether `u` is a variable name made between the generator states `a` and `b`.
pub open spec fn made_between(a: GenView, b: GenView, u: Seq<char>) -> bool {
    exists|n: Seq<char>, c: nat| u == format_name(NameFormat::Var, n, c) && a.counts[n] <= c && c < b.counts[n]
}

/// Whether the names `us` are distinct and were all made between `a` and `b`.
pub open spec fn fresh_names(a: GenView, b: GenView, us: Seq<Seq<char>>) -> bool {
    &&& us.no_duplicates()
    &&& forall|i: int| 0 <= i < us.len() ==> made_between(a, b, #[trigger] us[i])
}

proof fn lemma_grows_trans(a: GenView, b: GenView, c: GenView)
    requires
        grows(a, b),
        grows(b, c),
    ensures
        grows(a, c),
{
    assert forall|n: Seq<char>| a.counts[n] <= #[trigger] c.counts[n] by {
        assert(a.counts[n] <= b.counts[n]);
    }
}

proof fn lemma_grows_refl(a: GenView)
    requires
        total(a),
    ensures
        grows(a, a),
{
}

proof fn lemma_fresh_empty(a: GenView, b: GenView)
    ensures
        fresh_names(a, b, Seq::empty()),
{
}

proof fn lemma_fresh_concat(a: GenView, b: GenView, c: GenView, x: Seq<Seq<char>>, y: Seq<Seq<char>>)
    requires
        grows(a, b),
        grows(b, c),
        fresh_names(a, b, x),
        fresh_names(b, c, y),
    ensures
        fresh_names(a, c, x + y),
{
    let z = x + y;
    assert forall|i: int| 0 <= i < z.len() implies made_between(a, c, #[trigger] z[i]) by {
        if i < x.len() {
            assert(made_between(a, b, x[i]));
            let (n, k) = choose|n: Seq<char>, k: nat| x[i] == format_name(NameFormat::Var, n, k) && a.counts[n] <= k && k < b.counts[n];
            assert(b.counts[n] <= c.counts[n]);
            assert(z[i] == format_name(NameFormat::Var, n, k) && a.counts[n] <= k && k < c.counts[n]);
        } else {
            let j = i - x.len();
            assert(z[i] == y[j]);
            assert(made_between(b, c, y[j]));
            let (n, k) = choose|n: Seq<char>, k: nat| y[j] == format_name(NameFormat::Var, n, k) && b.counts[n] <= k && k < c.counts[n];
            assert(a.counts[n] <= b.counts[n]);
            assert(z[i] == format_name(NameFormat::Var, n, k) && a.counts[n] <= k && k < c.counts[n]);
        }
    }
    assert forall|i: int, j: int| 0 <= i < x.len() && 0 <= j < y.len() implies x[i] != y[j] by {
        assert(made_between(a, b, x[i]));
        assert(made_between(b, c, y[j]));
        let (n1, k1) = choose|n: Seq<char>, k: nat| x[i] == format_name(NameFormat::Var, n, k) && a.counts[n] <= k && k < b.counts[n];
        let (n2, k2) = choose|n: Seq<char>, k: nat| y[j] == format_name(NameFormat::Var, n, k) && b.counts[n] <= k && k < c.counts[n];
        if x[i] == y[j] {
            law_format_name_injective(NameFormat::Var, n1, k1, n2, k2);
        }
    }
    assert forall|i: int, j: int| 0 <= i < z.len() && 0 <= j < z.len() && i != j implies z[i] != z[j] by {
        if i < x.len() && j < x.len() {
        } else if i >= x.len() && j >= x.len() {
            assert(z[i] == y[i - x.len()] && z[j] == y[j - x.len()]);
        } else if i < x.len() {
            assert(z[j] == y[j - x.len()]);
        } else {
            assert(z[i] == y[i - x.len()]);
        }
    }
}

proof fn lemma_declare(st: ResolverState, name: Seq<char>, linkage: Linkage)
    requires
        declare(st, name, linkage) is Ok,
        total(st.gen),
        st.gen.format == NameFormat::Var,
    ensures
        grows(st.gen, declare(st, name, linkage)->Ok_0.0.gen),
        linkage == Linkage::NoLinkage && bounded(declare(st, name, linkage)->Ok_0.0.gen) ==> fresh_names(
            st.gen,
            declare(st, name, linkage)->Ok_0.0.gen,
            seq![declare(st, name, linkage)->Ok_0.1],
        ),
{
    let (st1, unique) = declare(st, name, linkage)->Ok_0;
    let g = st.gen;
    let g1 = st1.gen;
    if linkage == Linkage::NoLinkage {
        assert forall|n: Seq<char>| #[trigger] g1.counts.dom().contains(n) by {
            assert(g.counts.dom().contains(n));
        }
        assert forall|n: Seq<char>| g.counts[n] <= #[trigger] g1.counts[n] by {
            if n != name {
                assert(g.counts.dom().contains(n));
            }
        }
        if bounded(g1) {
            assert(g1.counts[name] < usize::MAX);
            assert(unique == format_name(NameFormat::Var, name, g.counts[name]));
            assert(made_between(g, g1, unique));
            assert(made_between(g, g1, seq![unique][0]));
        }
    }
}

proof fn lemma_var_decl(st: ResolverState, v: VarDeclView)
    requires
        resolve_var_decl(st, v) is Ok,
        total(st.gen),
        st.gen.format == NameFormat::Var,
    ensures
        grows(st.gen, resolve_var_decl(st, v)->Ok_0.0.gen),
        bounded(resolve_var_decl(st, v)->Ok_0.0.gen) ==> fresh_names(
            st.gen,
            resolve_var_decl(st, v)->Ok_0.0.gen,
            var_names(resolve_var_decl(st, v)->Ok_0.1),
        ),
{
    lemma_declare(st, v.name, var_linkage(v.storage));
}

proof fn lemma_params(st: ResolverState, ps: Seq<Seq<char>>)
    requires
        resolve_params(st, ps) is Ok,
        total(st.gen),
        st.gen.format == NameFormat::Var,
    ensures
        grows(st.gen, resolve_params(st, ps)->Ok_0.0.gen),
        bounded(resolve_params(st, ps)->Ok_0.0.gen) ==> fresh_names(
            st.gen,
            resolve_params(st, ps)->Ok_0.0.gen,
            resolve_params(st, ps)->Ok_0.1,
        ),
    decreases ps.len(),
{
    if ps.len() == 0 {
        lemma_grows_refl(st.gen);
    } else {
        lemma_params(st, ps.drop_last());
        let (st1, prefix) = resolve_params(st, ps.drop_last())->Ok_0;
        lemma_declare(st1, ps.last(), Linkage::NoLinkage);
        let (st2, unique) = declare(st1, ps.last(), Linkage::NoLinkage)->Ok_0;
        lemma_grows_trans(st.gen, st1.gen, st2.gen);
        if bounded(st2.gen) {
            assert forall|n: Seq<char>| #[trigger] st1.gen.counts[n] < usize::MAX by {
                assert(st1.gen.counts[n] <= st2.gen.counts[n]);
            }
            lemma_fresh_concat(st.gen, st1.gen, st2.gen, prefix, seq![unique]);
            assert(prefix + seq![unique] =~= prefix.push(unique));
        }
    }
}

proof fn lemma_bounded_before(a: GenView, b: GenView)
    requires
        grows(a, b),
        bounded(b),
    ensures
        bounded(a),
{
    assert forall|n: Seq<char>| #[trigger] a.counts[n] < usize::MAX by {
        assert(a.counts[n] <= b.counts[n]);
    }
}

/// Resolving a statement makes its names without linkage distinct and fresh.
proof fn lemma_stmt(st: ResolverState, s: StmtView)
    requires
        resolve_stmt(st, s) is Ok,
        total(st.gen),
        st.gen.format == NameFormat::Var,
    ensures
        grows(st.gen, resolve_stmt(st, s)->Ok_0.0.gen),
        bounded(resolve_stmt(st, s)->Ok_0.0.gen) ==> fresh_names(
            st.gen,
            resolve_stmt(st, s)->Ok_0.0.gen,
            stmt_names(resolve_stmt(st, s)->Ok_0.1),
        ),
    decreases s, 0nat,
{
    let (st9, out) = resolve_stmt(st, s)->Ok_0;
    match s {
        StmtView::While(_, _, body) => {
            lemma_stmt(st, *body);
        },
        StmtView::DoWhile(_, _, body) => {
            lemma_stmt(st, *body);
        },
        StmtView::Switch(_, _, body, _) => {
            lemma_stmt(st, *body);
        },
        StmtView::Labeled(_, body) => {
            lemma_stmt(st, *body);
        },
        StmtView::For(_, init, _, _, body) => {
            let st1 = crate::semantic::identifier_resolver::opened(st);
            match init {
                ForInitView::Decl(v) => {
                    lemma_var_decl(st1, v);
                    let (st2, v2) = resolve_var_decl(st1, v)->Ok_0;
                    lemma_stmt(st2, *body);
                    let (st3, b2) = resolve_stmt(st2, *body)->Ok_0;
                    lemma_grows_trans(st.gen, st2.gen, st3.gen);
                    if bounded(st9.gen) {
                        lemma_bounded_before(st2.gen, st3.gen);
                        lemma_fresh_concat(st.gen, st2.gen, st3.gen, var_names(v2), stmt_names(b2));
                        assert(for_init_names(ForInitView::Decl(v2)) == var_names(v2));
                    }
                },
                ForInitView::Expr(_) => {
                    lemma_stmt(st1, *body);
                    let b2 = resolve_stmt(st1, *body)->Ok_0.1;
                    assert(stmt_names(out) == Seq::<Seq<char>>::empty() + stmt_names(b2));
                    assert(Seq::<Seq<char>>::empty() + stmt_names(b2) =~= stmt_names(b2));
                },
            }
        },
        StmtView::If(_, t, e) => {
            lemma_stmt(st, *t);
            let (st1, t2) = resolve_stmt(st, *t)->Ok_0;
            match e {
                Some(x) => {
                    lemma_stmt(st1, *x);
                    let (st2, x2) = resolve_stmt(st1, *x)->Ok_0;
                    lemma_grows_trans(st.gen, st1.gen, st2.gen);
                    if bounded(st2.gen) {
                        lemma_bounded_before(st1.gen, st2.gen);
                        lemma_fresh_concat(st.gen, st1.gen, st2.gen, stmt_names(t2), stmt_names(x2));
                    }
                },
                None => {},
            }
        },
        StmtView::Compound(items) => {
            lemma_block(st, items);
        },
        _ => {
            lemma_grows_refl(st.gen);
        },
    }
}

/// What [`lemma_stmt`] shows, shown of a block.
proof fn lemma_block(st: ResolverState, items: Seq<ItemView>)
    requires
        resolve_block(st, items) is Ok,
        total(st.gen),
        st.gen.format == NameFormat::Var,
    ensures
        grows(st.gen, resolve_block(st, items)->Ok_0.0.gen),
        bounded(resolve_block(st, items)->Ok_0.0.gen) ==> fresh_names(
            st.gen,
            resolve_block(st, items)->Ok_0.0.gen,
            items_names(resolve_block(st, items)->Ok_0.1),
        ),
    decreases items, 2nat,
{
    let st1 = if st.blocks.last() > 0 { crate::semantic::identifier_resolver::opened(st) } else { st };
    let st2 = ResolverState { blocks: st1.blocks.update(st1.blocks.len() - 1, crate::semantic::identifier_resolver::bump(st1.blocks.last())), ..st1 };
    lemma_items(st2, items);
}

/// What [`lemma_stmt`] shows, shown of the items of a block.
proof fn lemma_items(st: ResolverState, items: Seq<ItemView>)
    requires
        resolve_items(st, items) is Ok,
        total(st.gen),
        st.gen.format == NameFormat::Var,
    ensures
        grows(st.gen, resolve_items(st, items)->Ok_0.0.gen),
        bounded(resolve_items(st, items)->Ok_0.0.gen) ==> fresh_names(
            st.gen,
            resolve_items(st, items)->Ok_0.0.gen,
            items_names(resolve_items(st, items)->Ok_0.1),
        ),
    decreases items, 1nat,
{
    if items.len() == 0 {
        lemma_grows_refl(st.gen);
        assert(items_names(Seq::<ItemView>::empty()) == Seq::<Seq<char>>::empty());
    } else {
        lemma_items(st, items.drop_last());
        let (st1, prefix) = resolve_items(st, items.drop_last())->Ok_0;
        lemma_item(st1, items.last());
        let (st2, item) = resolve_item(st1, items.last())->Ok_0;
        lemma_grows_trans(st.gen, st1.gen, st2.gen);
        let out = prefix.push(item);
        assert(out.drop_last() =~= prefix);
        assert(out.last() == item);
        if bounded(st2.gen) {
            lemma_bounded_before(st1.gen, st2.gen);
            lemma_fresh_concat(st.gen, st1.gen, st2.gen, items_names(prefix), item_names(item));
        }
    }
}

/// What [`lemma_stmt`] shows, shown of one item of a block.
proof fn lemma_item(st: ResolverState, item: ItemView)
    requires
        resolve_item(st, item) is Ok,
        total(st.gen),
        st.gen.format == NameFormat::Var,
    ensures
        grows(st.gen, resolve_item(st, item)->Ok_0.0.gen),
        bounded(resolve_item(st, item)->Ok_0.0.gen) ==> fresh_names(
            st.gen,
            resolve_item(st, item)->Ok_0.0.gen,
            item_names(resolve_item(st, item)->Ok_0.1),
        ),
    decreases item, 0nat,
{
    match item {
        ItemView::Var(v) => {
            lemma_var_decl(st, v);
        },
        ItemView::Func(f) => {
            lemma_function(st, f);
        },
        ItemView::Stmt(s) => {
            lemma_stmt(st, s);
        },
    }
}

/// What [`lemma_stmt`] shows, shown of a function declaration: its parameters and the names
/// of its body.
proof fn lemma_function(st: ResolverState, f: FuncDeclView)
    requires
        resolve_function(st, f) is Ok,
        total(st.gen),
        st.gen.format == NameFormat::Var,
    ensures
        grows(st.gen, resolve_function(st, f)->Ok_0.0.gen),
        bounded(resolve_function(st, f)->Ok_0.0.gen) ==> fresh_names(
            st.gen,
            resolve_function(st, f)->Ok_0.0.gen,
            function_names(resolve_function(st, f)->Ok_0.1),
        ),
    decreases f.body, 2nat,
{
    let (st9, out) = resolve_function(st, f)->Ok_0;
    lemma_declare(st, f.name, Linkage::External);
    let (st1, unique) = declare(st, f.name, Linkage::External)->Ok_0;
    let st1o = crate::semantic::identifier_resolver::opened(st1);
    lemma_params(st1o, f.params);
    let (st2, params) = resolve_params(st1o, f.params)->Ok_0;
    lemma_grows_trans(st.gen, st1.gen, st2.gen);
    let st3 = ResolverState { fn_level: crate::semantic::identifier_resolver::bump(st2.fn_level), blocks: st2.blocks.push(0), ..st2 };
    match f.body {
        None => {
            if bounded(st9.gen) {
                assert(st1.gen == st.gen);
                assert(function_names(out) =~= params);
            }
        },
        Some(items) => {
            lemma_block(st3, items);
            let (st4, body) = resolve_block(st3, items)->Ok_0;
            lemma_grows_trans(st.gen, st2.gen, st4.gen);
            if bounded(st4.gen) {
                lemma_bounded_before(st2.gen, st4.gen);
                assert(st1.gen == st.gen);
                lemma_fresh_concat(st.gen, st2.gen, st4.gen, params, items_names(body));
            }
        },
    }
}

/// Law: identifier resolution gives each variable and parameter without linkage a name that
/// no other declaration of the program gets, as long as no counter of the name generator has
/// reached its limit at the end.
pub proof fn law_resolved_names_distinct(st: ResolverState, ds: Seq<DeclView>)
    requires
        resolve_decls(st, ds) is Ok,
        total(st.gen),
        st.gen.format == NameFormat::Var,
        bounded(resolve_decls(st, ds)->Ok_0.0.gen),
    ensures
        decls_names(resolve_decls(st, ds)->Ok_0.1).no_duplicates(),
{
    lemma_decls(st, ds);
}

proof fn lemma_decls(st: ResolverState, ds: Seq<DeclView>)
    requires
        resolve_decls(st, ds) is Ok,
        total(st.gen),
        st.gen.format == NameFormat::Var,
    ensures
        grows(st.gen, resolve_decls(st, ds)->Ok_0.0.gen),
        bounded(resolve_decls(st, ds)->Ok_0.0.gen) ==> fresh_names(
            st.gen,
            resolve_decls(st, ds)->Ok_0.0.gen,
            decls_names(resolve_decls(st, ds)->Ok_0.1),
        ),
    decreases ds.len(),
{
    if ds.len() == 0 {
        lemma_grows_refl(st.gen);
    } else {
        lemma_decls(st, ds.drop_last());
        let (st1, prefix) = resolve_decls(st, ds.drop_last())->Ok_0;
        let (st2, out) = resolve_decls(st, ds)->Ok_0;
        assert(out.drop_last() =~= prefix);
        match ds.last() {
            DeclView::Func(f) => {
                lemma_function(st1, f);
                let f2 = resolve_function(st1, f)->Ok_0.1;
                assert(out.last() == DeclView::Func(f2));
                lemma_grows_trans(st.gen, st1.gen, st2.gen);
                if bounded(st2.gen) {
                    lemma_bounded_before(st1.gen, st2.gen);
                    lemma_fresh_concat(st.gen, st1.gen, st2.gen, decls_names(prefix), function_names(f2));
                }
            },
            DeclView::Var(v) => {
                lemma_var_decl(st1, v);
                let v2 = resolve_var_decl(st1, v)->Ok_0.1;
                assert(out.last() == DeclView::Var(v2));
                lemma_grows_trans(st.gen, st1.gen, st2.gen);
                if bounded(st2.gen) {
                    lemma_bounded_before(st1.gen, st2.gen);
                    lemma_fresh_concat(st.gen, st1.gen, st2.gen, decls_names(prefix), var_names(v2));
                }
            },
        }
    }
}

} // verus!
