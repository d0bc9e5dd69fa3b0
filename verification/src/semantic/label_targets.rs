use vstd::prelude::*;

use crate::ast::{BlockItem, Declaration, FunctionDeclaration, Statement};
use crate::ast_view::{
    decls_view, func_decl_view, item_view, items_view, stmt_view, DeclView, FuncDeclView, ItemView,
    LabelView, StmtView,
};
use crate::semantic::loop_labeler;
use crate::semantic::loop_labeler::{ArmSpec, LabelCtx, Target};
use crate::semantic::label_resolver::{
    label_decls, label_function, label_items, label_stmt, undeclared, LabelMap, LabelOutcome,
};
use crate::semantic::label_resolver::use_label;
use crate::semantic::name_generator::{law_format_name_injective, format_name, GenView, NameFormat};

verus! {

/// The targets of the `goto` statements in a statement, nested ones included.
pub open spec fn stmt_gotos(s: StmtView) -> Set<Seq<char>>
    decreases s, 0nat,
{
    match s {
        StmtView::Goto(n) => set![n],
        StmtView::Labeled(_, body) => stmt_gotos(*body),
        StmtView::If(_, t, e) => match e {
            None => stmt_gotos(*t),
            Some(x) => stmt_gotos(*t) + stmt_gotos(*x),
        },
        StmtView::While(_, _, body) => stmt_gotos(*body),
        StmtView::DoWhile(_, _, body) => stmt_gotos(*body),
        StmtView::For(_, _, _, _, body) => stmt_gotos(*body),
        StmtView::Switch(_, _, body, _) => stmt_gotos(*body),
        StmtView::Compound(items) => items_gotos(items),
        _ => Set::empty(),
    }
}

/// The targets of the `goto` statements in the statements of a block.
pub open spec fn items_gotos(items: Seq<ItemView>) -> Set<Seq<char>>
    decreases items, 1nat,
{
    if items.len() == 0 {
        Set::empty()
    } else {
        items_gotos(items.drop_last()) + match items.last() {
            ItemView::Stmt(s) => stmt_gotos(s),
            _ => Set::empty(),
        }
    }
}

/// The names of the labeled statements in a statement, nested ones included.
pub open spec fn stmt_labels(s: StmtView) -> Set<Seq<char>>
    decreases s, 0nat,
{
    match s {
        StmtView::Labeled(LabelView::Named(n), body) => set![n] + stmt_labels(*body),
        StmtView::Labeled(_, body) => stmt_labels(*body),
        StmtView::If(_, t, e) => match e {
            None => stmt_labels(*t),
            Some(x) => stmt_labels(*t) + stmt_labels(*x),
        },
        StmtView::While(_, _, body) => stmt_labels(*body),
        StmtView::DoWhile(_, _, body) => stmt_labels(*body),
        StmtView::For(_, _, _, _, body) => stmt_labels(*body),
        StmtView::Switch(_, _, body, _) => stmt_labels(*body),
        StmtView::Compound(items) => items_labels(items),
        _ => Set::empty(),
    }
}

/// The names of the labeled statements in the statements of a block.
pub open spec fn items_labels(items: Seq<ItemView>) -> Set<Seq<char>>
    decreases items, 1nat,
{
    if items.len() == 0 {
        Set::empty()
    } else {
        items_labels(items.drop_last()) + match items.last() {
            ItemView::Stmt(s) => stmt_labels(s),
            _ => Set::empty(),
        }
    }
}

/// Whether `b` keeps every label of `a` under the same unique name, declared if it was.
pub open spec fn extends(a: LabelMap, b: LabelMap) -> bool {
    forall|n: Seq<char>|
        #[trigger] a.contains_key(n) ==> b.contains_key(n) && b[n].0 == a[n].0 && (a[n].1 ==> b[n].1)
}

/// Whether each of `ts` is the unique name of a label of `l`.
pub open spec fn targets_known(l: LabelMap, ts: Set<Seq<char>>) -> bool {
    forall|t: Seq<char>| #[trigger] ts.contains(t) ==> exists|n: Seq<char>| #[trigger] l.contains_key(n) && l[n].0 == t
}

/// Whether the unique name of each label that `b` declares and `a` did not is among `ls`.
pub open spec fn declared_among(a: LabelMap, b: LabelMap, ls: Set<Seq<char>>) -> bool {
    forall|n: Seq<char>|
        #[trigger] b.contains_key(n) && b[n].1 && !(a.contains_key(n) && a[n].1) ==> ls.contains(b[n].0)
}

proof fn lemma_targets_known_extends(a: LabelMap, b: LabelMap, ts: Set<Seq<char>>)
    requires
        targets_known(a, ts),
        extends(a, b),
    ensures
        targets_known(b, ts),
{
    assert forall|t: Seq<char>| #[trigger] ts.contains(t) implies exists|n: Seq<char>|
        #[trigger] b.contains_key(n) && b[n].0 == t by {
        let n = choose|n: Seq<char>| #[trigger] a.contains_key(n) && a[n].0 == t;
        assert(b.contains_key(n) && b[n].0 == t);
    }
}

proof fn lemma_targets_known_union(l: LabelMap, x: Set<Seq<char>>, y: Set<Seq<char>>)
    requires
        targets_known(l, x),
        targets_known(l, y),
    ensures
        targets_known(l, x + y),
{
    assert forall|t: Seq<char>| #[trigger] (x + y).contains(t) implies exists|n: Seq<char>|
        #[trigger] l.contains_key(n) && l[n].0 == t by {
        if x.contains(t) {
        } else {
            assert(y.contains(t));
        }
    }
}

proof fn lemma_chain(a: LabelMap, b: LabelMap, c: LabelMap, x: Set<Seq<char>>, y: Set<Seq<char>>)
    requires
        extends(a, b),
        extends(b, c),
        declared_among(a, b, x),
        declared_among(b, c, y),
    ensures
        extends(a, c),
        declared_among(a, c, x + y),
{
    assert forall|n: Seq<char>| #[trigger] c.contains_key(n) && c[n].1 && !(a.contains_key(n) && a[n].1)
        implies (x + y).contains(c[n].0) by {
        if b.contains_key(n) && b[n].1 {
            assert(x.contains(b[n].0));
        } else {
            assert(y.contains(c[n].0));
        }
    }
}

/// Renaming the labels of a statement keeps the labels known before, knows every `goto`
/// target it leaves, and leaves a labeled statement for each label it declares.
proof fn lemma_label_stmt(labels: LabelMap, gen: GenView, s: StmtView)
    requires
        label_stmt(labels, gen, s) is Ok,
    ensures
        ({
            let (l2, g2, s2) = label_stmt(labels, gen, s)->Ok_0;
            &&& extends(labels, l2)
            &&& targets_known(l2, stmt_gotos(s2))
            &&& declared_among(labels, l2, stmt_labels(s2))
        }),
    decreases s, 0nat,
{
    let (l2, g2, s2) = label_stmt(labels, gen, s)->Ok_0;
    match s {
        StmtView::Labeled(LabelView::Named(n), body) => {
            let (l1, g1, unique) = use_label(labels, gen, n, true)->Ok_0;
            assert(extends(labels, l1));
            assert(declared_among(labels, l1, set![unique]));
            lemma_label_stmt(l1, g1, *body);
            let b2 = label_stmt(l1, g1, *body)->Ok_0.2;
            lemma_chain(labels, l1, l2, set![unique], stmt_labels(b2));
            assert(stmt_gotos(s2) == stmt_gotos(b2));
            assert(stmt_labels(s2) == set![unique] + stmt_labels(b2));
        },
        StmtView::Labeled(l, body) => {
            lemma_label_stmt(labels, gen, *body);
        },
        StmtView::Goto(n) => {
            let (l1, g1, unique) = use_label(labels, gen, n, false)->Ok_0;
            assert(stmt_gotos(s2) == set![unique]);
            assert(l1.contains_key(n) && l1[n].0 == unique);
            assert(stmt_labels(s2) == Set::<Seq<char>>::empty());
        },
        StmtView::If(c, t, e) => {
            lemma_label_stmt(labels, gen, *t);
            let (l1, g1, t2) = label_stmt(labels, gen, *t)->Ok_0;
            match e {
                None => {},
                Some(x) => {
                    lemma_label_stmt(l1, g1, *x);
                    let x2 = label_stmt(l1, g1, *x)->Ok_0.2;
                    lemma_chain(labels, l1, l2, stmt_labels(t2), stmt_labels(x2));
                    lemma_targets_known_extends(l1, l2, stmt_gotos(t2));
                    lemma_targets_known_union(l2, stmt_gotos(t2), stmt_gotos(x2));
                },
            }
        },
        StmtView::While(_, _, body) => {
            lemma_label_stmt(labels, gen, *body);
        },
        StmtView::DoWhile(_, _, body) => {
            lemma_label_stmt(labels, gen, *body);
        },
        StmtView::For(_, _, _, _, body) => {
            lemma_label_stmt(labels, gen, *body);
        },
        StmtView::Switch(_, _, body, _) => {
            lemma_label_stmt(labels, gen, *body);
        },
        StmtView::Compound(items) => {
            lemma_label_items(labels, gen, items);
        },
        _ => {},
    }
}

/// What [`lemma_label_stmt`] shows of a statement, shown of the statements of a block.
proof fn lemma_label_items(labels: LabelMap, gen: GenView, items: Seq<ItemView>)
    requires
        label_items(labels, gen, items) is Ok,
    ensures
        ({
            let (l2, g2, items2) = label_items(labels, gen, items)->Ok_0;
            &&& extends(labels, l2)
            &&& targets_known(l2, items_gotos(items2))
            &&& declared_among(labels, l2, items_labels(items2))
        }),
    decreases items, 1nat,
{
    let (l2, g2, items2) = label_items(labels, gen, items)->Ok_0;
    if items.len() == 0 {
        assert(items_gotos(items2) == Set::<Seq<char>>::empty());
        assert(items_labels(items2) == Set::<Seq<char>>::empty());
    } else {
        lemma_label_items(labels, gen, items.drop_last());
        let (l1, g1, prefix) = label_items(labels, gen, items.drop_last())->Ok_0;
        match items.last() {
            ItemView::Stmt(s) => {
                lemma_label_stmt(l1, g1, s);
                let s2 = label_stmt(l1, g1, s)->Ok_0.2;
                assert(items2.drop_last() == prefix);
                assert(items2.last() == ItemView::Stmt(s2));
                lemma_chain(labels, l1, l2, items_labels(prefix), stmt_labels(s2));
                lemma_targets_known_extends(l1, l2, items_gotos(prefix));
                lemma_targets_known_union(l2, items_gotos(prefix), stmt_gotos(s2));
            },
            other => {
                assert(items2.drop_last() == prefix);
                assert(items2.last() == other);
                assert(items_gotos(items2) == items_gotos(prefix));
                assert(items_labels(items2) == items_labels(prefix));
            },
        }
    }
}

/// Whether every `goto` in the body of a function jumps to a label that a labeled statement
/// of the same body declares.
pub open spec fn gotos_land(f: FuncDeclView) -> bool {
    match f.body {
        Some(items) => items_gotos(items).subset_of(items_labels(items)),
        None => true,
    }
}

/// In a function whose labels resolve, every `goto` jumps to a label declared in that
/// function.
pub proof fn law_function_gotos_land(gen: GenView, f: FuncDeclView)
    requires
        label_function(gen, f) is Done,
    ensures
        gotos_land(label_function(gen, f)->Done_1),
{
    match f.body {
        None => {},
        Some(items) => {
            lemma_label_items(Map::empty(), gen, items);
            let (labels, g, items2) = label_items(Map::empty(), gen, items)->Ok_0;
            assert forall|t: Seq<char>| #[trigger] items_gotos(items2).contains(t) implies items_labels(items2).contains(t) by {
                let n = choose|n: Seq<char>| #[trigger] labels.contains_key(n) && labels[n].0 == t;
                assert(!undeclared(labels, n));
            }
        },
    }
}

/// In a program whose labels resolve, every `goto` of every function jumps to a label declared
/// in that function.
pub proof fn law_program_gotos_land(gen: GenView, ds: Seq<DeclView>)
    requires
        label_decls(gen, ds) is Done,
    ensures
        label_decls(gen, ds)->Done_1.len() == ds.len(),
        forall|i: int|
            #![trigger label_decls(gen, ds)->Done_1[i]]
            0 <= i < ds.len() ==> (label_decls(gen, ds)->Done_1[i] matches DeclView::Func(f) ==> gotos_land(f)),
    decreases ds.len(),
{
    if ds.len() > 0 {
        law_program_gotos_land(gen, ds.drop_last());
        let g1 = label_decls(gen, ds.drop_last())->Done_0;
        match ds.last() {
            DeclView::Func(f) => {
                law_function_gotos_land(g1, f);
            },
            _ => {},
        }
    }
}


/// The names of the labeled statements in a statement, in order, nested ones included.
pub open spec fn stmt_label_seq(s: StmtView) -> Seq<Seq<char>>
    decreases s, 0nat,
{
    match s {
        StmtView::Labeled(LabelView::Named(n), body) => seq![n] + stmt_label_seq(*body),
        StmtView::Labeled(_, body) => stmt_label_seq(*body),
        StmtView::If(_, t, e) => match e {
            None => stmt_label_seq(*t),
            Some(x) => stmt_label_seq(*t) + stmt_label_seq(*x),
        },
        StmtView::While(_, _, body) => stmt_label_seq(*body),
        StmtView::DoWhile(_, _, body) => stmt_label_seq(*body),
        StmtView::For(_, _, _, _, body) => stmt_label_seq(*body),
        StmtView::Switch(_, _, body, _) => stmt_label_seq(*body),
        StmtView::Compound(items) => items_label_seq(items),
        _ => Seq::empty(),
    }
}

/// The names of the labeled statements in the statements of a block, in order.
pub open spec fn items_label_seq(items: Seq<ItemView>) -> Seq<Seq<char>>
    decreases items, 1nat,
{
    if items.len() == 0 {
        Seq::empty()
    } else {
        items_label_seq(items.drop_last()) + match items.last() {
            ItemView::Stmt(s) => stmt_label_seq(s),
            _ => Seq::empty(),
        }
    }
}

/// Whether every unique name of `l` is made, in the label format, from its label's name.
pub open spec fn label_names(l: LabelMap) -> bool {
    forall|n: Seq<char>| #[trigger] l.contains_key(n) ==> exists|c: nat| l[n].0 == format_name(NameFormat::Label, n, c)
}

/// Whether `e` is the unique name of a label that `b` declares and `a` did not.
pub open spec fn fresh_in(a: LabelMap, b: LabelMap, e: Seq<char>) -> bool {
    exists|n: Seq<char>| #[trigger] b.contains_key(n) && b[n].1 && !(a.contains_key(n) && a[n].1) && b[n].0 == e
}

/// Whether each of `ls` is the unique name of a label that `b` declares and `a` did not.
pub open spec fn all_fresh(a: LabelMap, b: LabelMap, ls: Seq<Seq<char>>) -> bool {
    forall|i: int| 0 <= i < ls.len() ==> fresh_in(a, b, #[trigger] ls[i])
}

proof fn lemma_label_names_injective(l: LabelMap, n1: Seq<char>, n2: Seq<char>)
    requires
        label_names(l),
        l.contains_key(n1),
        l.contains_key(n2),
        l[n1].0 == l[n2].0,
    ensures
        n1 == n2,
{
    let c1 = choose|c: nat| l[n1].0 == format_name(NameFormat::Label, n1, c);
    let c2 = choose|c: nat| l[n2].0 == format_name(NameFormat::Label, n2, c);
    law_format_name_injective(NameFormat::Label, n1, c1, n2, c2);
}

proof fn lemma_all_fresh_widen(a: LabelMap, b: LabelMap, c: LabelMap, x: Seq<Seq<char>>, y: Seq<Seq<char>>)
    requires
        extends(a, b),
        extends(b, c),
        all_fresh(a, b, x),
        all_fresh(b, c, y),
    ensures
        all_fresh(a, c, x + y),
{
    assert forall|i: int| 0 <= i < (x + y).len() implies fresh_in(a, c, #[trigger] (x + y)[i]) by {
        if i < x.len() {
            let e = x[i];
            let n = choose|n: Seq<char>| #[trigger] b.contains_key(n) && b[n].1 && !(a.contains_key(n) && a[n].1) && b[n].0 == e;
            assert(c.contains_key(n) && c[n].1 && c[n].0 == e);
        } else {
            let e = y[i - x.len()];
            assert(fresh_in(b, c, e));
            let n = choose|n: Seq<char>| #[trigger] c.contains_key(n) && c[n].1 && !(b.contains_key(n) && b[n].1) && c[n].0 == e;
            assert(c.contains_key(n) && c[n].1 && !(a.contains_key(n) && a[n].1) && c[n].0 == e);
        }
    }
}

proof fn lemma_fresh_disjoint(a: LabelMap, b: LabelMap, c: LabelMap, x: Seq<Seq<char>>, y: Seq<Seq<char>>)
    requires
        extends(b, c),
        label_names(c),
        all_fresh(a, b, x),
        all_fresh(b, c, y),
        x.no_duplicates(),
        y.no_duplicates(),
    ensures
        (x + y).no_duplicates(),
{
    assert forall|i: int, j: int| 0 <= i < x.len() && 0 <= j < y.len() implies x[i] != y[j] by {
        let e1 = x[i];
        let e2 = y[j];
        assert(fresh_in(a, b, e1));
        assert(fresh_in(b, c, e2));
        let n = choose|n: Seq<char>| #[trigger] b.contains_key(n) && b[n].1 && !(a.contains_key(n) && a[n].1) && b[n].0 == e1;
        let m = choose|m: Seq<char>| #[trigger] c.contains_key(m) && c[m].1 && !(b.contains_key(m) && b[m].1) && c[m].0 == e2;
        if e1 == e2 {
            lemma_label_names_injective(c, n, m);
        }
    }
    let z = x + y;
    assert forall|i: int, j: int| 0 <= i < z.len() && 0 <= j < z.len() && i != j implies z[i] != z[j] by {
        if i < x.len() && j < x.len() {
        } else if i >= x.len() && j >= x.len() {
            assert(z[i] == y[i - x.len()] && z[j] == y[j - x.len()]);
        } else if i < x.len() {
            assert(z[j] == y[j - x.len()]);
        } else {
            assert(z[i] == y[i - x.len()]);
        }
    }
}

proof fn lemma_use_label_names(labels: LabelMap, gen: GenView, n: Seq<char>, declaring: bool)
    requires
        label_names(labels),
        gen.format == NameFormat::Label,
        use_label(labels, gen, n, declaring) is Ok,
    ensures
        label_names(use_label(labels, gen, n, declaring)->Ok_0.0),
        use_label(labels, gen, n, declaring)->Ok_0.1.format == NameFormat::Label,
{
    let l1 = use_label(labels, gen, n, declaring)->Ok_0.0;
    if !labels.contains_key(n) {
        assert forall|k: Seq<char>| #[trigger] l1.contains_key(k) implies exists|c: nat| l1[k].0 == format_name(NameFormat::Label, k, c) by {
            if k == n {
                assert(l1[k].0 == format_name(NameFormat::Label, n, gen.counts[n]));
            } else {
                assert(labels.contains_key(k));
            }
        }
    } else {
        assert forall|k: Seq<char>| #[trigger] l1.contains_key(k) implies exists|c: nat| l1[k].0 == format_name(NameFormat::Label, k, c) by {
            assert(labels.contains_key(k));
        }
    }
}

/// Renaming the labels of a statement, with label-format names, gives its labeled statements
/// distinct names, each that of a label it declares.
proof fn lemma_label_stmt_distinct(labels: LabelMap, gen: GenView, s: StmtView)
    requires
        label_stmt(labels, gen, s) is Ok,
        label_names(labels),
        gen.format == NameFormat::Label,
    ensures
        ({
            let (l2, g2, s2) = label_stmt(labels, gen, s)->Ok_0;
            &&& label_names(l2)
            &&& g2.format == NameFormat::Label
            &&& stmt_label_seq(s2).no_duplicates()
            &&& all_fresh(labels, l2, stmt_label_seq(s2))
        }),
    decreases s, 0nat,
{
    lemma_label_stmt(labels, gen, s);
    let (l2, g2, s2) = label_stmt(labels, gen, s)->Ok_0;
    match s {
        StmtView::Labeled(LabelView::Named(n), body) => {
            lemma_use_label_names(labels, gen, n, true);
            let (l1, g1, unique) = use_label(labels, gen, n, true)->Ok_0;
            assert(extends(labels, l1));
            lemma_label_stmt(l1, g1, *body);
            lemma_label_stmt_distinct(l1, g1, *body);
            let b2 = label_stmt(l1, g1, *body)->Ok_0.2;
            assert(l1.contains_key(n) && l1[n].1 && l1[n].0 == unique);
            assert(!(labels.contains_key(n) && labels[n].1));
            assert(fresh_in(labels, l1, unique));
            assert(all_fresh(labels, l1, seq![unique]));
            assert(seq![unique].no_duplicates());
            lemma_fresh_disjoint(labels, l1, l2, seq![unique], stmt_label_seq(b2));
            lemma_all_fresh_widen(labels, l1, l2, seq![unique], stmt_label_seq(b2));
        },
        StmtView::Labeled(l, body) => {
            lemma_label_stmt_distinct(labels, gen, *body);
        },
        StmtView::Goto(n) => {
            lemma_use_label_names(labels, gen, n, false);
        },
        StmtView::If(c, t, e) => {
            lemma_label_stmt(labels, gen, *t);
            lemma_label_stmt_distinct(labels, gen, *t);
            let (l1, g1, t2) = label_stmt(labels, gen, *t)->Ok_0;
            match e {
                None => {},
                Some(x) => {
                    lemma_label_stmt(l1, g1, *x);
                    lemma_label_stmt_distinct(l1, g1, *x);
                    let x2 = label_stmt(l1, g1, *x)->Ok_0.2;
                    lemma_fresh_disjoint(labels, l1, l2, stmt_label_seq(t2), stmt_label_seq(x2));
                    lemma_all_fresh_widen(labels, l1, l2, stmt_label_seq(t2), stmt_label_seq(x2));
                },
            }
        },
        StmtView::While(_, _, body) => {
            lemma_label_stmt_distinct(labels, gen, *body);
        },
        StmtView::DoWhile(_, _, body) => {
            lemma_label_stmt_distinct(labels, gen, *body);
        },
        StmtView::For(_, _, _, _, body) => {
            lemma_label_stmt_distinct(labels, gen, *body);
        },
        StmtView::Switch(_, _, body, _) => {
            lemma_label_stmt_distinct(labels, gen, *body);
        },
        StmtView::Compound(items) => {
            lemma_label_items_distinct(labels, gen, items);
        },
        _ => {},
    }
}

/// What [`lemma_label_stmt_distinct`] shows of a statement, shown of the statements of a block.
proof fn lemma_label_items_distinct(labels: LabelMap, gen: GenView, items: Seq<ItemView>)
    requires
        label_items(labels, gen, items) is Ok,
        label_names(labels),
        gen.format == NameFormat::Label,
    ensures
        ({
            let (l2, g2, items2) = label_items(labels, gen, items)->Ok_0;
            &&& label_names(l2)
            &&& g2.format == NameFormat::Label
            &&& items_label_seq(items2).no_duplicates()
            &&& all_fresh(labels, l2, items_label_seq(items2))
        }),
    decreases items, 1nat,
{
    let (l2, g2, items2) = label_items(labels, gen, items)->Ok_0;
    if items.len() == 0 {
        assert(items_label_seq(items2) =~= Seq::<Seq<char>>::empty());
    } else {
        lemma_label_items(labels, gen, items.drop_last());
        lemma_label_items_distinct(labels, gen, items.drop_last());
        let (l1, g1, prefix) = label_items(labels, gen, items.drop_last())->Ok_0;
        assert(items2.drop_last() == prefix);
        match items.last() {
            ItemView::Stmt(s) => {
                lemma_label_stmt(l1, g1, s);
                lemma_label_stmt_distinct(l1, g1, s);
                let s2 = label_stmt(l1, g1, s)->Ok_0.2;
                assert(items2.last() == ItemView::Stmt(s2));
                lemma_fresh_disjoint(labels, l1, l2, items_label_seq(prefix), stmt_label_seq(s2));
                lemma_all_fresh_widen(labels, l1, l2, items_label_seq(prefix), stmt_label_seq(s2));
            },
            other => {
                assert(items2.last() == other);
                assert(items_label_seq(items2) =~= items_label_seq(prefix));
            },
        }
    }
}

/// Whether no two labeled statements in the body of a function carry the same name.
pub open spec fn labels_distinct(f: FuncDeclView) -> bool {
    match f.body {
        Some(items) => items_label_seq(items).no_duplicates(),
        None => true,
    }
}

/// In a function whose labels resolve with a generator of label-format names, no two labeled
/// statements carry the same name.
pub proof fn law_function_labels_distinct(gen: GenView, f: FuncDeclView)
    requires
        label_function(gen, f) is Done,
        gen.format == NameFormat::Label,
    ensures
        labels_distinct(label_function(gen, f)->Done_1),
        label_function(gen, f)->Done_0.format == NameFormat::Label,
{
    match f.body {
        None => {},
        Some(items) => {
            lemma_label_items_distinct(Map::empty(), gen, items);
        },
    }
}


/// In a program whose labels resolve with a generator of label-format names, no two labeled
/// statements of one function carry the same name.
pub proof fn law_program_labels_distinct(gen: GenView, ds: Seq<DeclView>)
    requires
        label_decls(gen, ds) is Done,
        gen.format == NameFormat::Label,
    ensures
        label_decls(gen, ds)->Done_0.format == NameFormat::Label,
        label_decls(gen, ds)->Done_1.len() == ds.len(),
        forall|i: int|
            #![trigger label_decls(gen, ds)->Done_1[i]]
            0 <= i < ds.len() ==> (label_decls(gen, ds)->Done_1[i] matches DeclView::Func(f) ==> labels_distinct(f)),
    decreases ds.len(),
{
    if ds.len() > 0 {
        law_program_labels_distinct(gen, ds.drop_last());
        let g1 = label_decls(gen, ds.drop_last())->Done_0;
        match ds.last() {
            DeclView::Func(f) => {
                law_function_labels_distinct(g1, f);
            },
            _ => {},
        }
    }
}


/// Whether two statements have the same `goto` targets and the same labels, in the same order.
pub open spec fn same_jumps(a: StmtView, b: StmtView) -> bool {
    &&& stmt_gotos(a) == stmt_gotos(b)
    &&& stmt_labels(a) == stmt_labels(b)
    &&& stmt_label_seq(a) == stmt_label_seq(b)
}

/// What [`same_jumps`] says of statements, said of the statements of two blocks.
pub open spec fn same_item_jumps(a: Seq<ItemView>, b: Seq<ItemView>) -> bool {
    &&& items_gotos(a) == items_gotos(b)
    &&& items_labels(a) == items_labels(b)
    &&& items_label_seq(a) == items_label_seq(b)
}

/// Whether two function declarations both lack a body, or have bodies with the same `goto`
/// targets and labels.
pub open spec fn same_function_jumps(a: FuncDeclView, b: FuncDeclView) -> bool {
    match (a.body, b.body) {
        (Some(x), Some(y)) => same_item_jumps(x, y),
        (None, None) => true,
        _ => false,
    }
}

proof fn lemma_items_view_split(xs: Seq<BlockItem>)
    requires
        xs.len() > 0,
    ensures
        items_view(xs).drop_last() == items_view(xs.drop_last()),
        items_view(xs).last() == item_view(xs.last()),
{
    assert(items_view(xs).drop_last() =~= items_view(xs.drop_last()));
}

/// Labeling loops and switches leaves the `goto` statements and named labels of a statement
/// as they are.
proof fn lemma_loop_stmt_jumps(ctx: LabelCtx, ts: Seq<Target>, arms: Seq<ArmSpec>, old: Statement, new: Statement)
    requires
        loop_labeler::label_stmt(ctx, ts, arms, old, new).ok,
        loop_labeler::label_stmt(ctx, ts, arms, old, new).fits,
    ensures
        same_jumps(stmt_view(old), stmt_view(new)),
    decreases old, 1nat,
{
    match old {
        Statement::While { body, .. } | Statement::DoWhile { body, .. } | Statement::For { body, .. } => {
            let (g, id) = crate::semantic::name_generator::gen_next(ctx.loops, Seq::empty());
            lemma_loop_stmt_jumps(
                LabelCtx { loops: g, switches: ctx.switches },
                ts.push(Target::Loop(id)),
                arms,
                *body,
                loop_labeler::body_of(new),
            );
        },
        Statement::SwitchStatement { body, .. } => {
            let (g, id) = crate::semantic::name_generator::gen_next(ctx.switches, Seq::empty());
            lemma_loop_stmt_jumps(
                LabelCtx { loops: ctx.loops, switches: g },
                ts.push(Target::Switch(id)),
                Seq::empty(),
                *body,
                loop_labeler::body_of(new),
            );
        },
        Statement::LabeledStatement { label, statement } => {
            let arms2 = match label {
                crate::ast::Label::Case { value, .. } => arms.push(
                    (loop_labeler::innermost_switch(ts)->0 + ".case."@ + crate::util::decimal(
                        loop_labeler::arm_number(arms.len()),
                    ), Some(value)),
                ),
                crate::ast::Label::Default { .. } => arms.push(
                    (loop_labeler::innermost_switch(ts)->0 + ".default"@, None),
                ),
                crate::ast::Label::Label(_) => arms,
            };
            lemma_loop_stmt_jumps(ctx, ts, arms2, *statement, loop_labeler::body_of(new));
        },
        Statement::IfStatement { then_branch, else_branch, .. } => {
            let a = loop_labeler::label_stmt(ctx, ts, arms, *then_branch, loop_labeler::body_of(new));
            lemma_loop_stmt_jumps(ctx, ts, arms, *then_branch, loop_labeler::body_of(new));
            match else_branch {
                Some(e) => {
                    lemma_loop_stmt_jumps(a.ctx, ts, a.arms, *e, loop_labeler::else_of(new));
                },
                None => {},
            }
        },
        Statement::CompoundStatement(b) => {
            lemma_loop_items_jumps(ctx, ts, arms, b.items@, loop_labeler::items_of(new));
        },
        _ => {},
    }
}

/// What [`lemma_loop_stmt_jumps`] shows of a statement, shown of the items of a block.
proof fn lemma_loop_items_jumps(ctx: LabelCtx, ts: Seq<Target>, arms: Seq<ArmSpec>, olds: Seq<BlockItem>, news: Seq<BlockItem>)
    requires
        loop_labeler::label_items(ctx, ts, arms, olds, news).ok,
        loop_labeler::label_items(ctx, ts, arms, olds, news).fits,
    ensures
        same_item_jumps(items_view(olds), items_view(news)),
    decreases olds, 1nat,
{
    if olds.len() > 0 {
        let a = loop_labeler::label_items(ctx, ts, arms, olds.drop_last(), news.drop_last());
        let b = loop_labeler::label_item(a.ctx, ts, a.arms, olds.last(), news.last());
        assert(a.ok && a.fits && b.ok && b.fits && news.len() == olds.len());
        lemma_loop_items_jumps(ctx, ts, arms, olds.drop_last(), news.drop_last());
        lemma_items_view_split(olds);
        lemma_items_view_split(news);
        match olds.last() {
            BlockItem::Statement(s) => {
                let n = match news.last() {
                    BlockItem::Statement(n) => n,
                    _ => Statement::Null,
                };
                assert(loop_labeler::label_stmt(a.ctx, ts, a.arms, s, n).ok);
                lemma_loop_stmt_jumps(a.ctx, ts, a.arms, s, n);
                assert(news.last() == BlockItem::Statement(n));
            },
            BlockItem::FunctionDeclaration(f) => {
                assert(news.last() is FunctionDeclaration);
            },
            BlockItem::VarDeclaration(_) => {
                assert(news.last() == olds.last());
            },
        }
    }
}

/// Labeling loops and switches leaves a function's head as it is, and its body's `goto`
/// statements and named labels.
proof fn lemma_loop_function_jumps(ctx: LabelCtx, ts: Seq<Target>, arms: Seq<ArmSpec>, old: FunctionDeclaration, new: FunctionDeclaration)
    requires
        loop_labeler::label_function(ctx, ts, arms, old, new).ok,
        loop_labeler::label_function(ctx, ts, arms, old, new).fits,
    ensures
        same_function_jumps(func_decl_view(old), func_decl_view(new)),
{
    match old.body {
        Some(b) => {
            let nb = new.body->0;
            lemma_loop_items_jumps(ctx, ts, arms, b.items@, nb.items@);
        },
        None => {},
    }
}

/// Labeling the loops and switches of a program keeps its declarations, each function with
/// the same `goto` targets and labels.
pub proof fn law_loop_labeling_keeps_jumps(ctx: LabelCtx, arms: Seq<ArmSpec>, olds: Seq<Declaration>, news: Seq<Declaration>)
    requires
        loop_labeler::label_decls(ctx, arms, olds, news).ok,
        loop_labeler::label_decls(ctx, arms, olds, news).fits,
    ensures
        news.len() == olds.len(),
        forall|i: int|
            #![trigger decls_view(news)[i]]
            0 <= i < olds.len() ==> match (decls_view(olds)[i], decls_view(news)[i]) {
                (DeclView::Func(a), DeclView::Func(b)) => same_function_jumps(a, b),
                (DeclView::Var(a), DeclView::Var(b)) => a == b,
                _ => false,
            },
    decreases olds.len(),
{
    if olds.len() > 0 {
        let a = loop_labeler::label_decls(ctx, arms, olds.drop_last(), news.drop_last());
        law_loop_labeling_keeps_jumps(ctx, arms, olds.drop_last(), news.drop_last());
        match olds.last() {
            Declaration::FunctionDecl(f) => {
                let n = match news.last() {
                    Declaration::FunctionDecl(n) => n,
                    _ => f,
                };
                lemma_loop_function_jumps(a.ctx, Seq::empty(), a.arms, f, n);
            },
            _ => {},
        }
        assert forall|i: int| #![trigger decls_view(news)[i]] 0 <= i < olds.len() implies match (decls_view(olds)[i], decls_view(news)[i]) {
            (DeclView::Func(a), DeclView::Func(b)) => same_function_jumps(a, b),
            (DeclView::Var(a), DeclView::Var(b)) => a == b,
            _ => false,
        } by {
            if i < olds.len() - 1 {
                assert(decls_view(olds)[i] == decls_view(olds.drop_last())[i]);
                assert(decls_view(news)[i] == decls_view(news.drop_last())[i]);
            }
        }
    }
}


/// What validation guarantees of jumps: when label resolution (with label-format names)
/// turns `annotated` into the program `mid` stands for, and loop labeling then succeeds on
/// `mid` giving `fin`, every `goto` of every function of `fin` lands on a label of that
/// function, and no two labels of a function share a name.
pub proof fn law_validated_jumps(gen: GenView, annotated: Seq<DeclView>, mid: Seq<Declaration>, ctx: LabelCtx, fin: Seq<Declaration>)
    requires
        gen.format == NameFormat::Label,
        label_decls(gen, annotated) is Done,
        decls_view(mid) == label_decls(gen, annotated)->Done_1,
        loop_labeler::label_decls(ctx, Seq::empty(), mid, fin).ok,
        loop_labeler::label_decls(ctx, Seq::empty(), mid, fin).fits,
    ensures
        forall|i: int|
            #![trigger decls_view(fin)[i]]
            0 <= i < fin.len() ==> (decls_view(fin)[i] matches DeclView::Func(f) ==> gotos_land(f) && labels_distinct(f)),
{
    law_program_gotos_land(gen, annotated);
    law_program_labels_distinct(gen, annotated);
    law_loop_labeling_keeps_jumps(ctx, Seq::empty(), mid, fin);
    let labeled = label_decls(gen, annotated)->Done_1;
    assert forall|i: int|
        #![trigger decls_view(fin)[i]]
        0 <= i < fin.len() implies (decls_view(fin)[i] matches DeclView::Func(f) ==> gotos_land(f) && labels_distinct(f)) by {
        assert(decls_view(mid)[i] == labeled[i]);
        if let DeclView::Func(b) = decls_view(fin)[i] {
            if let DeclView::Func(a) = labeled[i] {
                assert(same_function_jumps(a, b));
                assert(gotos_land(a) && labels_distinct(a));
            }
        }
    }
}

} // verus!
