use vstd::prelude::*;

use super::name_generator::{gen_next, make_loop_id_generator, make_switch_id_generator, GenView, NameGenerator};
use crate::ast::{
    same_expr, Block, BlockItem, Declaration, Expression, FunctionDeclaration, Label, Program,
    Statement, TypedExpression,
};
use crate::ast_copy::{copy_decl, restore_decls};
use crate::ast_view::decls_view;
use crate::util::{append_decimal, append_str, copy_string, decimal, string_of};

verus! {

broadcast use vstd::std_specs::vec::group_vec_axioms;

/// A statement that `break` or `continue` can leave: a loop or a switch, with its id.
pub enum Target {
    Loop(Seq<char>),
    Switch(Seq<char>),
}

/// The two id generators of the labeling.
pub struct LabelCtx {
    pub loops: GenView,
    pub switches: GenView,
}

/// A switch arm as collected: its label id and its case value (none for `default`).
pub type ArmSpec = (Seq<char>, Option<TypedExpression>);

/// The outcome of labeling: whether it succeeded (else the error message), the generators
/// and the arms of the innermost switch afterwards, and whether the new tree is the old one
/// with the ids filled in as labeling assigns them.
pub struct LabelOut {
    pub ok: bool,
    pub err: Seq<char>,
    pub ctx: LabelCtx,
    pub arms: Seq<ArmSpec>,
    pub fits: bool,
}

pub open spec fn label_fail(err: Seq<char>, ctx: LabelCtx, arms: Seq<ArmSpec>) -> LabelOut {
    LabelOut { ok: false, err, ctx, arms, fits: false }
}

/// The target of a `break`: the innermost loop or switch.
pub open spec fn break_target(ts: Seq<Target>) -> Option<Seq<char>> {
    if ts.len() == 0 {
        None
    } else {
        match ts.last() {
            Target::Loop(id) => Some(id),
            Target::Switch(id) => Some(id),
        }
    }
}

/// The innermost loop.
pub open spec fn innermost_loop(ts: Seq<Target>) -> Option<Seq<char>>
    decreases ts.len(),
{
    if ts.len() == 0 {
        None
    } else {
        match ts.last() {
            Target::Loop(id) => Some(id),
            Target::Switch(_) => innermost_loop(ts.drop_last()),
        }
    }
}

/// The innermost switch.
pub open spec fn innermost_switch(ts: Seq<Target>) -> Option<Seq<char>>
    decreases ts.len(),
{
    if ts.len() == 0 {
        None
    } else {
        match ts.last() {
            Target::Switch(id) => Some(id),
            Target::Loop(_) => innermost_switch(ts.drop_last()),
        }
    }
}

/// What checking a switch's arms has found so far: an error, or the case values seen and the
/// number of `default` arms.
pub struct ArmsCheck {
    pub err: Option<Seq<char>>,
    pub seen: Set<i32>,
    pub defaults: nat,
}

/// Checks the arms of a switch in order: every case value is an integer constant that no
/// earlier arm has, and there is at most one `default`.
pub open spec fn check_arms(arms: Seq<ArmSpec>) -> ArmsCheck
    decreases arms.len(),
{
    if arms.len() == 0 {
        ArmsCheck { err: None, seen: Set::empty(), defaults: 0 }
    } else {
        let c = check_arms(arms.drop_last());
        if c.err is Some {
            c
        } else {
            match arms.last().1 {
                Some(e) => match e.0 {
                    Expression::IntegerConstant(v) => if c.seen.contains(v) {
                        ArmsCheck { err: Some("case arm value is already used"@), ..c }
                    } else {
                        ArmsCheck { seen: c.seen.insert(v), ..c }
                    },
                    _ => ArmsCheck { err: Some("case arm expression is not an integer"@), ..c },
                },
                None => if c.defaults + 1 > 1 {
                    ArmsCheck { err: Some("not more than one default arm allowed"@), ..c }
                } else {
                    ArmsCheck { defaults: c.defaults + 1, ..c }
                },
            }
        }
    }
}

/// Whether collected arms (with copies of the case values) agree with the arms of the
/// labeling.
pub open spec fn arms_agree(a: Seq<(String, Option<TypedExpression>)>, b: Seq<ArmSpec>) -> bool {
    &&& a.len() == b.len()
    &&& forall|i: int|
        #![trigger a[i]]
        0 <= i < a.len() ==> a[i].0@ == b[i].0 && match (a[i].1, b[i].1) {
            (Some(x), Some(y)) => same_expr(y, x),
            (None, None) => true,
            _ => false,
        }
}

pub open spec fn body_of(s: Statement) -> Statement {
    match s {
        Statement::While { body, .. } | Statement::DoWhile { body, .. } | Statement::For { body, .. }
        | Statement::SwitchStatement { body, .. } => *body,
        Statement::LabeledStatement { statement, .. } => *statement,
        Statement::IfStatement { then_branch, .. } => *then_branch,
        _ => Statement::Null,
    }
}

pub open spec fn else_of(s: Statement) -> Statement {
    match s {
        Statement::IfStatement { else_branch: Some(b), .. } => *b,
        _ => Statement::Null,
    }
}

pub open spec fn items_of(s: Statement) -> Seq<BlockItem> {
    match s {
        Statement::CompoundStatement(b) => b.items@,
        _ => Seq::empty(),
    }
}

/// A loop: a fresh loop id, and its body labeled inside it.
pub open spec fn label_loop(ctx: LabelCtx, ts: Seq<Target>, arms: Seq<ArmSpec>, old: Statement, new: Statement) -> LabelOut
    decreases old, 0nat,
{
    let (g, id) = gen_next(ctx.loops, Seq::empty());
    let sub = match old {
        Statement::While { body, .. } | Statement::DoWhile { body, .. } | Statement::For { body, .. } =>
            label_stmt(LabelCtx { loops: g, switches: ctx.switches }, ts.push(Target::Loop(id)), arms, *body, body_of(new)),
        _ => label_fail(Seq::empty(), ctx, arms),
    };
    if !sub.ok {
        sub
    } else {
        LabelOut {
            ok: true,
            err: Seq::empty(),
            ctx: sub.ctx,
            arms: sub.arms,
            fits: sub.fits && match (old, new) {
                (Statement::While { condition: c, .. }, Statement::While { loop_id, condition: nc, .. }) =>
                    loop_id@ == id && nc == c,
                (Statement::DoWhile { condition: c, .. }, Statement::DoWhile { loop_id, condition: nc, .. }) =>
                    loop_id@ == id && nc == c,
                (Statement::For { init, condition, post, .. }, Statement::For { loop_id, init: ni, condition: nc, post: np, .. }) =>
                    loop_id@ == id && ni == init && nc == condition && np == post,
                _ => false,
            },
        }
    }
}

/// A switch: a fresh switch id, its body labeled inside it with arms of its own, which must
/// pass the check and become the switch's arms.
pub open spec fn label_switch(ctx: LabelCtx, ts: Seq<Target>, arms: Seq<ArmSpec>, old: Statement, new: Statement) -> LabelOut
    decreases old, 0nat,
{
    let (g, id) = gen_next(ctx.switches, Seq::empty());
    let sub = match old {
        Statement::SwitchStatement { body, .. } =>
            label_stmt(LabelCtx { loops: ctx.loops, switches: g }, ts.push(Target::Switch(id)), Seq::empty(), *body, body_of(new)),
        _ => label_fail(Seq::empty(), ctx, arms),
    };
    if !sub.ok {
        sub
    } else {
        let c = check_arms(sub.arms);
        if c.err is Some {
            label_fail(c.err->0, sub.ctx, arms)
        } else {
            LabelOut {
                ok: true,
                err: Seq::empty(),
                ctx: sub.ctx,
                arms,
                fits: sub.fits && match (old, new) {
                    (Statement::SwitchStatement { condition: c, .. }, Statement::SwitchStatement { switch_id, condition: nc, arms: na, .. }) =>
                        switch_id@ == id && nc == c && arms_agree(na@, sub.arms),
                    _ => false,
                },
            }
        }
    }
}

/// The number of the next case arm of a switch that has `n` arms (it stops growing at the
/// largest `usize`).
pub open spec fn arm_number(n: nat) -> nat {
    if n < usize::MAX {
        n + 1
    } else {
        n
    }
}

/// A labeled statement: a case or default label gets an id from the innermost switch and
/// becomes one of its arms; then the statement is labeled.
pub open spec fn label_labeled(ctx: LabelCtx, ts: Seq<Target>, arms: Seq<ArmSpec>, old: Statement, new: Statement) -> LabelOut
    decreases old, 0nat,
{
    match old {
        Statement::LabeledStatement { label, .. } => {
            let (arms2, label_fits) = match label {
                Label::Case { value, .. } => {
                    let id = innermost_switch(ts)->0 + ".case."@ + decimal(arm_number(arms.len()));
                    (
                        arms.push((id, Some(value))),
                        new matches Statement::LabeledStatement { label: Label::Case { case_id, value: nv }, .. } && case_id@ == id && nv == value,
                    )
                },
                Label::Default { .. } => {
                    let id = innermost_switch(ts)->0 + ".default"@;
                    (
                        arms.push((id, None)),
                        new matches Statement::LabeledStatement { label: Label::Default { default_id }, .. } && default_id@ == id,
                    )
                },
                Label::Label(_) => (arms, new matches Statement::LabeledStatement { label: nl, .. } && nl == label),
            };
            if !(label is Label) && innermost_switch(ts) is None {
                label_fail("not inside a switch statement"@, ctx, arms)
            } else {
                let sub = label_stmt(ctx, ts, arms2, body_of(old), body_of(new));
                if !sub.ok {
                    sub
                } else {
                    LabelOut { fits: sub.fits && label_fits, ..sub }
                }
            }
        },
        _ => label_fail(Seq::empty(), ctx, arms),
    }
}

/// An if statement: its branches in order.
pub open spec fn label_if(ctx: LabelCtx, ts: Seq<Target>, arms: Seq<ArmSpec>, old: Statement, new: Statement) -> LabelOut
    decreases old, 0nat,
{
    match (old, new) {
        (Statement::IfStatement { condition, then_branch, else_branch }, Statement::IfStatement { condition: nc, else_branch: ne, .. }) => {
            let a = label_stmt(ctx, ts, arms, *then_branch, body_of(new));
            if !a.ok {
                a
            } else {
                match else_branch {
                    Some(e) => {
                        let b = label_stmt(a.ctx, ts, a.arms, *e, else_of(new));
                        if !b.ok {
                            b
                        } else {
                            LabelOut { fits: a.fits && b.fits && nc == condition && ne is Some, ..b }
                        }
                    },
                    None => LabelOut { fits: a.fits && nc == condition && ne is None, ..a },
                }
            }
        },
        (Statement::IfStatement { then_branch, else_branch, .. }, _) => {
            let a = label_stmt(ctx, ts, arms, *then_branch, Statement::Null);
            if !a.ok {
                a
            } else {
                match else_branch {
                    Some(e) => {
                        let b = label_stmt(a.ctx, ts, a.arms, *e, Statement::Null);
                        if !b.ok {
                            b
                        } else {
                            LabelOut { fits: false, ..b }
                        }
                    },
                    None => LabelOut { fits: false, ..a },
                }
            }
        },
        _ => label_fail(Seq::empty(), ctx, arms),
    }
}

/// Labeling a statement: loops and switches get fresh ids, `break` and `continue` the ids of
/// their targets, case and default labels ids within their switch; every other part of the
/// tree stays as it is.
pub open spec fn label_stmt(ctx: LabelCtx, ts: Seq<Target>, arms: Seq<ArmSpec>, old: Statement, new: Statement) -> LabelOut
    decreases old, 1nat,
{
    match old {
        Statement::Break { .. } => match break_target(ts) {
            Some(id) => LabelOut { ok: true, err: Seq::empty(), ctx, arms, fits: new matches Statement::Break { loop_id } && loop_id@ == id },
            None => label_fail("break statement not inside a loop or a switch statement"@, ctx, arms),
        },
        Statement::Continue { .. } => match innermost_loop(ts) {
            Some(id) => LabelOut { ok: true, err: Seq::empty(), ctx, arms, fits: new matches Statement::Continue { loop_id } && loop_id@ == id },
            None => label_fail("not inside a loop"@, ctx, arms),
        },
        Statement::While { .. } | Statement::DoWhile { .. } | Statement::For { .. } => label_loop(ctx, ts, arms, old, new),
        Statement::SwitchStatement { .. } => label_switch(ctx, ts, arms, old, new),
        Statement::LabeledStatement { .. } => label_labeled(ctx, ts, arms, old, new),
        Statement::IfStatement { .. } => label_if(ctx, ts, arms, old, new),
        Statement::CompoundStatement(b) => {
            let o = label_items(ctx, ts, arms, b.items@, items_of(new));
            LabelOut { fits: o.fits && new is CompoundStatement, ..o }
        },
        _ => LabelOut { ok: true, err: Seq::empty(), ctx, arms, fits: new == old },
    }
}

/// Labeling the items of a block in order.
pub open spec fn label_items(ctx: LabelCtx, ts: Seq<Target>, arms: Seq<ArmSpec>, olds: Seq<BlockItem>, news: Seq<BlockItem>) -> LabelOut
    decreases olds, 1nat,
{
    if olds.len() == 0 {
        LabelOut { ok: true, err: Seq::empty(), ctx, arms, fits: news.len() == 0 }
    } else {
        let a = label_items(ctx, ts, arms, olds.drop_last(), news.drop_last());
        if !a.ok {
            a
        } else {
            let b = label_item(a.ctx, ts, a.arms, olds.last(), news.last());
            if !b.ok {
                b
            } else {
                LabelOut { fits: a.fits && b.fits && news.len() == olds.len(), ..b }
            }
        }
    }
}

pub open spec fn label_item(ctx: LabelCtx, ts: Seq<Target>, arms: Seq<ArmSpec>, old: BlockItem, new: BlockItem) -> LabelOut
    decreases old, 1nat,
{
    match old {
        BlockItem::Statement(s) => {
            let o = label_stmt(ctx, ts, arms, s, match new {
                BlockItem::Statement(n) => n,
                _ => Statement::Null,
            });
            LabelOut { fits: o.fits && new is Statement, ..o }
        },
        BlockItem::FunctionDeclaration(f) => {
            let o = label_function(ctx, ts, arms, f, match new {
                BlockItem::FunctionDeclaration(n) => n,
                _ => f,
            });
            LabelOut { fits: o.fits && new is FunctionDeclaration, ..o }
        },
        BlockItem::VarDeclaration(_) => LabelOut { ok: true, err: Seq::empty(), ctx, arms, fits: new == old },
    }
}

/// Labeling a function: its body's items, if it has a body.
pub open spec fn label_function(ctx: LabelCtx, ts: Seq<Target>, arms: Seq<ArmSpec>, old: FunctionDeclaration, new: FunctionDeclaration) -> LabelOut
    decreases old, 1nat,
{
    let same_head = new.name == old.name && new.parameters == old.parameters && new.storage_class
        == old.storage_class && new.func_type == old.func_type;
    match old.body {
        Some(b) => {
            let o = label_items(ctx, ts, arms, b.items@, match new.body {
                Some(nb) => nb.items@,
                None => Seq::empty(),
            });
            LabelOut { fits: o.fits && same_head && new.body is Some, ..o }
        },
        None => LabelOut { ok: true, err: Seq::empty(), ctx, arms, fits: new == old },
    }
}

} // verus!

verus! {

/// Whether two outcomes agree in everything but `fits`.
pub open spec fn same_outcome(a: LabelOut, b: LabelOut) -> bool {
    a.ok == b.ok && a.err == b.err && a.ctx == b.ctx && a.arms == b.arms
}

proof fn lemma_stmt_independent(ctx: LabelCtx, ts: Seq<Target>, arms: Seq<ArmSpec>, old: Statement, n1: Statement, n2: Statement)
    ensures
        same_outcome(label_stmt(ctx, ts, arms, old, n1), label_stmt(ctx, ts, arms, old, n2)),
    decreases old, 1nat,
{
    match old {
        Statement::While { .. } | Statement::DoWhile { .. } | Statement::For { .. } => lemma_loop_independent(ctx, ts, arms, old, n1, n2),
        Statement::SwitchStatement { .. } => lemma_switch_independent(ctx, ts, arms, old, n1, n2),
        Statement::LabeledStatement { .. } => lemma_labeled_independent(ctx, ts, arms, old, n1, n2),
        Statement::IfStatement { .. } => lemma_if_independent(ctx, ts, arms, old, n1, n2),
        Statement::CompoundStatement(b) => lemma_items_independent(ctx, ts, arms, b.items@, items_of(n1), items_of(n2)),
        _ => {},
    }
}

proof fn lemma_loop_independent(ctx: LabelCtx, ts: Seq<Target>, arms: Seq<ArmSpec>, old: Statement, n1: Statement, n2: Statement)
    ensures
        same_outcome(label_loop(ctx, ts, arms, old, n1), label_loop(ctx, ts, arms, old, n2)),
    decreases old, 0nat,
{
    let (g, id) = gen_next(ctx.loops, Seq::empty());
    match old {
        Statement::While { body, .. } | Statement::DoWhile { body, .. } | Statement::For { body, .. } =>
            lemma_stmt_independent(LabelCtx { loops: g, switches: ctx.switches }, ts.push(Target::Loop(id)), arms, *body, body_of(n1), body_of(n2)),
        _ => {},
    }
}

proof fn lemma_switch_independent(ctx: LabelCtx, ts: Seq<Target>, arms: Seq<ArmSpec>, old: Statement, n1: Statement, n2: Statement)
    ensures
        same_outcome(label_switch(ctx, ts, arms, old, n1), label_switch(ctx, ts, arms, old, n2)),
    decreases old, 0nat,
{
    let (g, id) = gen_next(ctx.switches, Seq::empty());
    match old {
        Statement::SwitchStatement { body, .. } =>
            lemma_stmt_independent(LabelCtx { loops: ctx.loops, switches: g }, ts.push(Target::Switch(id)), Seq::empty(), *body, body_of(n1), body_of(n2)),
        _ => {},
    }
}

proof fn lemma_labeled_independent(ctx: LabelCtx, ts: Seq<Target>, arms: Seq<ArmSpec>, old: Statement, n1: Statement, n2: Statement)
    ensures
        same_outcome(label_labeled(ctx, ts, arms, old, n1), label_labeled(ctx, ts, arms, old, n2)),
    decreases old, 0nat,
{
    if let Statement::LabeledStatement { label, statement } = old {
        let arms2 = match label {
            Label::Case { value, .. } => arms.push((innermost_switch(ts)->0 + ".case."@ + decimal(arm_number(arms.len())), Some(value))),
            Label::Default { .. } => arms.push((innermost_switch(ts)->0 + ".default"@, None)),
            Label::Label(_) => arms,
        };
        lemma_stmt_independent(ctx, ts, arms2, *statement, body_of(n1), body_of(n2));
    }
}

proof fn lemma_if_independent(ctx: LabelCtx, ts: Seq<Target>, arms: Seq<ArmSpec>, old: Statement, n1: Statement, n2: Statement)
    ensures
        same_outcome(label_if(ctx, ts, arms, old, n1), label_if(ctx, ts, arms, old, n2)),
    decreases old, 0nat,
{
    if let Statement::IfStatement { then_branch, else_branch, .. } = old {
        let t1 = if n1 is IfStatement { body_of(n1) } else { Statement::Null };
        let t2 = if n2 is IfStatement { body_of(n2) } else { Statement::Null };
        lemma_stmt_independent(ctx, ts, arms, *then_branch, t1, t2);
        let a = label_stmt(ctx, ts, arms, *then_branch, t1);
        if let Some(e) = else_branch {
            let e1 = if n1 is IfStatement { else_of(n1) } else { Statement::Null };
            let e2 = if n2 is IfStatement { else_of(n2) } else { Statement::Null };
            lemma_stmt_independent(a.ctx, ts, a.arms, *e, e1, e2);
        }
    }
}

proof fn lemma_items_independent(ctx: LabelCtx, ts: Seq<Target>, arms: Seq<ArmSpec>, olds: Seq<BlockItem>, n1: Seq<BlockItem>, n2: Seq<BlockItem>)
    ensures
        same_outcome(label_items(ctx, ts, arms, olds, n1), label_items(ctx, ts, arms, olds, n2)),
    decreases olds, 1nat,
{
    if olds.len() > 0 {
        lemma_items_independent(ctx, ts, arms, olds.drop_last(), n1.drop_last(), n2.drop_last());
        let a = label_items(ctx, ts, arms, olds.drop_last(), n1.drop_last());
        lemma_item_independent(a.ctx, ts, a.arms, olds.last(), n1.last(), n2.last());
    }
}

proof fn lemma_item_independent(ctx: LabelCtx, ts: Seq<Target>, arms: Seq<ArmSpec>, old: BlockItem, n1: BlockItem, n2: BlockItem)
    ensures
        same_outcome(label_item(ctx, ts, arms, old, n1), label_item(ctx, ts, arms, old, n2)),
    decreases old, 1nat,
{
    match old {
        BlockItem::Statement(s) => lemma_stmt_independent(ctx, ts, arms, s, match n1 {
            BlockItem::Statement(n) => n,
            _ => Statement::Null,
        }, match n2 {
            BlockItem::Statement(n) => n,
            _ => Statement::Null,
        }),
        BlockItem::FunctionDeclaration(f) => lemma_function_independent(ctx, ts, arms, f, match n1 {
            BlockItem::FunctionDeclaration(n) => n,
            _ => f,
        }, match n2 {
            BlockItem::FunctionDeclaration(n) => n,
            _ => f,
        }),
        _ => {},
    }
}

proof fn lemma_function_independent(ctx: LabelCtx, ts: Seq<Target>, arms: Seq<ArmSpec>, old: FunctionDeclaration, n1: FunctionDeclaration, n2: FunctionDeclaration)
    ensures
        same_outcome(label_function(ctx, ts, arms, old, n1), label_function(ctx, ts, arms, old, n2)),
    decreases old, 1nat,
{
    if let Some(b) = old.body {
        lemma_items_independent(ctx, ts, arms, b.items@, match n1.body {
            Some(nb) => nb.items@,
            None => Seq::empty(),
        }, match n2.body {
            Some(nb) => nb.items@,
            None => Seq::empty(),
        });
    }
}

} // verus!

verus! {

/// Collected arms as the labeling sees them.
pub open spec fn arms_spec_of(a: Seq<(String, Option<TypedExpression>)>) -> Seq<ArmSpec> {
    a.map_values(|x: (String, Option<TypedExpression>)| (x.0@, x.1))
}

proof fn lemma_check_agree(a: Seq<(String, Option<TypedExpression>)>, b: Seq<ArmSpec>)
    requires
        arms_agree(a, b),
    ensures
        check_arms(arms_spec_of(a)) == check_arms(b),
    decreases a.len(),
{
    if a.len() > 0 {
        let a2 = a.drop_last();
        let b2 = b.drop_last();
        assert(arms_agree(a2, b2)) by {
            assert forall|i: int| 0 <= i < a2.len() implies #[trigger] a2[i].0@ == b2[i].0 by {
                assert(a2[i] == a[i]);
            }
            assert forall|i: int| 0 <= i < a2.len() implies match (#[trigger] a2[i].1, b2[i].1) {
                (Some(x), Some(y)) => same_expr(y, x),
                (None, None) => true,
                _ => false,
            } by {
                assert(a2[i] == a[i]);
            }
        }
        lemma_check_agree(a2, b2);
        assert(arms_spec_of(a).drop_last() =~= arms_spec_of(a2));
        let last = a.len() - 1;
        assert(a[last].0@ == b[last].0);
    }
}

proof fn lemma_check_stop(a: Seq<ArmSpec>, i: int)
    requires
        0 <= i <= a.len(),
        check_arms(a.subrange(0, i)).err is Some,
    ensures
        check_arms(a) == check_arms(a.subrange(0, i)),
    decreases a.len(),
{
    if i == a.len() {
        assert(a.subrange(0, i) =~= a);
    } else {
        assert(a.drop_last().subrange(0, i) =~= a.subrange(0, i));
        lemma_check_stop(a.drop_last(), i);
    }
}

enum TargetId {
    Loop(String),
    Switch(String),
}

impl View for TargetId {
    type V = Target;

    closed spec fn view(&self) -> Target {
        match self {
            TargetId::Loop(id) => Target::Loop(id@),
            TargetId::Switch(id) => Target::Switch(id@),
        }
    }
}

/// The statement a labeling gave back, or `null` when it failed.
pub open spec fn result_stmt(r: Result<Statement, String>) -> Statement {
    match r {
        Ok(s) => s,
        Err(_) => Statement::Null,
    }
}

pub open spec fn result_items(r: Result<Vec<BlockItem>, String>) -> Seq<BlockItem> {
    match r {
        Ok(v) => v@,
        Err(_) => Seq::empty(),
    }
}

/// Gives loops and switches unique ids, points `break` and `continue` at their targets, and
/// collects the case and default arms of every switch.
pub struct LoopLabeler {
    loop_id_generator: NameGenerator,
    switch_id_generator: NameGenerator,
    target_ids: Vec<TargetId>,
    arms: Vec<Vec<(String, Option<TypedExpression>)>>,
}

impl LoopLabeler {
    /// The id generators.
    pub closed spec fn ctx(&self) -> LabelCtx {
        LabelCtx { loops: self.loop_id_generator@, switches: self.switch_id_generator@ }
    }

    /// The loops and switches that enclose the current statement.
    pub closed spec fn targets(&self) -> Seq<Target> {
        self.target_ids@.map_values(|t: TargetId| t@)
    }

    /// The arms collected for the innermost switch.
    pub closed spec fn current_arms(&self) -> Seq<(String, Option<TypedExpression>)> {
        self.arms@.last()@
    }

    /// Whether the labeler can label: there is always a list of arms to add to.
    pub closed spec fn wf(&self) -> bool {
        self.arms@.len() >= 1
    }

    pub fn new() -> (l: Self)
        ensures
            l.wf(),
            l.ctx() == (LabelCtx {
                loops: super::name_generator::fresh_gen(super::name_generator::NameFormat::Loop),
                switches: super::name_generator::fresh_gen(super::name_generator::NameFormat::Switch),
            }),
            l.targets() == Seq::<Target>::empty(),
            l.current_arms() == Seq::<(String, Option<TypedExpression>)>::empty(),
    {
        let mut arms: Vec<Vec<(String, Option<TypedExpression>)>> = Vec::new();
        arms.push(Vec::new());
        let l = LoopLabeler {
            loop_id_generator: make_loop_id_generator(),
            switch_id_generator: make_switch_id_generator(),
            target_ids: Vec::new(),
            arms,
        };
        assert(l.targets() =~= Seq::<Target>::empty());
        l
    }

    fn break_target_id(&self) -> (r: Option<String>)
        ensures
            r is Some == break_target(self.targets()) is Some,
            r matches Some(id) ==> id@ == break_target(self.targets())->0,
    {
        let n = self.target_ids.len();
        if n == 0 {
            None
        } else {
            assert(self.targets().last() == self.target_ids@[n - 1]@);
            match &self.target_ids[n - 1] {
                TargetId::Loop(id) => Some(id.clone()),
                TargetId::Switch(id) => Some(id.clone()),
            }
        }
    }

    fn innermost_id(&self, want_loop: bool) -> (r: Option<String>)
        ensures
            want_loop ==> r is Some == innermost_loop(self.targets()) is Some,
            want_loop ==> (r matches Some(id) ==> id@ == innermost_loop(self.targets())->0),
            !want_loop ==> r is Some == innermost_switch(self.targets()) is Some,
            !want_loop ==> (r matches Some(id) ==> id@ == innermost_switch(self.targets())->0),
    {
        let ghost ts = self.targets();
        let mut k: usize = self.target_ids.len();
        assert(ts.subrange(0, k as int) =~= ts);
        while k > 0
            invariant
                k <= self.target_ids@.len(),
                ts == self.targets(),
                want_loop ==> innermost_loop(ts) == innermost_loop(ts.subrange(0, k as int)),
                !want_loop ==> innermost_switch(ts) == innermost_switch(ts.subrange(0, k as int)),
            decreases k,
        {
            let ghost sub = ts.subrange(0, k as int);
            assert(sub.drop_last() =~= ts.subrange(0, k as int - 1));
            assert(sub.last() == self.target_ids@[k - 1]@);
            match &self.target_ids[k - 1] {
                TargetId::Loop(id) => {
                    if want_loop {
                        return Some(id.clone());
                    }
                },
                TargetId::Switch(id) => {
                    if !want_loop {
                        return Some(id.clone());
                    }
                },
            }
            k = k - 1;
        }
        None
    }

    /// Adds an arm to the innermost switch's list.
    fn push_arm(&mut self, arm: (String, Option<TypedExpression>))
        requires
            old(self).wf(),
        ensures
            final(self).wf(),
            final(self).ctx() == old(self).ctx(),
            final(self).targets() == old(self).targets(),
            final(self).current_arms() == old(self).current_arms().push(arm),
            final(self).arms@.len() == old(self).arms@.len(),
            forall|i: int| 0 <= i < old(self).arms@.len() - 1 ==> final(self).arms@[i] == old(self).arms@[i],
    {
        let mut cur = self.arms.pop().unwrap();
        cur.push(arm);
        self.arms.push(cur);
    }

    #[verifier::loop_isolation(false)]
    fn validate_arms(arms: &Vec<(String, Option<TypedExpression>)>) -> (r: Result<(), String>)
        ensures
            r is Ok <==> check_arms(arms_spec_of(arms@)).err is None,
            r matches Err(m) ==> m@ == check_arms(arms_spec_of(arms@)).err->0,
    {
        let ghost a = arms_spec_of(arms@);
        let mut seen: Vec<i32> = Vec::new();
        let mut defaults: usize = 0;
        let mut i: usize = 0;
        assert(a.subrange(0, 0) =~= Seq::<ArmSpec>::empty());
        while i < arms.len()
            invariant
                i <= arms@.len(),
                a == arms_spec_of(arms@),
                check_arms(a.subrange(0, i as int)).err is None,
                defaults == check_arms(a.subrange(0, i as int)).defaults,
                defaults <= 1,
                forall|x: i32| seen@.contains(x) <==> check_arms(a.subrange(0, i as int)).seen.contains(x),
            decreases arms@.len() - i,
        {
            let ghost sub = a.subrange(0, i as int + 1);
            assert(sub.drop_last() =~= a.subrange(0, i as int));
            assert(sub.last() == a[i as int]);
            assert(a[i as int] == (arms@[i as int].0@, arms@[i as int].1));
            let ghost seen_before = seen@;
            match &arms[i].1 {
                Some(e) => match &e.0 {
                    Expression::IntegerConstant(v) => {
                        let mut j: usize = 0;
                        while j < seen.len()
                            invariant
                                j <= seen@.len(),
                                forall|k: int| 0 <= k < j ==> seen@[k] != *v,
                            decreases seen@.len() - j,
                        {
                            if seen[j] == *v {
                                assert(seen@.contains(*v));
                                proof {
                                    lemma_check_stop(a, i as int + 1);
                                }
                                return Err(string_of("case arm value is already used"));
                            }
                            j = j + 1;
                        }
                        assert(!seen@.contains(*v));
                        let ghost before = seen@;
                        seen.push(*v);
                        assert forall|x: i32| seen@.contains(x) <==> (before.contains(x) || x == *v) by {
                            if x == *v {
                                assert(seen@[seen@.len() - 1] == x);
                            }
                            if before.contains(x) {
                                let k = choose|k: int| 0 <= k < before.len() && before[k] == x;
                                assert(seen@[k] == x);
                            }
                            if seen@.contains(x) && x != *v {
                                let k = choose|k: int| 0 <= k < seen@.len() && seen@[k] == x;
                                assert(before[k] == x);
                            }
                        }
                        proof {
                            let c = check_arms(a.subrange(0, i as int));
                            assert(!c.seen.contains(*v));
                            assert(check_arms(sub).seen == c.seen.insert(*v));
                        }
                    },
                    _ => {
                        proof {
                            lemma_check_stop(a, i as int + 1);
                        }
                        return Err(string_of("case arm expression is not an integer"));
                    },
                },
                None => {
                    if defaults + 1 > 1 {
                        proof {
                            lemma_check_stop(a, i as int + 1);
                        }
                        return Err(string_of("not more than one default arm allowed"));
                    }
                    defaults = defaults + 1;
                    assert(check_arms(sub).seen == check_arms(a.subrange(0, i as int)).seen);
                },
            }
            assert forall|x: i32| seen@.contains(x) <==> check_arms(sub).seen.contains(x) by {
                assert(seen_before.contains(x) <==> check_arms(a.subrange(0, i as int)).seen.contains(x));
            }
            i = i + 1;
        }
        assert(a.subrange(0, a.len() as int) =~= a);
        Ok(())
    }
}

} // verus!

verus! {

proof fn lemma_pop_targets(ids: Seq<TargetId>)
    requires
        ids.len() > 0,
    ensures
        ids.drop_last().map_values(|t: TargetId| t@) == ids.map_values(|t: TargetId| t@).drop_last(),
{
    assert(ids.drop_last().map_values(|t: TargetId| t@) =~= ids.map_values(|t: TargetId| t@).drop_last());
}

proof fn lemma_items_stop(ctx: LabelCtx, ts: Seq<Target>, arms: Seq<ArmSpec>, olds: Seq<BlockItem>, k: int, n1: Seq<BlockItem>, n2: Seq<BlockItem>)
    requires
        0 <= k <= olds.len(),
        !label_items(ctx, ts, arms, olds.subrange(0, k), n1).ok,
    ensures
        same_outcome(label_items(ctx, ts, arms, olds, n2), label_items(ctx, ts, arms, olds.subrange(0, k), n1)),
    decreases olds.len(),
{
    if k == olds.len() {
        assert(olds.subrange(0, k) =~= olds);
        lemma_items_independent(ctx, ts, arms, olds, n1, n2);
    } else {
        let shorter = olds.drop_last();
        assert(shorter.subrange(0, k) =~= olds.subrange(0, k));
        lemma_items_stop(ctx, ts, arms, shorter, k, n1, n2.drop_last());
    }
}

fn case_label(switch_id: &String, cnt: usize) -> (r: String)
    ensures
        r@ == switch_id@ + ".case."@ + decimal(cnt as nat),
{
    let mut r = copy_string(switch_id);
    append_str(&mut r, ".case.");
    append_decimal(&mut r, cnt as u64);
    r
}

impl LoopLabeler {
    /// Whether this labeler is in the state a labeling that started in `before` and had outcome
    /// `o` leaves: the generators advanced, the same enclosing targets, the arms of the
    /// innermost switch as collected.
    pub closed spec fn settled(&self, before: LoopLabeler, o: LabelOut) -> bool {
        &&& self.wf()
        &&& self.ctx() == o.ctx
        &&& self.targets() == before.targets()
        &&& self.arms@.len() == before.arms@.len()
        &&& forall|i: int| 0 <= i < before.arms@.len() - 1 ==> self.arms@[i] == before.arms@[i]
        &&& arms_agree(self.current_arms(), o.arms)
    }

    fn label_stmt(&mut self, s: Statement, Ghost(arms): Ghost<Seq<ArmSpec>>) -> (r: Result<Statement, String>)
        requires
            old(self).wf(),
            arms_agree(old(self).current_arms(), arms),
        ensures
            ({
                let o = label_stmt(old(self).ctx(), old(self).targets(), arms, s, result_stmt(r));
                &&& (r is Ok <==> o.ok)
                &&& (r matches Err(m) ==> m@ == o.err)
                &&& (r is Ok ==> o.fits && final(self).settled(*old(self), o))
            }),
        decreases s, 1nat,
    {
        if matches!(s, Statement::While { .. } | Statement::DoWhile { .. } | Statement::For { .. }) {
            return self.label_loop(s, Ghost(arms));
        }
        if matches!(s, Statement::SwitchStatement { .. }) {
            return self.label_switch(s, Ghost(arms));
        }
        if matches!(s, Statement::LabeledStatement { .. }) {
            return self.label_labeled(s, Ghost(arms));
        }
        if matches!(s, Statement::IfStatement { .. }) {
            return self.label_if(s, Ghost(arms));
        }
        match s {
            Statement::Break { .. } => match self.break_target_id() {
                Some(id) => Ok(Statement::Break { loop_id: id }),
                None => Err(string_of("break statement not inside a loop or a switch statement")),
            },
            Statement::Continue { .. } => match self.innermost_id(true) {
                Some(id) => Ok(Statement::Continue { loop_id: id }),
                None => Err(string_of("not inside a loop")),
            },
            Statement::CompoundStatement(block) => {
                let ghost b = block;
                match self.label_items(block.items, Ghost(arms)) {
                    Ok(items) => Ok(Statement::CompoundStatement(Block { items })),
                    Err(m) => Err(m),
                }
            },
            other => Ok(other),
        }
    }

    fn label_loop(&mut self, s: Statement, Ghost(arms): Ghost<Seq<ArmSpec>>) -> (r: Result<Statement, String>)
        requires
            old(self).wf(),
            arms_agree(old(self).current_arms(), arms),
            s is While || s is DoWhile || s is For,
        ensures
            ({
                let o = label_loop(old(self).ctx(), old(self).targets(), arms, s, result_stmt(r));
                &&& (r is Ok <==> o.ok)
                &&& (r matches Err(m) ==> m@ == o.err)
                &&& (r is Ok ==> o.fits && final(self).settled(*old(self), o))
            }),
        decreases s, 0nat,
    {
        let ghost before = *self;
        let id = self.loop_id_generator.make_unique_name("");
        proof {
            reveal_strlit("");
        }
        assert(""@ =~= Seq::<char>::empty());
        let ghost ts0 = self.targets();
        self.target_ids.push(TargetId::Loop(id.clone()));
        assert(self.targets() =~= ts0.push(Target::Loop(id@)));
        match s {
            Statement::While { loop_id: _, condition, body } => {
                let r = self.label_stmt(*body, Ghost(arms));
                match r {
                    Ok(nb) => {
                        let ghost ids = self.target_ids@;
                        self.target_ids.pop();
                        proof {
                            lemma_pop_targets(ids);
                        }
                        assert(self.targets() =~= ts0);
                        Ok(Statement::While { loop_id: id, condition, body: Box::new(nb) })
                    },
                    Err(m) => Err(m),
                }
            },
            Statement::DoWhile { loop_id: _, condition, body } => {
                let r = self.label_stmt(*body, Ghost(arms));
                match r {
                    Ok(nb) => {
                        let ghost ids = self.target_ids@;
                        self.target_ids.pop();
                        proof {
                            lemma_pop_targets(ids);
                        }
                        assert(self.targets() =~= ts0);
                        Ok(Statement::DoWhile { loop_id: id, condition, body: Box::new(nb) })
                    },
                    Err(m) => Err(m),
                }
            },
            Statement::For { loop_id: _, init, condition, post, body } => {
                let r = self.label_stmt(*body, Ghost(arms));
                match r {
                    Ok(nb) => {
                        let ghost ids = self.target_ids@;
                        self.target_ids.pop();
                        proof {
                            lemma_pop_targets(ids);
                        }
                        assert(self.targets() =~= ts0);
                        Ok(Statement::For { loop_id: id, init, condition, post, body: Box::new(nb) })
                    },
                    Err(m) => Err(m),
                }
            },
            other => Ok(other),
        }
    }

    fn label_switch(&mut self, s: Statement, Ghost(arms): Ghost<Seq<ArmSpec>>) -> (r: Result<Statement, String>)
        requires
            old(self).wf(),
            arms_agree(old(self).current_arms(), arms),
            s is SwitchStatement,
        ensures
            ({
                let o = label_switch(old(self).ctx(), old(self).targets(), arms, s, result_stmt(r));
                &&& (r is Ok <==> o.ok)
                &&& (r matches Err(m) ==> m@ == o.err)
                &&& (r is Ok ==> o.fits && final(self).settled(*old(self), o))
            }),
        decreases s, 0nat,
    {
        let ghost before = *self;
        let id = self.switch_id_generator.make_unique_name("");
        proof {
            reveal_strlit("");
        }
        assert(""@ =~= Seq::<char>::empty());
        let ghost ts0 = self.targets();
        self.target_ids.push(TargetId::Switch(id.clone()));
        assert(self.targets() =~= ts0.push(Target::Switch(id@)));
        self.arms.push(Vec::new());
        assert(arms_agree(self.current_arms(), Seq::empty()));
        match s {
            Statement::SwitchStatement { switch_id: _, condition, body, arms: _ } => {
                let r = self.label_stmt(*body, Ghost(Seq::empty()));
                match r {
                    Ok(nb) => {
                        let ghost sub = label_stmt(
                            LabelCtx { loops: before.ctx().loops, switches: gen_next(before.ctx().switches, Seq::empty()).0 },
                            ts0.push(Target::Switch(id@)),
                            Seq::empty(),
                            *body,
                            nb,
                        );
                        let collected = self.arms.pop().unwrap();
                        proof {
                            lemma_check_agree(collected@, sub.arms);
                        }
                        match Self::validate_arms(&collected) {
                            Ok(()) => {
                                let ghost ids = self.target_ids@;
                                self.target_ids.pop();
                                proof {
                                    lemma_pop_targets(ids);
                                }
                                assert(self.targets() =~= ts0);
                                assert(self.arms@ =~= before.arms@);
                                Ok(Statement::SwitchStatement { switch_id: id, condition, body: Box::new(nb), arms: collected })
                            },
                            Err(m) => {
                                proof {
                                    lemma_stmt_independent(
                                        LabelCtx { loops: before.ctx().loops, switches: gen_next(before.ctx().switches, Seq::empty()).0 },
                                        ts0.push(Target::Switch(id@)),
                                        Seq::empty(),
                                        *body,
                                        nb,
                                        Statement::Null,
                                    );
                                }
                                Err(m)
                            },
                        }
                    },
                    Err(m) => Err(m),
                }
            },
            other => Ok(other),
        }
    }
}

} // verus!

verus! {

impl LoopLabeler {
    fn label_labeled(&mut self, s: Statement, Ghost(arms): Ghost<Seq<ArmSpec>>) -> (r: Result<Statement, String>)
        requires
            old(self).wf(),
            arms_agree(old(self).current_arms(), arms),
            s is LabeledStatement,
        ensures
            ({
                let o = label_labeled(old(self).ctx(), old(self).targets(), arms, s, result_stmt(r));
                &&& (r is Ok <==> o.ok)
                &&& (r matches Err(m) ==> m@ == o.err)
                &&& (r is Ok ==> o.fits && final(self).settled(*old(self), o))
            }),
        decreases s, 0nat,
    {
        let ghost before = *self;
        match s {
            Statement::LabeledStatement { label, statement } => {
                let ghost old_label = label;
                let new_label = match label {
                    Label::Case { case_id: _, value } => {
                        let switch_id = match self.innermost_id(false) {
                            Some(id) => id,
                            None => return Err(string_of("not inside a switch statement")),
                        };
                        let len = self.arms[self.arms.len() - 1].len();
                        let cnt = if len < usize::MAX { len + 1 } else { len };
                        let case_id = case_label(&switch_id, cnt);
                        let copy = value.duplicate();
                        self.push_arm((case_id.clone(), Some(copy)));
                        Label::Case { case_id, value }
                    },
                    Label::Default { default_id: _ } => {
                        let switch_id = match self.innermost_id(false) {
                            Some(id) => id,
                            None => return Err(string_of("not inside a switch statement")),
                        };
                        let mut default_id = copy_string(&switch_id);
                        append_str(&mut default_id, ".default");
                        self.push_arm((default_id.clone(), None));
                        Label::Default { default_id }
                    },
                    other => other,
                };
                let ghost arms2 = match old_label {
                    Label::Case { value, .. } => arms.push((innermost_switch(before.targets())->0 + ".case."@ + decimal(arm_number(arms.len())), Some(value))),
                    Label::Default { .. } => arms.push((innermost_switch(before.targets())->0 + ".default"@, None)),
                    Label::Label(_) => arms,
                };
                assert(arms_agree(self.current_arms(), arms2)) by {
                    if !(old_label is Label) {
                        let a = self.current_arms();
                        assert forall|i: int| 0 <= i < a.len() implies #[trigger] a[i].0@ == arms2[i].0 && match (a[i].1, arms2[i].1) {
                            (Some(x), Some(y)) => same_expr(y, x),
                            (None, None) => true,
                            _ => false,
                        } by {
                            if i < a.len() - 1 {
                                assert(a[i] == before.current_arms()[i]);
                            }
                        }
                    }
                }
                match self.label_stmt(*statement, Ghost(arms2)) {
                    Ok(ns) => Ok(Statement::LabeledStatement { label: new_label, statement: Box::new(ns) }),
                    Err(m) => Err(m),
                }
            },
            other => Ok(other),
        }
    }

    fn label_if(&mut self, s: Statement, Ghost(arms): Ghost<Seq<ArmSpec>>) -> (r: Result<Statement, String>)
        requires
            old(self).wf(),
            arms_agree(old(self).current_arms(), arms),
            s is IfStatement,
        ensures
            ({
                let o = label_if(old(self).ctx(), old(self).targets(), arms, s, result_stmt(r));
                &&& (r is Ok <==> o.ok)
                &&& (r matches Err(m) ==> m@ == o.err)
                &&& (r is Ok ==> o.fits && final(self).settled(*old(self), o))
            }),
        decreases s, 0nat,
    {
        let ghost before = *self;
        match s {
            Statement::IfStatement { condition, then_branch, else_branch } => {
                let nt = match self.label_stmt(*then_branch, Ghost(arms)) {
                    Ok(n) => n,
                    Err(m) => return Err(m),
                };
                let ghost a = label_stmt(before.ctx(), before.targets(), arms, *then_branch, nt);
                match else_branch {
                    Some(e) => match self.label_stmt(*e, Ghost(a.arms)) {
                        Ok(ne) => Ok(Statement::IfStatement { condition, then_branch: Box::new(nt), else_branch: Some(Box::new(ne)) }),
                        Err(m) => {
                            proof {
                                lemma_stmt_independent(before.ctx(), before.targets(), arms, *then_branch, nt, Statement::Null);
                            }
                            Err(m)
                        },
                    },
                    None => Ok(Statement::IfStatement { condition, then_branch: Box::new(nt), else_branch: None }),
                }
            },
            other => Ok(other),
        }
    }

    #[verifier::loop_isolation(false)]
    fn label_items(&mut self, items: Vec<BlockItem>, Ghost(arms): Ghost<Seq<ArmSpec>>) -> (r: Result<Vec<BlockItem>, String>)
        requires
            old(self).wf(),
            arms_agree(old(self).current_arms(), arms),
        ensures
            ({
                let o = label_items(old(self).ctx(), old(self).targets(), arms, items@, result_items(r));
                &&& (r is Ok <==> o.ok)
                &&& (r matches Err(m) ==> m@ == o.err)
                &&& (r is Ok ==> o.fits && final(self).settled(*old(self), o))
            }),
        decreases items, 1nat,
    {
        let ghost before = *self;
        let ghost olds = items@;
        let ghost items_g = items;
        assert(items@.len() == items.len());
        let mut rest = items;
        let mut out: Vec<BlockItem> = Vec::new();
        let mut i: usize = 0;
        assert(olds.subrange(0, 0) =~= Seq::<BlockItem>::empty());
        assert(rest@ =~= olds.subrange(0, olds.len() as int));
        assert(self.settled(before, label_items(before.ctx(), before.targets(), arms, olds.subrange(0, 0), out@)));
        while rest.len() > 0
            invariant
                olds == items_g@,
                olds.len() <= usize::MAX,
                i + rest@.len() == olds.len(),
                rest@ == olds.subrange(i as int, olds.len() as int),
                out@.len() == i,
                label_items(before.ctx(), before.targets(), arms, olds.subrange(0, i as int), out@).ok,
                label_items(before.ctx(), before.targets(), arms, olds.subrange(0, i as int), out@).fits,
                self.settled(before, label_items(before.ctx(), before.targets(), arms, olds.subrange(0, i as int), out@)),
            decreases rest@.len(),
        {
            let ghost o = label_items(before.ctx(), before.targets(), arms, olds.subrange(0, i as int), out@);
            let item = rest.remove(0);
            proof {
                assert(item == olds[i as int]);
                vstd::std_specs::vec::axiom_vec_index_decreases(items_g, i as int);
                assert(decreases_to!(items_g => item));
            }
            let ghost sub = olds.subrange(0, i as int + 1);
            assert(sub.drop_last() =~= olds.subrange(0, i as int));
            assert(sub.last() == olds[i as int]);
            let ghost before_item = *self;
            match self.label_item(item, Ghost(o.arms)) {
                Ok(n) => {
                    let ghost prev = out@;
                    out.push(n);
                    assert(out@.drop_last() =~= prev);
                    assert(rest@ =~= olds.subrange(i as int + 1, olds.len() as int));
                },
                Err(m) => {
                    proof {
                        let n1 = prev_push_dummy(out@);
                        assert(n1.drop_last() =~= out@);
                        assert(n1.last() == BlockItem::Statement(Statement::Null));
                        lemma_items_stop(before.ctx(), before.targets(), arms, olds, i as int + 1, out@.push(BlockItem::Statement(Statement::Null)), Seq::empty());
                    }
                    return Err(m);
                },
            }
            i = i + 1;
        }
        assert(olds.subrange(0, olds.len() as int) =~= olds);
        Ok(out)
    }

    fn label_item(&mut self, item: BlockItem, Ghost(arms): Ghost<Seq<ArmSpec>>) -> (r: Result<BlockItem, String>)
        requires
            old(self).wf(),
            arms_agree(old(self).current_arms(), arms),
        ensures
            ({
                let o = label_item(old(self).ctx(), old(self).targets(), arms, item, match r {
                    Ok(n) => n,
                    Err(_) => BlockItem::Statement(Statement::Null),
                });
                &&& (r is Ok <==> o.ok)
                &&& (r matches Err(m) ==> m@ == o.err)
                &&& (r is Ok ==> o.fits && final(self).settled(*old(self), o))
            }),
        decreases item, 1nat,
    {
        match item {
            BlockItem::Statement(s) => match self.label_stmt(s, Ghost(arms)) {
                Ok(n) => Ok(BlockItem::Statement(n)),
                Err(m) => Err(m),
            },
            BlockItem::FunctionDeclaration(f) => {
                let ghost fg = f;
                match self.label_function(f, Ghost(arms)) {
                    Ok(n) => Ok(BlockItem::FunctionDeclaration(n)),
                    Err(m) => {
                        proof {
                            lemma_function_independent(old(self).ctx(), old(self).targets(), arms, fg, fg, fg);
                        }
                        Err(m)
                    },
                }
            },
            other => Ok(other),
        }
    }

    fn label_function(&mut self, f: FunctionDeclaration, Ghost(arms): Ghost<Seq<ArmSpec>>) -> (r: Result<FunctionDeclaration, String>)
        requires
            old(self).wf(),
            arms_agree(old(self).current_arms(), arms),
        ensures
            ({
                let o = label_function(old(self).ctx(), old(self).targets(), arms, f, match r {
                    Ok(n) => n,
                    Err(_) => f,
                });
                &&& (r is Ok <==> o.ok)
                &&& (r matches Err(m) ==> m@ == o.err)
                &&& (r is Ok ==> o.fits && final(self).settled(*old(self), o))
            }),
        decreases f, 1nat,
    {
        let ghost fg = f;
        let FunctionDeclaration { name, parameters, body, storage_class, func_type } = f;
        match body {
            Some(b) => {
                let ghost bg = b;
                match self.label_items(b.items, Ghost(arms)) {
                    Ok(items) => Ok(FunctionDeclaration { name, parameters, body: Some(Block { items }), storage_class, func_type }),
                    Err(m) => {
                        proof {
                            lemma_items_independent(old(self).ctx(), old(self).targets(), arms, bg.items@, Seq::empty(), bg.items@);
                        }
                        Err(m)
                    },
                }
            },
            None => Ok(FunctionDeclaration { name, parameters, body: None, storage_class, func_type }),
        }
    }
}

pub open spec fn prev_push_dummy(s: Seq<BlockItem>) -> Seq<BlockItem> {
    s.push(BlockItem::Statement(Statement::Null))
}

} // verus!

verus! {

/// Labeling the declarations of a program in order: the bodies of its functions.
pub open spec fn label_decls(ctx: LabelCtx, arms: Seq<ArmSpec>, olds: Seq<Declaration>, news: Seq<Declaration>) -> LabelOut
    decreases olds.len(),
{
    if olds.len() == 0 {
        LabelOut { ok: true, err: Seq::empty(), ctx, arms, fits: news.len() == 0 }
    } else {
        let a = label_decls(ctx, arms, olds.drop_last(), news.drop_last());
        if !a.ok {
            a
        } else {
            let b = match olds.last() {
                Declaration::FunctionDecl(f) => {
                    let o = label_function(a.ctx, Seq::empty(), a.arms, f, match news.last() {
                        Declaration::FunctionDecl(n) => n,
                        _ => f,
                    });
                    LabelOut { fits: o.fits && news.last() is FunctionDecl, ..o }
                },
                Declaration::VarDecl(_) => LabelOut { ok: true, err: Seq::empty(), ctx: a.ctx, arms: a.arms, fits: news.last() == olds.last() },
            };
            if !b.ok {
                b
            } else {
                LabelOut { fits: a.fits && b.fits && news.len() == olds.len(), ..b }
            }
        }
    }
}

proof fn lemma_decls_stop(ctx: LabelCtx, arms: Seq<ArmSpec>, olds: Seq<Declaration>, k: int, n1: Seq<Declaration>, n2: Seq<Declaration>)
    requires
        0 <= k <= olds.len(),
        !label_decls(ctx, arms, olds.subrange(0, k), n1).ok,
    ensures
        same_outcome(label_decls(ctx, arms, olds, n2), label_decls(ctx, arms, olds.subrange(0, k), n1)),
    decreases olds.len(),
{
    if k == olds.len() {
        assert(olds.subrange(0, k) =~= olds);
        lemma_decls_independent(ctx, arms, olds, n1, n2);
    } else {
        let shorter = olds.drop_last();
        assert(shorter.subrange(0, k) =~= olds.subrange(0, k));
        lemma_decls_stop(ctx, arms, shorter, k, n1, n2.drop_last());
    }
}

proof fn lemma_decls_independent(ctx: LabelCtx, arms: Seq<ArmSpec>, olds: Seq<Declaration>, n1: Seq<Declaration>, n2: Seq<Declaration>)
    ensures
        same_outcome(label_decls(ctx, arms, olds, n1), label_decls(ctx, arms, olds, n2)),
    decreases olds.len(),
{
    if olds.len() > 0 {
        lemma_decls_independent(ctx, arms, olds.drop_last(), n1.drop_last(), n2.drop_last());
        let a = label_decls(ctx, arms, olds.drop_last(), n1.drop_last());
        if let Declaration::FunctionDecl(f) = olds.last() {
            lemma_function_independent(a.ctx, Seq::empty(), a.arms, f, match n1.last() {
                Declaration::FunctionDecl(n) => n,
                _ => f,
            }, match n2.last() {
                Declaration::FunctionDecl(n) => n,
                _ => f,
            });
        }
    }
}

/// What failed labeling leaves of a program: the declarations before the failing one (the
/// `k`th) labeled, that one and the later ones as they were.
pub open spec fn loops_left(ctx: LabelCtx, olds: Seq<Declaration>, news: Seq<Declaration>, k: int) -> bool {
    &&& 0 <= k < olds.len()
    &&& news.len() == olds.len()
    &&& label_decls(ctx, Seq::empty(), olds.subrange(0, k), news.subrange(0, k)).ok
    &&& label_decls(ctx, Seq::empty(), olds.subrange(0, k), news.subrange(0, k)).fits
    &&& !label_decls(ctx, Seq::empty(), olds.subrange(0, k + 1), news.subrange(0, k + 1)).ok
    &&& decls_view(news.subrange(k, news.len() as int)) == decls_view(olds.subrange(k, olds.len() as int))
}

impl LoopLabeler {
    /// Labels the loops, switches, `break`s, `continue`s and switch arms of a program. On
    /// error the declarations before the failing one stay labeled, and that one and the later
    /// ones stay as they were.
    pub fn label_loops(&mut self, program: &mut Program) -> (r: Result<(), String>)
        requires
            old(self).wf(),
            old(self).targets().len() == 0,
            old(self).current_arms().len() == 0,
        ensures
            ({
                let o = label_decls(old(self).ctx(), Seq::empty(), old(program).decls@, final(program).decls@);
                &&& (r is Ok <==> o.ok)
                &&& (r matches Err(m) ==> m@ == o.err)
                &&& (r is Ok ==> o.fits && final(self).wf() && final(self).ctx() == o.ctx
                    && final(self).targets().len() == 0)
                &&& (r is Err ==> exists|k: int| #[trigger] loops_left(old(self).ctx(), old(program).decls@, final(program).decls@, k))
            }),
    {
        let ghost before = *self;
        let ghost olds = program.decls@;
        assert(program.decls@.len() == program.decls.len());
        let mut rest: Vec<Declaration> = Vec::new();
        std::mem::swap(&mut rest, &mut program.decls);
        let mut out: Vec<Declaration> = Vec::new();
        let mut i: usize = 0;
        assert(olds.subrange(0, 0) =~= Seq::<Declaration>::empty());
        assert(rest@ =~= olds.subrange(0, olds.len() as int));
        assert(arms_agree(self.current_arms(), Seq::empty()));
        assert(self.settled(before, label_decls(before.ctx(), Seq::empty(), olds.subrange(0, 0), out@)));
        while rest.len() > 0
            invariant
                before == *old(self),
                olds == old(program).decls@,
                program.decls@.len() == 0,
                olds.len() <= usize::MAX,
                i + rest@.len() == olds.len(),
                rest@ == olds.subrange(i as int, olds.len() as int),
                out@.len() == i,
                before.targets().len() == 0,
                label_decls(before.ctx(), Seq::empty(), olds.subrange(0, i as int), out@).ok,
                label_decls(before.ctx(), Seq::empty(), olds.subrange(0, i as int), out@).fits,
                self.settled(before, label_decls(before.ctx(), Seq::empty(), olds.subrange(0, i as int), out@)),
            decreases rest@.len(),
        {
            let ghost o = label_decls(before.ctx(), Seq::empty(), olds.subrange(0, i as int), out@);
            let decl = rest.remove(0);
            assert(decl == olds[i as int]);
            let ghost sub = olds.subrange(0, i as int + 1);
            assert(sub.drop_last() =~= olds.subrange(0, i as int));
            assert(sub.last() == olds[i as int]);
            let kept = copy_decl(&decl);
            match decl {
                Declaration::FunctionDecl(f) => {
                    let ghost fg = f;
                    assert(self.targets() =~= Seq::<Target>::empty());
                    match self.label_function(f, Ghost(o.arms)) {
                        Ok(n) => {
                            let ghost prev = out@;
                            out.push(Declaration::FunctionDecl(n));
                            assert(out@.drop_last() =~= prev);
                        },
                        Err(m) => {
                            let ghost out_g = out@;
                            let ghost rest_g = rest@;
                            let ghost kept_g = kept;
                            program.decls = restore_decls(out, kept, rest);
                            proof {
                                let n1 = out_g.push(Declaration::FunctionDecl(fg));
                                assert(n1.drop_last() =~= out_g);
                                lemma_decls_stop(before.ctx(), Seq::empty(), olds, i as int + 1, n1, program.decls@);
                                let news = program.decls@;
                                assert(news.subrange(0, i as int) =~= out_g);
                                assert(news.subrange(0, i as int + 1) =~= out_g.push(kept_g));
                                lemma_decls_independent(before.ctx(), Seq::empty(), olds.subrange(0, i as int + 1), n1, news.subrange(0, i as int + 1));
                                assert(rest_g =~= olds.subrange(i as int + 1, olds.len() as int));
                                assert(news.subrange(i as int, news.len() as int) =~= seq![kept_g] + rest_g);
                                assert(olds.subrange(i as int, olds.len() as int) =~= seq![olds[i as int]] + rest_g);
                                assert(decls_view(seq![kept_g] + rest_g) =~= decls_view(seq![olds[i as int]] + rest_g));
                                assert(loops_left(before.ctx(), olds, news, i as int));
                            }
                            return Err(m);
                        },
                    }
                },
                Declaration::VarDecl(d) => {
                    let ghost prev = out@;
                    out.push(Declaration::VarDecl(d));
                    assert(out@.drop_last() =~= prev);
                },
            }
            assert(rest@ =~= olds.subrange(i as int + 1, olds.len() as int));
            i = i + 1;
        }
        assert(olds.subrange(0, olds.len() as int) =~= olds);
        program.decls = out;
        Ok(())
    }
}

} // verus!
