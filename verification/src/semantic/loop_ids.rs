use vstd::prelude::*;

use crate::ast::{BlockItem, Declaration, FunctionDeclaration, Statement};
use crate::semantic::loop_labeler;
use crate::semantic::loop_labeler::{ArmSpec, LabelCtx, Target};
use crate::semantic::name_generator::{format_name, gen_next, GenView, NameFormat};
use crate::util::{decimal, lemma_decimal_digits};

verus! {

/// Whether every loop, switch, `break` and `continue` in a statement carries an id that is
/// not empty.
pub open spec fn stmt_ids_named(s: Statement) -> bool
    decreases s, 1nat,
{
    match s {
        Statement::Break { loop_id } => loop_id@.len() > 0,
        Statement::Continue { loop_id } => loop_id@.len() > 0,
        Statement::While { loop_id, body, .. } => loop_id@.len() > 0 && stmt_ids_named(*body),
        Statement::DoWhile { loop_id, body, .. } => loop_id@.len() > 0 && stmt_ids_named(*body),
        Statement::For { loop_id, body, .. } => loop_id@.len() > 0 && stmt_ids_named(*body),
        Statement::SwitchStatement { switch_id, body, .. } => switch_id@.len() > 0 && stmt_ids_named(*body),
        Statement::LabeledStatement { statement, .. } => stmt_ids_named(*statement),
        Statement::IfStatement { then_branch, else_branch, .. } => stmt_ids_named(*then_branch) && match else_branch {
            Some(e) => stmt_ids_named(*e),
            None => true,
        },
        Statement::CompoundStatement(b) => items_ids_named(b.items@),
        _ => true,
    }
}

/// What [`stmt_ids_named`] says, said of every item of a block.
pub open spec fn items_ids_named(items: Seq<BlockItem>) -> bool
    decreases items, 1nat,
{
    if items.len() == 0 {
        true
    } else {
        items_ids_named(items.drop_last()) && match items.last() {
            BlockItem::Statement(s) => stmt_ids_named(s),
            BlockItem::FunctionDeclaration(f) => function_ids_named(f),
            BlockItem::VarDeclaration(_) => true,
        }
    }
}

/// What [`stmt_ids_named`] says, said of the body of a function, if it has one.
pub open spec fn function_ids_named(f: FunctionDeclaration) -> bool
    decreases f, 1nat,
{
    match f.body {
        Some(b) => items_ids_named(b.items@),
        None => true,
    }
}

/// Whether every loop and switch that `break` or `continue` can leave has an id that is not
/// empty.
pub open spec fn targets_named(ts: Seq<Target>) -> bool {
    forall|i: int|
        #![trigger ts[i]]
        0 <= i < ts.len() ==> match ts[i] {
            Target::Loop(id) => id.len() > 0,
            Target::Switch(id) => id.len() > 0,
        }
}

/// Every name a generator hands out has at least one character.
proof fn lemma_generated_name_not_empty(g: GenView, name: Seq<char>)
    ensures
        gen_next(g, name).1.len() > 0,
{
    let c = g.counts[name];
    lemma_decimal_digits(c);
    assert(decimal(c).len() >= 0);
    match g.format {
        NameFormat::Var => assert(format_name(g.format, name, c).len() >= 4),
        NameFormat::Temp => assert(format_name(g.format, name, c).len() >= 4),
        NameFormat::Label => assert(format_name(g.format, name, c).len() >= 1),
        NameFormat::Loop => assert(format_name(g.format, name, c).len() >= 5),
        NameFormat::Switch => assert(format_name(g.format, name, c).len() >= 7),
    }
}

proof fn lemma_innermost_loop_named(ts: Seq<Target>)
    requires
        targets_named(ts),
    ensures
        loop_labeler::innermost_loop(ts) matches Some(id) ==> id.len() > 0,
    decreases ts.len(),
{
    if ts.len() > 0 {
        assert(ts.drop_last().len() == ts.len() - 1);
        assert forall|i: int| #![trigger ts.drop_last()[i]] 0 <= i < ts.drop_last().len() implies match ts.drop_last()[i] {
            Target::Loop(id) => id.len() > 0,
            Target::Switch(id) => id.len() > 0,
        } by {
            assert(ts.drop_last()[i] == ts[i]);
        }
        lemma_innermost_loop_named(ts.drop_last());
        assert(ts.last() == ts[ts.len() - 1]);
    }
}

proof fn lemma_push_named(ts: Seq<Target>, t: Target)
    requires
        targets_named(ts),
        match t {
            Target::Loop(id) => id.len() > 0,
            Target::Switch(id) => id.len() > 0,
        },
    ensures
        targets_named(ts.push(t)),
{
    assert forall|i: int| #![trigger ts.push(t)[i]] 0 <= i < ts.push(t).len() implies match ts.push(t)[i] {
        Target::Loop(id) => id.len() > 0,
        Target::Switch(id) => id.len() > 0,
    } by {
        if i < ts.len() {
            assert(ts.push(t)[i] == ts[i]);
        }
    }
}

/// Labeling loops and switches gives every loop, switch, `break` and `continue` of a
/// statement an id that is not empty.
proof fn lemma_stmt_ids(ctx: LabelCtx, ts: Seq<Target>, arms: Seq<ArmSpec>, old: Statement, new: Statement)
    requires
        targets_named(ts),
        loop_labeler::label_stmt(ctx, ts, arms, old, new).ok,
        loop_labeler::label_stmt(ctx, ts, arms, old, new).fits,
    ensures
        stmt_ids_named(new),
    decreases old, 1nat,
{
    match old {
        Statement::Break { .. } => {
            assert(ts.last() == ts[ts.len() - 1]);
        },
        Statement::Continue { .. } => {
            lemma_innermost_loop_named(ts);
        },
        Statement::While { body, .. } | Statement::DoWhile { body, .. } | Statement::For { body, .. } => {
            let (g, id) = gen_next(ctx.loops, Seq::empty());
            lemma_generated_name_not_empty(ctx.loops, Seq::empty());
            lemma_push_named(ts, Target::Loop(id));
            lemma_stmt_ids(
                LabelCtx { loops: g, switches: ctx.switches },
                ts.push(Target::Loop(id)),
                arms,
                *body,
                loop_labeler::body_of(new),
            );
        },
        Statement::SwitchStatement { body, .. } => {
            let (g, id) = gen_next(ctx.switches, Seq::empty());
            lemma_generated_name_not_empty(ctx.switches, Seq::empty());
            lemma_push_named(ts, Target::Switch(id));
            lemma_stmt_ids(
                LabelCtx { loops: ctx.loops, switches: g },
                ts.push(Target::Switch(id)),
                Seq::empty(),
                *body,
                loop_labeler::body_of(new),
            );
        },
        Statement::LabeledStatement { label, statement } => {
            let arms2 = match label {
                crate::ast::Label::Case { value, .. } => arms.push(
                    (loop_labeler::innermost_switch(ts)->0 + ".case."@ + decimal(
                        loop_labeler::arm_number(arms.len()),
                    ), Some(value)),
                ),
                crate::ast::Label::Default { .. } => arms.push(
                    (loop_labeler::innermost_switch(ts)->0 + ".default"@, None),
                ),
                crate::ast::Label::Label(_) => arms,
            };
            lemma_stmt_ids(ctx, ts, arms2, *statement, loop_labeler::body_of(new));
        },
        Statement::IfStatement { then_branch, else_branch, .. } => {
            let a = loop_labeler::label_stmt(ctx, ts, arms, *then_branch, loop_labeler::body_of(new));
            lemma_stmt_ids(ctx, ts, arms, *then_branch, loop_labeler::body_of(new));
            match else_branch {
                Some(e) => {
                    lemma_stmt_ids(a.ctx, ts, a.arms, *e, loop_labeler::else_of(new));
                },
                None => {},
            }
        },
        Statement::CompoundStatement(b) => {
            lemma_items_ids(ctx, ts, arms, b.items@, loop_labeler::items_of(new));
        },
        _ => {},
    }
}

/// What [`lemma_stmt_ids`] shows of a statement, shown of the items of a block.
proof fn lemma_items_ids(ctx: LabelCtx, ts: Seq<Target>, arms: Seq<ArmSpec>, olds: Seq<BlockItem>, news: Seq<BlockItem>)
    requires
        targets_named(ts),
        loop_labeler::label_items(ctx, ts, arms, olds, news).ok,
        loop_labeler::label_items(ctx, ts, arms, olds, news).fits,
    ensures
        items_ids_named(news),
    decreases olds, 1nat,
{
    if olds.len() > 0 {
        let a = loop_labeler::label_items(ctx, ts, arms, olds.drop_last(), news.drop_last());
        let b = loop_labeler::label_item(a.ctx, ts, a.arms, olds.last(), news.last());
        assert(a.ok && a.fits && b.ok && b.fits && news.len() == olds.len());
        lemma_items_ids(ctx, ts, arms, olds.drop_last(), news.drop_last());
        match olds.last() {
            BlockItem::Statement(s) => {
                let n = match news.last() {
                    BlockItem::Statement(n) => n,
                    _ => Statement::Null,
                };
                assert(loop_labeler::label_stmt(a.ctx, ts, a.arms, s, n).ok);
                lemma_stmt_ids(a.ctx, ts, a.arms, s, n);
                assert(news.last() == BlockItem::Statement(n));
            },
            BlockItem::FunctionDeclaration(f) => {
                let n = match news.last() {
                    BlockItem::FunctionDeclaration(n) => n,
                    _ => f,
                };
                lemma_function_ids(a.ctx, ts, a.arms, f, n);
                assert(news.last() == BlockItem::FunctionDeclaration(n));
            },
            BlockItem::VarDeclaration(_) => {
                assert(news.last() == olds.last());
            },
        }
    } else {
        assert(news.len() == 0);
    }
}

/// What [`lemma_stmt_ids`] shows of a statement, shown of a function's body.
proof fn lemma_function_ids(ctx: LabelCtx, ts: Seq<Target>, arms: Seq<ArmSpec>, old: FunctionDeclaration, new: FunctionDeclaration)
    requires
        targets_named(ts),
        loop_labeler::label_function(ctx, ts, arms, old, new).ok,
        loop_labeler::label_function(ctx, ts, arms, old, new).fits,
    ensures
        function_ids_named(new),
    decreases old, 0nat,
{
    match old.body {
        Some(b) => {
            let nb = new.body->0;
            lemma_items_ids(ctx, ts, arms, b.items@, nb.items@);
        },
        None => {},
    }
}

/// Law: after loop labeling succeeds (as it does in a successful validation), every loop,
/// switch, `break` and `continue` of every function carries an id that is not empty.
pub proof fn law_labeled_ids_not_empty(ctx: LabelCtx, arms: Seq<ArmSpec>, olds: Seq<Declaration>, news: Seq<Declaration>)
    requires
        loop_labeler::label_decls(ctx, arms, olds, news).ok,
        loop_labeler::label_decls(ctx, arms, olds, news).fits,
    ensures
        news.len() == olds.len(),
        forall|i: int|
            #![trigger news[i]]
            0 <= i < news.len() ==> (news[i] matches Declaration::FunctionDecl(f) ==> function_ids_named(f)),
    decreases olds.len(),
{
    if olds.len() > 0 {
        let a = loop_labeler::label_decls(ctx, arms, olds.drop_last(), news.drop_last());
        law_labeled_ids_not_empty(ctx, arms, olds.drop_last(), news.drop_last());
        match olds.last() {
            Declaration::FunctionDecl(f) => {
                let n = match news.last() {
                    Declaration::FunctionDecl(n) => n,
                    _ => f,
                };
                lemma_function_ids(a.ctx, Seq::empty(), a.arms, f, n);
            },
            _ => {},
        }
        assert forall|i: int|
            #![trigger news[i]]
            0 <= i < news.len() implies (news[i] matches Declaration::FunctionDecl(f) ==> function_ids_named(f)) by {
            if i < news.len() - 1 {
                assert(news[i] == news.drop_last()[i]);
            }
        }
    }
}

} // verus!
