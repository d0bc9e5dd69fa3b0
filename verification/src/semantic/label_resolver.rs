use vstd::prelude::*;

use crate::ast::{Block, BlockItem, Declaration, FunctionDeclaration, Label, Program, Statement};
use crate::ast_view::{
    decl_view, decls_view, func_decl_view, item_view, items_view, stmt_view, DeclView,
    FuncDeclView, ItemView, LabelView, StmtView,
};
use crate::ast_copy::{copy_decl, restore_decls};
use crate::semantic::name_generator::{gen_next, GenView, NameGenerator};
use crate::semantic::scope::{NamingData, Scope};
use crate::util::{append_str, copy_string, string_of};

verus! {

broadcast use vstd::std_specs::vec::group_vec_axioms;

/// The labels of the function being resolved: for each label name its unique name and whether
/// a labeled statement declared it (a `goto` may name it first).
pub type LabelMap = Map<Seq<char>, (Seq<char>, bool)>;

/// A use of the label `name`, declaring it (`declaring`, a labeled statement) or jumping to it
/// (a `goto`): a label known already keeps its unique name, and may be declared only once; an
/// unknown label gets the generator's next unique name.
pub open spec fn use_label(labels: LabelMap, gen: GenView, name: Seq<char>, declaring: bool) -> Result<(LabelMap, GenView, Seq<char>), Seq<char>> {
    if labels.contains_key(name) {
        let (unique, declared) = labels[name];
        if !declaring {
            Ok((labels, gen, unique))
        } else if declared {
            Err("Duplicate declaration for label "@ + name)
        } else {
            Ok((labels.insert(name, (unique, true)), gen, unique))
        }
    } else {
        let (g, unique) = gen_next(gen, name);
        Ok((labels.insert(name, (unique, declaring)), g, unique))
    }
}

/// A statement with its labels and `goto` targets renamed, searching every nested statement.
pub open spec fn label_stmt(labels: LabelMap, gen: GenView, s: StmtView) -> Result<(LabelMap, GenView, StmtView), Seq<char>>
    decreases s, 0nat,
{
    match s {
        StmtView::Labeled(LabelView::Named(n), body) => match use_label(labels, gen, n, true) {
            Err(m) => Err(m),
            Ok((l1, g1, unique)) => match label_stmt(l1, g1, *body) {
                Ok((l2, g2, b2)) => Ok((l2, g2, StmtView::Labeled(LabelView::Named(unique), Box::new(b2)))),
                Err(m) => Err(m),
            },
        },
        StmtView::Labeled(l, body) => match label_stmt(labels, gen, *body) {
            Ok((l2, g2, b2)) => Ok((l2, g2, StmtView::Labeled(l, Box::new(b2)))),
            Err(m) => Err(m),
        },
        StmtView::Goto(n) => match use_label(labels, gen, n, false) {
            Ok((l1, g1, unique)) => Ok((l1, g1, StmtView::Goto(unique))),
            Err(m) => Err(m),
        },
        StmtView::If(c, t, e) => match label_stmt(labels, gen, *t) {
            Err(m) => Err(m),
            Ok((l1, g1, t2)) => match e {
                None => Ok((l1, g1, StmtView::If(c, Box::new(t2), None))),
                Some(x) => match label_stmt(l1, g1, *x) {
                    Ok((l2, g2, x2)) => Ok((l2, g2, StmtView::If(c, Box::new(t2), Some(Box::new(x2))))),
                    Err(m) => Err(m),
                },
            },
        },
        StmtView::While(id, c, body) => match label_stmt(labels, gen, *body) {
            Ok((l1, g1, b2)) => Ok((l1, g1, StmtView::While(id, c, Box::new(b2)))),
            Err(m) => Err(m),
        },
        StmtView::DoWhile(id, c, body) => match label_stmt(labels, gen, *body) {
            Ok((l1, g1, b2)) => Ok((l1, g1, StmtView::DoWhile(id, c, Box::new(b2)))),
            Err(m) => Err(m),
        },
        StmtView::For(id, i, c, p, body) => match label_stmt(labels, gen, *body) {
            Ok((l1, g1, b2)) => Ok((l1, g1, StmtView::For(id, i, c, p, Box::new(b2)))),
            Err(m) => Err(m),
        },
        StmtView::Switch(id, c, body, arms) => match label_stmt(labels, gen, *body) {
            Ok((l1, g1, b2)) => Ok((l1, g1, StmtView::Switch(id, c, Box::new(b2), arms))),
            Err(m) => Err(m),
        },
        StmtView::Compound(items) => match label_items(labels, gen, items) {
            Ok((l1, g1, items2)) => Ok((l1, g1, StmtView::Compound(items2))),
            Err(m) => Err(m),
        },
        _ => Ok((labels, gen, s)),
    }
}

/// The statements of a block with their labels renamed, from first to last; declarations
/// stay as they are.
pub open spec fn label_items(labels: LabelMap, gen: GenView, items: Seq<ItemView>) -> Result<(LabelMap, GenView, Seq<ItemView>), Seq<char>>
    decreases items, 1nat,
{
    if items.len() == 0 {
        Ok((labels, gen, Seq::empty()))
    } else {
        match label_items(labels, gen, items.drop_last()) {
            Err(m) => Err(m),
            Ok((l1, g1, prefix)) => match items.last() {
                ItemView::Stmt(s) => match label_stmt(l1, g1, s) {
                    Ok((l2, g2, s2)) => Ok((l2, g2, prefix.push(ItemView::Stmt(s2)))),
                    Err(m) => Err(m),
                },
                other => Ok((l1, g1, prefix.push(other))),
            },
        }
    }
}

/// Whether a label was used by a `goto` but never declared.
pub open spec fn undeclared(labels: LabelMap, name: Seq<char>) -> bool {
    labels.contains_key(name) && !labels[name].1
}

/// The message for a label used but not declared.
pub open spec fn undeclared_message(name: Seq<char>) -> Seq<char> {
    "Label '"@ + name + "' is used but not declared"@
}

/// What resolving the labels of a function or program gives: the new generator state and the
/// renamed value, an error, or labels used but not declared (one of which is reported).
pub enum LabelOutcome<V> {
    Done(GenView, V),
    Fail(Seq<char>),
    Undeclared(LabelMap),
}

/// The labels of a function definition, in a table of its own; a declaration without a body
/// stays as it is.
pub open spec fn label_function(gen: GenView, f: FuncDeclView) -> LabelOutcome<FuncDeclView> {
    match f.body {
        None => LabelOutcome::Done(gen, f),
        Some(items) => match label_items(Map::empty(), gen, items) {
            Err(m) => LabelOutcome::Fail(m),
            Ok((labels, g, items2)) => if exists|n: Seq<char>| undeclared(labels, n) {
                LabelOutcome::Undeclared(labels)
            } else {
                LabelOutcome::Done(g, FuncDeclView { body: Some(items2), ..f })
            },
        },
    }
}

/// The labels of the functions of a program, from first to last.
pub open spec fn label_decls(gen: GenView, ds: Seq<DeclView>) -> LabelOutcome<Seq<DeclView>>
    decreases ds.len(),
{
    if ds.len() == 0 {
        LabelOutcome::Done(gen, Seq::empty())
    } else {
        match label_decls(gen, ds.drop_last()) {
            LabelOutcome::Done(g1, prefix) => match ds.last() {
                DeclView::Func(f) => match label_function(g1, f) {
                    LabelOutcome::Done(g2, f2) => LabelOutcome::Done(g2, prefix.push(DeclView::Func(f2))),
                    LabelOutcome::Fail(m) => LabelOutcome::Fail(m),
                    LabelOutcome::Undeclared(l) => LabelOutcome::Undeclared(l),
                },
                other => LabelOutcome::Done(g1, prefix.push(other)),
            },
            LabelOutcome::Fail(m) => LabelOutcome::Fail(m),
            LabelOutcome::Undeclared(l) => LabelOutcome::Undeclared(l),
        }
    }
}

/// Whether a result agrees with a label outcome whose value has view `v_of(x)`.
pub open spec fn reported<V>(o: LabelOutcome<V>, r: Result<V, Seq<char>>, g: GenView) -> bool {
    match o {
        LabelOutcome::Done(g2, v) => r == Ok::<V, Seq<char>>(v) && g == g2,
        LabelOutcome::Fail(m) => r == Err::<V, Seq<char>>(m),
        LabelOutcome::Undeclared(labels) => r matches Err(m) && exists|n: Seq<char>| undeclared(labels, n) && m == undeclared_message(n),
    }
}

/// An error in the first `j` items of a block is the error of all of them.
proof fn lemma_items_error_stays(labels: LabelMap, gen: GenView, xs: Seq<BlockItem>, j: int)
    requires
        0 <= j <= xs.len(),
        label_items(labels, gen, items_view(xs.subrange(0, j))) is Err,
    ensures
        label_items(labels, gen, items_view(xs)) == label_items(labels, gen, items_view(xs.subrange(0, j))),
    decreases xs.len(),
{
    if j == xs.len() {
        assert(xs.subrange(0, j) =~= xs);
    } else {
        let ys = xs.drop_last();
        assert(ys.subrange(0, j) =~= xs.subrange(0, j));
        lemma_items_error_stays(labels, gen, ys, j);
        assert(items_view(xs).drop_last() =~= items_view(ys));
    }
}

/// A failure in the first `j` declarations is the failure of all of them.
/// What a failed label resolution leaves of a program: the declarations before the failing
/// one (the `k`th) as resolving them gives them, that one and the later ones as they were.
pub open spec fn labels_left(gen: GenView, before: Seq<DeclView>, after: Seq<DeclView>, k: int) -> bool {
    &&& 0 <= k < before.len()
    &&& label_decls(gen, before.subrange(0, k)) is Done
    &&& !(label_decls(gen, before.subrange(0, k + 1)) is Done)
    &&& after == label_decls(gen, before.subrange(0, k))->Done_1 + before.subrange(k, before.len() as int)
}

proof fn lemma_decls_failure_stays(gen: GenView, xs: Seq<DeclView>, j: int)
    requires
        0 <= j <= xs.len(),
        !(label_decls(gen, xs.subrange(0, j)) is Done),
    ensures
        label_decls(gen, xs) == label_decls(gen, xs.subrange(0, j)),
    decreases xs.len(),
{
    if j == xs.len() {
        assert(xs.subrange(0, j) =~= xs);
    } else {
        let ys = xs.drop_last();
        assert(ys.subrange(0, j) =~= xs.subrange(0, j));
        lemma_decls_failure_stays(gen, ys, j);
    }
}

/// Gives each label of a function a unique name and checks that every `goto` target is
/// declared exactly once in the function.
pub struct LabelResolver {
    label_name_generator: NameGenerator,
    current_scope: Scope<bool>,
}

impl LabelResolver {
    /// The labels of the function being resolved.
    pub closed spec fn labels(&self) -> LabelMap {
        self.current_scope@.last()
    }

    /// The state of the generator of unique label names.
    pub closed spec fn gen(&self) -> GenView {
        self.label_name_generator@
    }

    closed spec fn wf(&self) -> bool {
        self.current_scope@.len() == 1
    }

    pub fn new(label_name_generator: NameGenerator) -> (r: Self)
        ensures
            r.gen() == label_name_generator@,
    {
        LabelResolver { label_name_generator, current_scope: Scope::new() }
    }

    /// The generator of unique label names, with the names it handed out counted.
    pub fn into_generator(self) -> (g: NameGenerator)
        ensures
            g@ == self.gen(),
    {
        self.label_name_generator
    }

    fn use_label(&mut self, name: &String, declaring: bool) -> (r: Result<String, String>)
        requires
            old(self).wf(),
        ensures
            match use_label(old(self).labels(), old(self).gen(), name@, declaring) {
                Ok((l, g, unique)) => r matches Ok(u) && u@ == unique && final(self).labels() == l
                    && final(self).gen() == g && final(self).wf(),
                Err(m) => r matches Err(e) && e@ == m,
            },
    {
        let known = match self.current_scope.get_current_info(name.as_str()) {
            Some(info) => Some((copy_string(&info.unique_name), info.additional)),
            None => None,
        };
        match known {
            Some((unique, declared)) => {
                if !declaring {
                    Ok(unique)
                } else if declared {
                    let mut m = string_of("Duplicate declaration for label ");
                    append_str(&mut m, name.as_str());
                    Err(m)
                } else {
                    self.current_scope.set_current_info(name.as_str(), NamingData { unique_name: copy_string(&unique), additional: true });
                    Ok(unique)
                }
            },
            None => {
                let unique = self.label_name_generator.make_unique_name(name.as_str());
                self.current_scope.set_current_info(name.as_str(), NamingData { unique_name: copy_string(&unique), additional: declaring });
                Ok(unique)
            },
        }
    }

    fn resolve_stmt(&mut self, s: Statement) -> (r: Result<Statement, String>)
        requires
            old(self).wf(),
        ensures
            match label_stmt(old(self).labels(), old(self).gen(), stmt_view(s)) {
                Ok((l, g, v)) => r matches Ok(s2) && stmt_view(s2) == v && final(self).labels() == l
                    && final(self).gen() == g && final(self).wf(),
                Err(m) => r matches Err(e) && e@ == m,
            },
        decreases s,
    {
        match s {
            Statement::LabeledStatement { label, statement } => {
                let label2 = match label {
                    Label::Label(name) => match self.use_label(&name, true) {
                        Ok(u) => Label::Label(u),
                        Err(m) => return Err(m),
                    },
                    other => other,
                };
                match self.resolve_stmt(*statement) {
                    Ok(b2) => Ok(Statement::LabeledStatement { label: label2, statement: Box::new(b2) }),
                    Err(m) => Err(m),
                }
            },
            Statement::GotoStatement(name) => match self.use_label(&name, false) {
                Ok(u) => Ok(Statement::GotoStatement(u)),
                Err(m) => Err(m),
            },
            Statement::IfStatement { condition, then_branch, else_branch } => {
                let t2 = match self.resolve_stmt(*then_branch) {
                    Ok(x) => x,
                    Err(m) => return Err(m),
                };
                let e2 = match else_branch {
                    None => None,
                    Some(e) => match self.resolve_stmt(*e) {
                        Ok(x) => Some(Box::new(x)),
                        Err(m) => return Err(m),
                    },
                };
                Ok(Statement::IfStatement { condition, then_branch: Box::new(t2), else_branch: e2 })
            },
            Statement::While { loop_id, condition, body } => match self.resolve_stmt(*body) {
                Ok(b2) => Ok(Statement::While { loop_id, condition, body: Box::new(b2) }),
                Err(m) => Err(m),
            },
            Statement::DoWhile { loop_id, condition, body } => match self.resolve_stmt(*body) {
                Ok(b2) => Ok(Statement::DoWhile { loop_id, condition, body: Box::new(b2) }),
                Err(m) => Err(m),
            },
            Statement::For { loop_id, init, condition, post, body } => match self.resolve_stmt(*body) {
                Ok(b2) => Ok(Statement::For { loop_id, init, condition, post, body: Box::new(b2) }),
                Err(m) => Err(m),
            },
            Statement::SwitchStatement { switch_id, condition, body, arms } => match self.resolve_stmt(*body) {
                Ok(b2) => Ok(Statement::SwitchStatement { switch_id, condition, body: Box::new(b2), arms }),
                Err(m) => Err(m),
            },
            Statement::CompoundStatement(b) => match self.resolve_items(b.items) {
                Ok(items) => Ok(Statement::CompoundStatement(Block::new(items))),
                Err(m) => Err(m),
            },
            other => Ok(other),
        }
    }

    #[verifier::rlimit(50)]
    fn resolve_items(&mut self, items: Vec<BlockItem>) -> (r: Result<Vec<BlockItem>, String>)
        requires
            old(self).wf(),
        ensures
            match label_items(old(self).labels(), old(self).gen(), items_view(items@)) {
                Ok((l, g, v)) => r matches Ok(out) && items_view(out@) == v && final(self).labels() == l
                    && final(self).gen() == g && final(self).wf(),
                Err(m) => r matches Err(e) && e@ == m,
            },
        decreases items,
    {
        let ghost l0 = self.labels();
        let ghost g0 = self.gen();
        let ghost olds = items@;
        let ghost items_g = items;
        let mut rest = items;
        let mut done: Vec<BlockItem> = Vec::new();
        let ghost n = olds.len();
        assert(rest@ =~= olds.subrange(0, n as int));
        assert(items_view(olds.subrange(0, 0)) =~= Seq::empty());
        assert(items_view(done@) =~= Seq::empty());
        while rest.len() > 0
            invariant
                olds == items_g@,
                items_g == items,
                l0 == old(self).labels(),
                g0 == old(self).gen(),
                n == olds.len(),
                done@.len() + rest@.len() == n,
                rest@ == olds.subrange(done@.len() as int, n as int),
                self.wf(),
                label_items(l0, g0, items_view(olds.subrange(0, done@.len() as int)))
                    == Ok::<(LabelMap, GenView, Seq<ItemView>), Seq<char>>((self.labels(), self.gen(), items_view(done@))),
            decreases rest@.len(),
        {
            let k = done.len();
            let item = rest.remove(0);
            proof {
                assert(item == olds[k as int]);
                vstd::std_specs::vec::axiom_vec_index_decreases(items_g, k as int);
                assert(decreases_to!(items_g => item));
                let pre = olds.subrange(0, k + 1);
                assert(pre.drop_last() =~= olds.subrange(0, k as int));
                assert(pre.last() == item);
                assert(items_view(pre).drop_last() =~= items_view(olds.subrange(0, k as int)));
            }
            let ghost labels_k = self.labels();
            let ghost gen_k = self.gen();
            let y = match item {
                BlockItem::Statement(st) => {
                    let ghost stv = stmt_view(st);
                    match self.resolve_stmt(st) {
                        Ok(s2) => BlockItem::Statement(s2),
                        Err(m) => {
                            proof {
                                let pre = olds.subrange(0, k + 1);
                                let ip = items_view(pre);
                                assert(ip == items_view(pre.drop_last()).push(item_view(pre.last())));
                                assert(ip.drop_last() =~= items_view(olds.subrange(0, k as int)));
                                assert(ip.last() == ItemView::Stmt(stv));
                                assert(label_stmt(labels_k, gen_k, stv) is Err);
                                assert(label_items(l0, g0, ip) is Err);
                                lemma_items_error_stays(l0, g0, olds, k + 1);
                            }
                            return Err(m);
                        },
                    }
                },
                other => other,
            };
            proof {
                let pre = olds.subrange(0, k + 1);
                let ip = items_view(pre);
                assert(ip == items_view(pre.drop_last()).push(item_view(pre.last())));
                assert(ip.drop_last() =~= items_view(olds.subrange(0, k as int)));
                assert(done@.push(y).drop_last() =~= done@);
                assert(items_view(done@.push(y)) == items_view(done@).push(item_view(y)));
            }
            done.push(y);
            assert(rest@ =~= olds.subrange(done@.len() as int, n as int));
        }
        assert(olds.subrange(0, n as int) =~= olds);
        Ok(done)
    }

    /// Fails when a label of the current function was used but not declared.
    fn check_for_undeclared_labels(&self) -> (r: Result<(), String>)
        requires
            self.wf(),
        ensures
            r is Ok <==> !(exists|n: Seq<char>| undeclared(self.labels(), n)),
            r matches Err(m) ==> exists|n: Seq<char>| undeclared(self.labels(), n) && m@ == undeclared_message(n),
    {
        let names = self.current_scope.get_names_in_current_scope();
        let mut i: usize = 0;
        while i < names.len()
            invariant
                self.wf(),
                i <= names@.len(),
                forall|j: int| 0 <= j < names@.len() ==> self.labels().contains_key(#[trigger] names@[j]@),
                forall|k: Seq<char>| self.labels().contains_key(k) ==> exists|j: int| 0 <= j < names@.len() && #[trigger] names@[j]@ == k,
                forall|j: int| 0 <= j < i ==> !undeclared(self.labels(), #[trigger] names@[j]@),
            decreases names@.len() - i,
        {
            match self.current_scope.get_current_info(names[i].as_str()) {
                Some(info) => {
                    if !info.additional {
                        let mut m = string_of("Label '");
                        append_str(&mut m, names[i].as_str());
                        append_str(&mut m, "' is used but not declared");
                        assert(undeclared(self.labels(), names@[i as int]@));
                        assert(m@ == undeclared_message(names@[i as int]@));
                        return Err(m);
                    }
                },
                None => {},
            }
            i = i + 1;
        }
        proof {
            assert forall|k: Seq<char>| !undeclared(self.labels(), k) by {
                if self.labels().contains_key(k) {
                    let j = choose|j: int| 0 <= j < names@.len() && #[trigger] names@[j]@ == k;
                    assert(!undeclared(self.labels(), names@[j]@));
                }
            }
        }
        Ok(())
    }

    fn resolve_function(&mut self, f: FunctionDeclaration) -> (r: Result<FunctionDeclaration, String>)
        requires
            old(self).wf(),
        ensures
            final(self).wf(),
            reported(
                label_function(old(self).gen(), func_decl_view(f)),
                match r {
                    Ok(f2) => Ok(func_decl_view(f2)),
                    Err(m) => Err(m@),
                },
                final(self).gen(),
            ),
    {
        let FunctionDeclaration { name, parameters, body, storage_class, func_type } = f;
        match body {
            None => Ok(FunctionDeclaration { name, parameters, body: None, storage_class, func_type }),
            Some(b) => {
                self.current_scope = Scope::new();
                let items = match self.resolve_items(b.items) {
                    Ok(x) => x,
                    Err(m) => {
                        self.current_scope = Scope::new();
                        return Err(m);
                    },
                };
                let checked = self.check_for_undeclared_labels();
                self.current_scope = Scope::new();
                match checked {
                    Ok(()) => Ok(FunctionDeclaration { name, parameters, body: Some(Block::new(items)), storage_class, func_type }),
                    Err(m) => Err(m),
                }
            },
        }
    }

    /// Renames the labels of each function of the program and the `goto` statements that
    /// name them, or reports the first problem met, leaving the functions before the failing
    /// one renamed and that one and the later ones as they were.
    #[verifier::loop_isolation(false)]
    pub fn resolve(&mut self, program: &mut Program) -> (r: Result<(), String>)
        ensures
            reported(
                label_decls(old(self).gen(), decls_view(old(program).decls@)),
                match r {
                    Ok(()) => Ok(decls_view(final(program).decls@)),
                    Err(m) => Err(m@),
                },
                final(self).gen(),
            ),
            r is Err ==> exists|k: int| #[trigger] labels_left(
                old(self).gen(),
                decls_view(old(program).decls@),
                decls_view(final(program).decls@),
                k,
            ),
    {
        self.current_scope = Scope::new();
        let ghost g0 = self.gen();
        let ghost olds = decls_view(program.decls@);
        let mut rest: Vec<Declaration> = Vec::new();
        std::mem::swap(&mut rest, &mut program.decls);
        let ghost rest_g = rest@;
        let mut done: Vec<Declaration> = Vec::new();
        let ghost n = olds.len();
        assert(rest@ =~= rest_g.subrange(0, n as int));
        assert(olds.subrange(0, 0) =~= Seq::<DeclView>::empty());
        assert(decls_view(done@) =~= Seq::<DeclView>::empty());
        while rest.len() > 0
            invariant
                olds == decls_view(rest_g),
                n == olds.len(),
                done@.len() + rest@.len() == n,
                rest@ == rest_g.subrange(done@.len() as int, n as int),
                self.wf(),
                label_decls(g0, olds.subrange(0, done@.len() as int)) == LabelOutcome::Done(self.gen(), decls_view(done@)),
            decreases rest@.len(),
        {
            let k = done.len();
            let decl = rest.remove(0);
            proof {
                assert(decl == rest_g[k as int]);
                let pre = olds.subrange(0, k + 1);
                assert(pre.drop_last() =~= olds.subrange(0, k as int));
                assert(pre.last() == decl_view(decl));
            }
            let kept = copy_decl(&decl);
            let result = match decl {
                Declaration::FunctionDecl(f) => match self.resolve_function(f) {
                    Ok(f2) => Ok(Declaration::FunctionDecl(f2)),
                    Err(m) => Err(m),
                },
                other => Ok(other),
            };
            match result {
                Ok(d2) => {
                    proof {
                        assert(decls_view(done@.push(d2)) =~= decls_view(done@).push(decl_view(d2)));
                    }
                    done.push(d2);
                    assert(rest@ =~= rest_g.subrange(done@.len() as int, n as int));
                },
                Err(m) => {
                    proof {
                        lemma_decls_failure_stays(g0, olds, k + 1);
                    }
                    let ghost done_v = decls_view(done@);
                    let ghost rest_v = decls_view(rest@);
                    program.decls = restore_decls(done, kept, rest);
                    proof {
                        assert(rest_v =~= olds.subrange(k + 1, n as int));
                        assert(done_v.push(olds[k as int]) + rest_v =~= done_v + olds.subrange(k as int, n as int));
                        assert(labels_left(g0, olds, decls_view(program.decls@), k as int));
                    }
                    return Err(m);
                },
            }
        }
        assert(olds.subrange(0, n as int) =~= olds);
        program.decls = done;
        Ok(())
    }
}

} // verus!
