use vstd::prelude::*;

use crate::ast::{
    Block, BlockItem, Declaration, Expression, ForInit, FunctionDeclaration, Program, Statement,
    TypedExpression, VarDeclaration,
};
use crate::ast_view::{
    args_view, decl_view, decls_view, func_decl_view, item_view, items_view, names_view,
    opt_view, stmt_view, texpr_view, var_decl_view, DeclView, ExprView, ForInitView,
    FuncDeclView, ItemView, StmtView, TExprView, VarDeclView,
};
use crate::ast_copy::{copy_decl, restore_decls};
use crate::semantic::name_generator::{GenView, NameGenerator};
use crate::semantic::scope::{add_to_scopes, lookup, Linkage, Scope};
use crate::util::{append_str, string_of};

verus! {

broadcast use vstd::std_specs::vec::group_vec_axioms;

/// The state of identifier resolution: the scopes (innermost last), the generator of unique
/// variable names, how deeply function declarations are nested, and for each function being
/// resolved how deeply blocks are nested in it.
pub struct ResolverState {
    pub scopes: Seq<Map<Seq<char>, (Seq<char>, Linkage)>>,
    pub gen: GenView,
    pub fn_level: nat,
    pub blocks: Seq<nat>,
}

/// `n + 1`, staying at `usize::MAX`.
pub open spec fn bump(n: nat) -> nat {
    if n < usize::MAX { n + 1 } else { n }
}

/// `n - 1`, staying at 0.
pub open spec fn drop_one(n: nat) -> nat {
    if n > 0 { (n - 1) as nat } else { 0 }
}

/// The state with an empty scope opened.
pub open spec fn opened(st: ResolverState) -> ResolverState {
    ResolverState { scopes: st.scopes.push(Map::empty()), ..st }
}

/// The state with the innermost scope closed (the outermost stays).
pub open spec fn closed_scope(st: ResolverState) -> ResolverState {
    if st.scopes.len() > 1 {
        ResolverState { scopes: st.scopes.drop_last(), ..st }
    } else {
        st
    }
}

/// Declaring `name` with `linkage` in the innermost scope.
pub open spec fn declare(st: ResolverState, name: Seq<char>, linkage: Linkage) -> Result<(ResolverState, Seq<char>), Seq<char>> {
    match add_to_scopes(st.scopes, st.gen, name, linkage) {
        Ok((scopes, gen, unique)) => Ok((ResolverState { scopes, gen, ..st }, unique)),
        Err(m) => Err(m),
    }
}

/// An expression with every variable and function name replaced by the unique name it stands
/// for in `scopes`; the left side of an assignment must be a variable.
pub open spec fn resolve_expr(scopes: Seq<Map<Seq<char>, (Seq<char>, Linkage)>>, e: TExprView) -> Result<TExprView, Seq<char>>
    decreases e, 1nat,
{
    let r: Result<ExprView, Seq<char>> = match e.e {
        ExprView::IntegerConstant(i) => Ok(ExprView::IntegerConstant(i)),
        ExprView::LongConstant(l) => Ok(ExprView::LongConstant(l)),
        ExprView::Cast(x, t) => match resolve_expr(scopes, *x) {
            Ok(y) => Ok(ExprView::Cast(Box::new(y), t)),
            Err(m) => Err(m),
        },
        ExprView::Var(n) => match lookup(scopes, n) {
            Some(entry) => Ok(ExprView::Var(entry.0)),
            None => Err("Variable `"@ + n + "` is not defined"@),
        },
        ExprView::FuncCall(n, args) => match lookup(scopes, n) {
            None => Err("Function `"@ + n + "` is not defined"@),
            Some(entry) => match resolve_args(scopes, args) {
                Ok(a) => Ok(ExprView::FuncCall(entry.0, a)),
                Err(m) => Err(m),
            },
        },
        ExprView::Unary(op, x) => match resolve_expr(scopes, *x) {
            Ok(y) => Ok(ExprView::Unary(op, Box::new(y))),
            Err(m) => Err(m),
        },
        ExprView::Binary(op, l, r) => match resolve_expr(scopes, *l) {
            Err(m) => Err(m),
            Ok(l2) => match resolve_expr(scopes, *r) {
                Ok(r2) => Ok(ExprView::Binary(op, Box::new(l2), Box::new(r2))),
                Err(m) => Err(m),
            },
        },
        ExprView::Assignment(l, r, postfix) => if !(l.e is Var) {
            Err("Left-hand side of assignment must be a variable"@)
        } else {
            match resolve_expr(scopes, *l) {
                Err(m) => Err(m),
                Ok(l2) => match resolve_expr(scopes, *r) {
                    Ok(r2) => Ok(ExprView::Assignment(Box::new(l2), Box::new(r2), postfix)),
                    Err(m) => Err(m),
                },
            }
        },
        ExprView::Conditional(c, t, f) => match resolve_expr(scopes, *c) {
            Err(m) => Err(m),
            Ok(c2) => match resolve_expr(scopes, *t) {
                Err(m) => Err(m),
                Ok(t2) => match resolve_expr(scopes, *f) {
                    Ok(f2) => Ok(ExprView::Conditional(Box::new(c2), Box::new(t2), Box::new(f2))),
                    Err(m) => Err(m),
                },
            },
        },
    };
    match r {
        Ok(x) => Ok(TExprView { e: x, t: e.t }),
        Err(m) => Err(m),
    }
}

/// The arguments of a call resolved from first to last.
pub open spec fn resolve_args(scopes: Seq<Map<Seq<char>, (Seq<char>, Linkage)>>, args: Seq<TExprView>) -> Result<Seq<TExprView>, Seq<char>>
    decreases args, 0nat,
{
    if args.len() == 0 {
        Ok(Seq::empty())
    } else {
        match resolve_args(scopes, args.drop_last()) {
            Err(m) => Err(m),
            Ok(prefix) => match resolve_expr(scopes, args.last()) {
                Ok(x) => Ok(prefix.push(x)),
                Err(m) => Err(m),
            },
        }
    }
}

/// An optional expression resolved.
pub open spec fn resolve_opt(scopes: Seq<Map<Seq<char>, (Seq<char>, Linkage)>>, e: Option<TExprView>) -> Result<Option<TExprView>, Seq<char>> {
    match e {
        None => Ok(None),
        Some(x) => match resolve_expr(scopes, x) {
            Ok(y) => Ok(Some(y)),
            Err(m) => Err(m),
        },
    }
}

/// The linkage of a declared variable: external for an `extern` declaration, none otherwise.
pub open spec fn var_linkage(storage: Option<crate::ast::StorageClass>) -> Linkage {
    if storage == Some(crate::ast::StorageClass::Extern) {
        Linkage::External
    } else {
        Linkage::NoLinkage
    }
}

/// A variable declaration: its name is declared first (an `extern` one keeps its name and may
/// be declared again), then its initializer is resolved (so it already sees the new name).
pub open spec fn resolve_var_decl(st: ResolverState, v: VarDeclView) -> Result<(ResolverState, VarDeclView), Seq<char>> {
    match declare(st, v.name, var_linkage(v.storage)) {
        Err(m) => Err(m),
        Ok((st1, unique)) => match resolve_opt(st1.scopes, v.init) {
            Ok(init) => Ok((st1, VarDeclView { name: unique, init, ..v })),
            Err(m) => Err(m),
        },
    }
}

/// Parameter names declared without linkage, from first to last.
pub open spec fn resolve_params(st: ResolverState, ps: Seq<Seq<char>>) -> Result<(ResolverState, Seq<Seq<char>>), Seq<char>>
    decreases ps.len(),
{
    if ps.len() == 0 {
        Ok((st, Seq::empty()))
    } else {
        match resolve_params(st, ps.drop_last()) {
            Err(m) => Err(m),
            Ok((st1, prefix)) => match declare(st1, ps.last(), Linkage::NoLinkage) {
                Ok((st2, unique)) => Ok((st2, prefix.push(unique))),
                Err(m) => Err(m),
            },
        }
    }
}

/// The state after a function declaration is left: one nesting level less, its block counter
/// dropped, its parameter scope closed.
pub open spec fn left_function(st: ResolverState) -> ResolverState {
    closed_scope(ResolverState { fn_level: drop_one(st.fn_level), blocks: st.blocks.drop_last(), ..st })
}

/// A function declaration: a definition may not be nested in another function; its name is
/// declared with external linkage, its parameters in a new scope that its body shares.
pub open spec fn resolve_function(st: ResolverState, f: FuncDeclView) -> Result<(ResolverState, FuncDeclView), Seq<char>>
    decreases f.body, 2nat,
{
    if f.body is Some && st.fn_level > 0 {
        Err("Nested function definitions are not allowed"@)
    } else {
        match declare(st, f.name, Linkage::External) {
            Err(m) => Err(m),
            Ok((st1, unique)) => match resolve_params(opened(st1), f.params) {
                Err(m) => Err(m),
                Ok((st2, params)) => {
                    let st3 = ResolverState { fn_level: bump(st2.fn_level), blocks: st2.blocks.push(0), ..st2 };
                    match f.body {
                        None => Ok((left_function(st3), FuncDeclView { name: unique, params, ..f })),
                        Some(items) => match resolve_block(st3, items) {
                            Err(m) => Err(m),
                            Ok((st4, body)) => Ok((
                                left_function(st4),
                                FuncDeclView { name: unique, params, body: Some(body), ..f },
                            )),
                        },
                    }
                },
            },
        }
    }
}

/// A block: it opens a scope unless it is the body of a function (whose parameter scope it
/// shares).
pub open spec fn resolve_block(st: ResolverState, items: Seq<ItemView>) -> Result<(ResolverState, Seq<ItemView>), Seq<char>>
    decreases items, 2nat,
{
    let st1 = if st.blocks.last() > 0 { opened(st) } else { st };
    let st2 = ResolverState { blocks: st1.blocks.update(st1.blocks.len() - 1, bump(st1.blocks.last())), ..st1 };
    match resolve_items(st2, items) {
        Err(m) => Err(m),
        Ok((st3, out)) => {
            let st4 = ResolverState { blocks: st3.blocks.update(st3.blocks.len() - 1, drop_one(st3.blocks.last())), ..st3 };
            Ok((if st4.blocks.last() > 0 { closed_scope(st4) } else { st4 }, out))
        },
    }
}

/// The items of a block resolved from first to last.
pub open spec fn resolve_items(st: ResolverState, items: Seq<ItemView>) -> Result<(ResolverState, Seq<ItemView>), Seq<char>>
    decreases items, 1nat,
{
    if items.len() == 0 {
        Ok((st, Seq::empty()))
    } else {
        match resolve_items(st, items.drop_last()) {
            Err(m) => Err(m),
            Ok((st1, prefix)) => match resolve_item(st1, items.last()) {
                Ok((st2, item)) => Ok((st2, prefix.push(item))),
                Err(m) => Err(m),
            },
        }
    }
}

/// One item of a block.
pub open spec fn resolve_item(st: ResolverState, item: ItemView) -> Result<(ResolverState, ItemView), Seq<char>>
    decreases item, 0nat,
{
    match item {
        ItemView::Var(v) => match resolve_var_decl(st, v) {
            Ok((st1, v1)) => Ok((st1, ItemView::Var(v1))),
            Err(m) => Err(m),
        },
        ItemView::Func(f) => match resolve_function(st, f) {
            Ok((st1, f1)) => Ok((st1, ItemView::Func(f1))),
            Err(m) => Err(m),
        },
        ItemView::Stmt(s) => match resolve_stmt(st, s) {
            Ok((st1, s1)) => Ok((st1, ItemView::Stmt(s1))),
            Err(m) => Err(m),
        },
    }
}

/// A statement: the expressions in it resolved, a `for` loop in a scope of its own.
pub open spec fn resolve_stmt(st: ResolverState, s: StmtView) -> Result<(ResolverState, StmtView), Seq<char>>
    decreases s, 0nat,
{
    match s {
        StmtView::Return(e) => match resolve_expr(st.scopes, e) {
            Ok(e2) => Ok((st, StmtView::Return(e2))),
            Err(m) => Err(m),
        },
        StmtView::Expression(e) => match resolve_expr(st.scopes, e) {
            Ok(e2) => Ok((st, StmtView::Expression(e2))),
            Err(m) => Err(m),
        },
        StmtView::While(id, c, body) => match resolve_expr(st.scopes, c) {
            Err(m) => Err(m),
            Ok(c2) => match resolve_stmt(st, *body) {
                Ok((st1, b2)) => Ok((st1, StmtView::While(id, c2, Box::new(b2)))),
                Err(m) => Err(m),
            },
        },
        StmtView::DoWhile(id, c, body) => match resolve_stmt(st, *body) {
            Err(m) => Err(m),
            Ok((st1, b2)) => match resolve_expr(st1.scopes, c) {
                Ok(c2) => Ok((st1, StmtView::DoWhile(id, c2, Box::new(b2)))),
                Err(m) => Err(m),
            },
        },
        StmtView::For(id, init, c, p, body) => {
            let st1 = opened(st);
            let i2: Result<(ResolverState, ForInitView), Seq<char>> = match init {
                ForInitView::Decl(v) => match resolve_var_decl(st1, v) {
                    Ok((st2, v2)) => Ok((st2, ForInitView::Decl(v2))),
                    Err(m) => Err(m),
                },
                ForInitView::Expr(e) => match resolve_opt(st1.scopes, e) {
                    Ok(e2) => Ok((st1, ForInitView::Expr(e2))),
                    Err(m) => Err(m),
                },
            };
            match i2 {
                Err(m) => Err(m),
                Ok((st2, init2)) => match resolve_opt(st2.scopes, c) {
                    Err(m) => Err(m),
                    Ok(c2) => match resolve_opt(st2.scopes, p) {
                        Err(m) => Err(m),
                        Ok(p2) => match resolve_stmt(st2, *body) {
                            Err(m) => Err(m),
                            Ok((st3, b2)) => Ok((closed_scope(st3), StmtView::For(id, init2, c2, p2, Box::new(b2)))),
                        },
                    },
                },
            }
        },
        StmtView::Compound(items) => match resolve_block(st, items) {
            Ok((st1, items2)) => Ok((st1, StmtView::Compound(items2))),
            Err(m) => Err(m),
        },
        StmtView::If(c, t, e) => match resolve_expr(st.scopes, c) {
            Err(m) => Err(m),
            Ok(c2) => match resolve_stmt(st, *t) {
                Err(m) => Err(m),
                Ok((st1, t2)) => match e {
                    None => Ok((st1, StmtView::If(c2, Box::new(t2), None))),
                    Some(x) => match resolve_stmt(st1, *x) {
                        Ok((st2, x2)) => Ok((st2, StmtView::If(c2, Box::new(t2), Some(Box::new(x2))))),
                        Err(m) => Err(m),
                    },
                },
            },
        },
        StmtView::Switch(id, c, body, arms) => match resolve_expr(st.scopes, c) {
            Err(m) => Err(m),
            Ok(c2) => match resolve_stmt(st, *body) {
                Ok((st1, b2)) => Ok((st1, StmtView::Switch(id, c2, Box::new(b2), arms))),
                Err(m) => Err(m),
            },
        },
        StmtView::Labeled(l, body) => match resolve_stmt(st, *body) {
            Ok((st1, b2)) => Ok((st1, StmtView::Labeled(l, Box::new(b2)))),
            Err(m) => Err(m),
        },
        _ => Ok((st, s)),
    }
}

/// The declarations of a program resolved from first to last.
pub open spec fn resolve_decls(st: ResolverState, ds: Seq<DeclView>) -> Result<(ResolverState, Seq<DeclView>), Seq<char>>
    decreases ds.len(),
{
    if ds.len() == 0 {
        Ok((st, Seq::empty()))
    } else {
        match resolve_decls(st, ds.drop_last()) {
            Err(m) => Err(m),
            Ok((st1, prefix)) => match ds.last() {
                DeclView::Func(f) => match resolve_function(st1, f) {
                    Ok((st2, f2)) => Ok((st2, prefix.push(DeclView::Func(f2)))),
                    Err(m) => Err(m),
                },
                DeclView::Var(v) => match resolve_var_decl(st1, v) {
                    Ok((st2, v2)) => Ok((st2, prefix.push(DeclView::Var(v2)))),
                    Err(m) => Err(m),
                },
            },
        }
    }
}

/// An error in the first `j` arguments is the error of the whole argument list.
proof fn lemma_args_error_stays(scopes: Seq<Map<Seq<char>, (Seq<char>, Linkage)>>, xs: Seq<TypedExpression>, j: int)
    requires
        0 <= j <= xs.len(),
        resolve_args(scopes, args_view(xs.subrange(0, j))) is Err,
    ensures
        resolve_args(scopes, args_view(xs)) == resolve_args(scopes, args_view(xs.subrange(0, j))),
    decreases xs.len(),
{
    if j == xs.len() {
        assert(xs.subrange(0, j) =~= xs);
    } else {
        let ys = xs.drop_last();
        assert(ys.subrange(0, j) =~= xs.subrange(0, j));
        lemma_args_error_stays(scopes, ys, j);
        assert(args_view(xs).drop_last() =~= args_view(ys));
    }
}

/// A successful resolution step: the state after it and the resolved value.
pub open spec fn ok_state<V>(st: ResolverState, v: V) -> Result<(ResolverState, V), Seq<char>> {
    Ok((st, v))
}

/// What a failed resolution leaves of a program: the declarations before the failing one
/// (the `k`th) as resolving them gives them, that one and the later ones as they were.
pub open spec fn resolve_left(st: ResolverState, before: Seq<DeclView>, after: Seq<DeclView>, k: int) -> bool {
    &&& 0 <= k < before.len()
    &&& resolve_decls(st, before.subrange(0, k)) is Ok
    &&& resolve_decls(st, before.subrange(0, k + 1)) is Err
    &&& after == resolve_decls(st, before.subrange(0, k))->Ok_0.1 + before.subrange(k, before.len() as int)
}

/// A failed resolution step with its message.
pub open spec fn failed<V>(m: Seq<char>) -> Result<(ResolverState, V), Seq<char>> {
    Err(m)
}

/// An error in the first `j` items of a block is the error of all of them.
proof fn lemma_items_error_stays(st: ResolverState, xs: Seq<BlockItem>, j: int)
    requires
        0 <= j <= xs.len(),
        resolve_items(st, items_view(xs.subrange(0, j))) is Err,
    ensures
        resolve_items(st, items_view(xs)) == resolve_items(st, items_view(xs.subrange(0, j))),
    decreases xs.len(),
{
    if j == xs.len() {
        assert(xs.subrange(0, j) =~= xs);
    } else {
        let ys = xs.drop_last();
        assert(ys.subrange(0, j) =~= xs.subrange(0, j));
        lemma_items_error_stays(st, ys, j);
        assert(items_view(xs).drop_last() =~= items_view(ys));
    }
}

/// An error in the first `j` declarations is the error of all of them.
proof fn lemma_decls_error_stays(st: ResolverState, xs: Seq<DeclView>, j: int)
    requires
        0 <= j <= xs.len(),
        resolve_decls(st, xs.subrange(0, j)) is Err,
    ensures
        resolve_decls(st, xs) == resolve_decls(st, xs.subrange(0, j)),
    decreases xs.len(),
{
    if j == xs.len() {
        assert(xs.subrange(0, j) =~= xs);
    } else {
        let ys = xs.drop_last();
        assert(ys.subrange(0, j) =~= xs.subrange(0, j));
        lemma_decls_error_stays(st, ys, j);
    }
}

/// An error in the first `j` parameters is the error of all of them.
proof fn lemma_params_error_stays(st: ResolverState, xs: Seq<Seq<char>>, j: int)
    requires
        0 <= j <= xs.len(),
        resolve_params(st, xs.subrange(0, j)) is Err,
    ensures
        resolve_params(st, xs) == resolve_params(st, xs.subrange(0, j)),
    decreases xs.len(),
{
    if j == xs.len() {
        assert(xs.subrange(0, j) =~= xs);
    } else {
        let ys = xs.drop_last();
        assert(ys.subrange(0, j) =~= xs.subrange(0, j));
        lemma_params_error_stays(st, ys, j);
    }
}

/// Whether an expression result agrees with the specification.
pub open spec fn expr_outcome(g: Result<TExprView, Seq<char>>, r: Result<TypedExpression, String>) -> bool {
    match r {
        Ok(e) => g == Ok::<TExprView, Seq<char>>(texpr_view(e)),
        Err(m) => g == Err::<TExprView, Seq<char>>(m@),
    }
}

/// Replaces the names of variables and functions by unique names: variables and parameters get
/// a fresh name from the generator in each declaration, functions keep theirs.
pub struct IdentifierResolver {
    var_name_generator: NameGenerator,
    current_scope: Scope<Linkage>,
    function_nesting_level: usize,
    block_nesting_levels: Vec<usize>,
}

impl View for IdentifierResolver {
    type V = ResolverState;

    closed spec fn view(&self) -> ResolverState {
        ResolverState {
            scopes: self.current_scope@,
            gen: self.var_name_generator@,
            fn_level: self.function_nesting_level as nat,
            blocks: self.block_nesting_levels@.map_values(|n: usize| n as nat),
        }
    }
}

impl IdentifierResolver {
    /// A resolver with one empty scope, outside any function.
    pub fn new(var_name_generator: NameGenerator) -> (r: Self)
        ensures
            r.wf(),
            r@ == (ResolverState {
                scopes: seq![Map::empty()],
                gen: var_name_generator@,
                fn_level: 0,
                blocks: Seq::empty(),
            }),
    {
        let r = IdentifierResolver {
            var_name_generator,
            current_scope: Scope::new(),
            function_nesting_level: 0,
            block_nesting_levels: Vec::new(),
        };
        assert(r@.blocks =~= Seq::<nat>::empty());
        r
    }

    /// The generator of unique variable names, with the names it has handed out counted.
    pub fn into_generator(self) -> (g: NameGenerator)
        ensures
            g@ == self@.gen,
    {
        self.var_name_generator
    }

    /// The expression with its names resolved in the current scopes.
    fn resolve_expr(&self, e: TypedExpression) -> (r: Result<TypedExpression, String>)
        ensures
            expr_outcome(resolve_expr(self@.scopes, texpr_view(e)), r),
        decreases e,
    {
        let TypedExpression(expr, t) = e;
        let ghost tv = crate::ast_view::type_view(t);
        let out = match expr {
            Expression::IntegerConstant(i) => Expression::IntegerConstant(i),
            Expression::LongConstant(l) => Expression::LongConstant(l),
            Expression::Cast { expr: x, target_type } => match self.resolve_expr(*x) {
                Ok(y) => Expression::Cast { expr: Box::new(y), target_type },
                Err(m) => return Err(m),
            },
            Expression::Var(name) => match self.current_scope.get_unique_name(name.as_str()) {
                Some(u) => Expression::Var(u),
                None => {
                    let mut m = string_of("Variable `");
                    append_str(&mut m, name.as_str());
                    append_str(&mut m, "` is not defined");
                    return Err(m);
                },
            },
            Expression::FuncCall { name, args } => {
                let unique = match self.current_scope.get_unique_name(name.as_str()) {
                    Some(u) => u,
                    None => {
                        let mut m = string_of("Function `");
                        append_str(&mut m, name.as_str());
                        append_str(&mut m, "` is not defined");
                        return Err(m);
                    },
                };
                match self.resolve_args(args) {
                    Ok(a) => Expression::FuncCall { name: unique, args: a },
                    Err(m) => return Err(m),
                }
            },
            Expression::UnaryExpr(op, x) => match self.resolve_expr(*x) {
                Ok(y) => Expression::UnaryExpr(op, Box::new(y)),
                Err(m) => return Err(m),
            },
            Expression::BinaryExpr(op, l, r) => {
                let l2 = match self.resolve_expr(*l) {
                    Ok(y) => y,
                    Err(m) => return Err(m),
                };
                match self.resolve_expr(*r) {
                    Ok(r2) => Expression::BinaryExpr(op, Box::new(l2), Box::new(r2)),
                    Err(m) => return Err(m),
                }
            },
            Expression::Assignment { left, right, is_postfix } => {
                let is_var = match &left.0 {
                    Expression::Var(_) => true,
                    _ => false,
                };
                if !is_var {
                    assert(!(texpr_view(*left).e is Var));
                    return Err(string_of("Left-hand side of assignment must be a variable"));
                }
                let l2 = match self.resolve_expr(*left) {
                    Ok(y) => y,
                    Err(m) => return Err(m),
                };
                match self.resolve_expr(*right) {
                    Ok(r2) => Expression::Assignment { left: Box::new(l2), right: Box::new(r2), is_postfix },
                    Err(m) => return Err(m),
                }
            },
            Expression::ConditionalExpr { condition, then_expr, else_expr } => {
                let c2 = match self.resolve_expr(*condition) {
                    Ok(y) => y,
                    Err(m) => return Err(m),
                };
                let t2 = match self.resolve_expr(*then_expr) {
                    Ok(y) => y,
                    Err(m) => return Err(m),
                };
                match self.resolve_expr(*else_expr) {
                    Ok(f2) => Expression::ConditionalExpr {
                        condition: Box::new(c2),
                        then_expr: Box::new(t2),
                        else_expr: Box::new(f2),
                    },
                    Err(m) => return Err(m),
                }
            },
        };
        Ok(TypedExpression(out, t))
    }

    /// The arguments of a call with their names resolved, from first to last.
    fn resolve_args(&self, args: Vec<TypedExpression>) -> (r: Result<Vec<TypedExpression>, String>)
        ensures
            match r {
                Ok(v) => resolve_args(self@.scopes, args_view(args@)) == Ok::<Seq<TExprView>, Seq<char>>(args_view(v@)),
                Err(m) => resolve_args(self@.scopes, args_view(args@)) == Err::<Seq<TExprView>, Seq<char>>(m@),
            },
        decreases args,
    {
        let ghost olds = args@;
        let ghost args_g = args;
        let mut rest = args;
        let mut done: Vec<TypedExpression> = Vec::new();
        let ghost n = olds.len();
        assert(rest@ =~= olds.subrange(0, n as int));
        assert(args_view(olds.subrange(0, 0)) =~= Seq::empty());
        assert(args_view(done@) =~= Seq::empty());
        while rest.len() > 0
            invariant
                olds == args_g@,
                args_g == args,
                n == olds.len(),
                done@.len() + rest@.len() == n,
                rest@ == olds.subrange(done@.len() as int, n as int),
                resolve_args(self@.scopes, args_view(olds.subrange(0, done@.len() as int)))
                    == Ok::<Seq<TExprView>, Seq<char>>(args_view(done@)),
            decreases rest@.len(),
        {
            let k = done.len();
            let a = rest.remove(0);
            proof {
                assert(a == olds[k as int]);
                vstd::std_specs::vec::axiom_vec_index_decreases(args_g, k as int);
                assert(decreases_to!(args_g => a));
                let pre = olds.subrange(0, k + 1);
                assert(pre.drop_last() =~= olds.subrange(0, k as int));
                assert(pre.last() == a);
                assert(args_view(pre).drop_last() =~= args_view(olds.subrange(0, k as int)));
            }
            match self.resolve_expr(a) {
                Ok(y) => {
                    proof {
                        assert(done@.push(y).drop_last() =~= done@);
                    }
                    done.push(y);
                    assert(rest@ =~= olds.subrange(done@.len() as int, n as int));
                },
                Err(m) => {
                    proof {
                        lemma_args_error_stays(self@.scopes, olds, k + 1);
                    }
                    return Err(m);
                },
            }
        }
        assert(olds.subrange(0, n as int) =~= olds);
        Ok(done)
    }

    /// Whether the resolver is usable: there is always a current scope.
    pub closed spec fn wf(&self) -> bool {
        self.current_scope@.len() >= 1
    }

    fn open_scope(&mut self)
        ensures
            final(self)@ == opened(old(self)@),
    {
        self.current_scope.new_child();
        assert(self@.blocks =~= old(self)@.blocks);
    }

    fn close_scope(&mut self)
        ensures
            final(self)@ == closed_scope(old(self)@),
    {
        let _ = self.current_scope.get_parent();
        assert(self@.blocks =~= old(self)@.blocks);
    }

    fn declare(&mut self, name: &str, linkage: Linkage) -> (r: Result<String, String>)
        requires
            old(self)@.scopes.len() >= 1,
        ensures
            match declare(old(self)@, name@, linkage) {
                Ok((st, unique)) => r matches Ok(u) && u@ == unique && final(self)@ == st,
                Err(m) => r matches Err(e) && e@ == m,
            },
    {
        let r = self.current_scope.add(name, linkage, &mut self.var_name_generator);
        assert(self@.blocks =~= old(self)@.blocks);
        r
    }

    fn resolve_opt(&self, e: Option<TypedExpression>) -> (r: Result<Option<TypedExpression>, String>)
        ensures
            match r {
                Ok(x) => resolve_opt(self@.scopes, opt_view(e)) == Ok::<Option<TExprView>, Seq<char>>(opt_view(x)),
                Err(m) => resolve_opt(self@.scopes, opt_view(e)) == Err::<Option<TExprView>, Seq<char>>(m@),
            },
    {
        match e {
            None => Ok(None),
            Some(x) => match self.resolve_expr(x) {
                Ok(y) => Ok(Some(y)),
                Err(m) => Err(m),
            },
        }
    }

    fn resolve_var_decl(&mut self, d: VarDeclaration) -> (r: Result<VarDeclaration, String>)
        requires
            old(self)@.scopes.len() >= 1,
        ensures
            match r {
                Ok(d2) => resolve_var_decl(old(self)@, var_decl_view(d)) == ok_state(final(self)@, var_decl_view(d2))
                    && final(self)@.scopes.len() >= 1 && final(self)@.blocks.len() == old(self)@.blocks.len(),
                Err(m) => resolve_var_decl(old(self)@, var_decl_view(d)) == failed::<VarDeclView>(m@),
            },
    {
        let VarDeclaration { name, init_expr, storage_class, var_type } = d;
        let linkage = match storage_class {
            Some(crate::ast::StorageClass::Extern) => Linkage::External,
            _ => Linkage::NoLinkage,
        };
        let unique = match self.declare(name.as_str(), linkage) {
            Ok(u) => u,
            Err(m) => return Err(m),
        };
        let init = match self.resolve_opt(init_expr) {
            Ok(x) => x,
            Err(m) => return Err(m),
        };
        Ok(VarDeclaration { name: unique, init_expr: init, storage_class, var_type })
    }

    fn resolve_stmt(&mut self, s: Statement) -> (r: Result<Statement, String>)
        requires
            old(self)@.scopes.len() >= 1,
            old(self)@.blocks.len() >= 1,
        ensures
            match r {
                Ok(s2) => resolve_stmt(old(self)@, stmt_view(s)) == ok_state(final(self)@, stmt_view(s2))
                    && final(self)@.scopes.len() >= 1 && final(self)@.blocks.len() == old(self)@.blocks.len(),
                Err(m) => resolve_stmt(old(self)@, stmt_view(s)) == failed::<StmtView>(m@),
            },
        decreases s,
    {
        match s {
            Statement::Return(e) => match self.resolve_expr(e) {
                Ok(e2) => Ok(Statement::Return(e2)),
                Err(m) => Err(m),
            },
            Statement::Expression(e) => match self.resolve_expr(e) {
                Ok(e2) => Ok(Statement::Expression(e2)),
                Err(m) => Err(m),
            },
            Statement::While { loop_id, condition, body } => {
                let c2 = match self.resolve_expr(condition) {
                    Ok(x) => x,
                    Err(m) => return Err(m),
                };
                match self.resolve_stmt(*body) {
                    Ok(b2) => Ok(Statement::While { loop_id, condition: c2, body: Box::new(b2) }),
                    Err(m) => Err(m),
                }
            },
            Statement::DoWhile { loop_id, condition, body } => {
                let b2 = match self.resolve_stmt(*body) {
                    Ok(x) => x,
                    Err(m) => return Err(m),
                };
                match self.resolve_expr(condition) {
                    Ok(c2) => Ok(Statement::DoWhile { loop_id, condition: c2, body: Box::new(b2) }),
                    Err(m) => Err(m),
                }
            },
            Statement::For { loop_id, init, condition, post, body } => {
                self.open_scope();
                let init2 = match init {
                    ForInit::InitDeclaration(d) => match self.resolve_var_decl(d) {
                        Ok(d2) => ForInit::InitDeclaration(d2),
                        Err(m) => return Err(m),
                    },
                    ForInit::InitExpression(e) => match self.resolve_opt(e) {
                        Ok(e2) => ForInit::InitExpression(e2),
                        Err(m) => return Err(m),
                    },
                };
                let c2 = match self.resolve_opt(condition) {
                    Ok(x) => x,
                    Err(m) => return Err(m),
                };
                let p2 = match self.resolve_opt(post) {
                    Ok(x) => x,
                    Err(m) => return Err(m),
                };
                let b2 = match self.resolve_stmt(*body) {
                    Ok(x) => x,
                    Err(m) => return Err(m),
                };
                self.close_scope();
                Ok(Statement::For { loop_id, init: init2, condition: c2, post: p2, body: Box::new(b2) })
            },
            Statement::CompoundStatement(b) => match self.resolve_block(b) {
                Ok(b2) => Ok(Statement::CompoundStatement(b2)),
                Err(m) => Err(m),
            },
            Statement::IfStatement { condition, then_branch, else_branch } => {
                let c2 = match self.resolve_expr(condition) {
                    Ok(x) => x,
                    Err(m) => return Err(m),
                };
                let t2 = match self.resolve_stmt(*then_branch) {
                    Ok(x) => x,
                    Err(m) => return Err(m),
                };
                let e2 = match else_branch {
                    None => None,
                    Some(e) => match self.resolve_stmt(*e) {
                        Ok(x) => Some(Box::new(x)),
                        Err(m) => return Err(m),
                    },
                };
                Ok(Statement::IfStatement { condition: c2, then_branch: Box::new(t2), else_branch: e2 })
            },
            Statement::SwitchStatement { switch_id, condition, body, arms } => {
                let c2 = match self.resolve_expr(condition) {
                    Ok(x) => x,
                    Err(m) => return Err(m),
                };
                match self.resolve_stmt(*body) {
                    Ok(b2) => Ok(Statement::SwitchStatement { switch_id, condition: c2, body: Box::new(b2), arms }),
                    Err(m) => Err(m),
                }
            },
            Statement::LabeledStatement { label, statement } => match self.resolve_stmt(*statement) {
                Ok(b2) => Ok(Statement::LabeledStatement { label, statement: Box::new(b2) }),
                Err(m) => Err(m),
            },
            other => Ok(other),
        }
    }

    /// A block: a scope of its own unless it is a function body.
    fn resolve_block(&mut self, b: Block) -> (r: Result<Block, String>)
        requires
            old(self)@.scopes.len() >= 1,
            old(self)@.blocks.len() >= 1,
        ensures
            match r {
                Ok(b2) => resolve_block(old(self)@, items_view(b.items@)) == ok_state(final(self)@, items_view(b2.items@))
                    && final(self)@.scopes.len() >= 1 && final(self)@.blocks.len() == old(self)@.blocks.len(),
                Err(m) => resolve_block(old(self)@, items_view(b.items@)) == failed::<Seq<ItemView>>(m@),
            },
        decreases b,
    {
        let n = self.block_nesting_levels.len();
        let last = self.block_nesting_levels[n - 1];
        if last > 0 {
            self.open_scope();
        }
        let ghost st1 = self@;
        let bumped: usize = if last < usize::MAX { last + 1 } else { last };
        self.block_nesting_levels.set(n - 1, bumped);
        assert(self@.blocks =~= st1.blocks.update(st1.blocks.len() - 1, bump(st1.blocks.last())));
        let items = match self.resolve_items(b.items) {
            Ok(x) => x,
            Err(m) => return Err(m),
        };
        let ghost st3 = self@;
        let level = self.block_nesting_levels[n - 1];
        let lowered: usize = if level > 0 { level - 1 } else { 0 };
        self.block_nesting_levels.set(n - 1, lowered);
        assert(self@.blocks =~= st3.blocks.update(st3.blocks.len() - 1, drop_one(st3.blocks.last())));
        if lowered > 0 {
            self.close_scope();
        }
        Ok(Block::new(items))
    }

    /// The items of a block, from first to last.
    #[verifier::rlimit(50)]
    fn resolve_items(&mut self, items: Vec<BlockItem>) -> (r: Result<Vec<BlockItem>, String>)
        requires
            old(self)@.scopes.len() >= 1,
            old(self)@.blocks.len() >= 1,
        ensures
            match r {
                Ok(v) => resolve_items(old(self)@, items_view(items@)) == ok_state(final(self)@, items_view(v@))
                    && final(self)@.scopes.len() >= 1 && final(self)@.blocks.len() == old(self)@.blocks.len(),
                Err(m) => resolve_items(old(self)@, items_view(items@)) == failed::<Seq<ItemView>>(m@),
            },
        decreases items,
    {
        let ghost st0 = self@;
        let ghost olds = items@;
        let ghost items_g = items;
        let mut rest = items;
        let mut done: Vec<BlockItem> = Vec::new();
        let ghost n = olds.len();
        assert(rest@ =~= olds.subrange(0, n as int));
        assert(items_view(olds.subrange(0, 0)) =~= Seq::empty());
        assert(items_view(done@) =~= Seq::empty());
        while rest.len() > 0
            invariant
                olds == items_g@,
                items_g == items,
                st0 == old(self)@,
                st0.blocks.len() >= 1,
                n == olds.len(),
                done@.len() + rest@.len() == n,
                rest@ == olds.subrange(done@.len() as int, n as int),
                self@.scopes.len() >= 1,
                self@.blocks.len() == st0.blocks.len(),
                resolve_items(st0, items_view(olds.subrange(0, done@.len() as int)))
                    == ok_state(self@, items_view(done@)),
            decreases rest@.len(),
        {
            let k = done.len();
            let item = rest.remove(0);
            proof {
                assert(item == olds[k as int]);
                vstd::std_specs::vec::axiom_vec_index_decreases(items_g, k as int);
                assert(decreases_to!(items_g => item));
                let pre = olds.subrange(0, k + 1);
                assert(pre.drop_last() =~= olds.subrange(0, k as int));
                assert(pre.last() == item);
                assert(items_view(pre).drop_last() =~= items_view(olds.subrange(0, k as int)));
            }
            match self.resolve_item(item) {
                Ok(y) => {
                    proof {
                        assert(done@.push(y).drop_last() =~= done@);
                    }
                    done.push(y);
                    assert(rest@ =~= olds.subrange(done@.len() as int, n as int));
                },
                Err(m) => {
                    proof {
                        lemma_items_error_stays(st0, olds, k + 1);
                    }
                    return Err(m);
                },
            }
        }
        assert(olds.subrange(0, n as int) =~= olds);
        Ok(done)
    }

    #[verifier::rlimit(50)]
    fn resolve_item(&mut self, item: BlockItem) -> (r: Result<BlockItem, String>)
        requires
            old(self)@.scopes.len() >= 1,
            old(self)@.blocks.len() >= 1,
        ensures
            match r {
                Ok(x) => resolve_item(old(self)@, item_view(item)) == ok_state(final(self)@, item_view(x))
                    && final(self)@.scopes.len() >= 1 && final(self)@.blocks.len() == old(self)@.blocks.len(),
                Err(m) => resolve_item(old(self)@, item_view(item)) == failed::<ItemView>(m@),
            },
        decreases item,
    {
        match item {
            BlockItem::VarDeclaration(d) => match self.resolve_var_decl(d) {
                Ok(d2) => Ok(BlockItem::VarDeclaration(d2)),
                Err(m) => Err(m),
            },
            BlockItem::FunctionDeclaration(f) => match self.resolve_function(f) {
                Ok(f2) => Ok(BlockItem::FunctionDeclaration(f2)),
                Err(m) => Err(m),
            },
            BlockItem::Statement(st) => match self.resolve_stmt(st) {
                Ok(s2) => Ok(BlockItem::Statement(s2)),
                Err(m) => Err(m),
            },
        }
    }

    /// A function declaration with its parameters and body.
    #[verifier::loop_isolation(false)]
    #[verifier::rlimit(50)]
    fn resolve_function(&mut self, f: FunctionDeclaration) -> (r: Result<FunctionDeclaration, String>)
        requires
            old(self)@.scopes.len() >= 1,
        ensures
            match r {
                Ok(f2) => resolve_function(old(self)@, func_decl_view(f)) == ok_state(final(self)@, func_decl_view(f2))
                    && final(self)@.scopes.len() >= 1 && final(self)@.blocks.len() == old(self)@.blocks.len(),
                Err(m) => resolve_function(old(self)@, func_decl_view(f)) == failed::<FuncDeclView>(m@),
            },
        decreases f,
    {
        let FunctionDeclaration { name, parameters, body, storage_class, func_type } = f;
        if body.is_some() && self.function_nesting_level > 0 {
            return Err(string_of("Nested function definitions are not allowed"));
        }
        let unique = match self.declare(name.as_str(), Linkage::External) {
            Ok(u) => u,
            Err(m) => return Err(m),
        };
        self.open_scope();
        let ghost st0 = self@;
        let ghost olds = names_view(parameters@);
        let ghost params_g = parameters@;
        let mut rest = parameters;
        let mut done: Vec<String> = Vec::new();
        let ghost n = olds.len();
        assert(rest@ =~= params_g.subrange(0, n as int));
        assert(olds.subrange(0, 0) =~= Seq::<Seq<char>>::empty());
        assert(names_view(done@) =~= Seq::<Seq<char>>::empty());
        while rest.len() > 0
            invariant
                olds == names_view(params_g),
                st0.scopes.len() >= 1,
                n == olds.len(),
                done@.len() + rest@.len() == n,
                rest@ == params_g.subrange(done@.len() as int, n as int),
                self@.scopes.len() >= 1,
                self@.blocks == st0.blocks,
                self@.fn_level == st0.fn_level,
                resolve_params(st0, olds.subrange(0, done@.len() as int)) == ok_state(self@, names_view(done@)),
            decreases rest@.len(),
        {
            let k = done.len();
            let param = rest.remove(0);
            proof {
                assert(param == params_g[k as int]);
                assert(param@ == olds[k as int]);
                let pre = olds.subrange(0, k + 1);
                assert(pre.drop_last() =~= olds.subrange(0, k as int));
                assert(pre.last() == param@);
            }
            match self.declare(param.as_str(), Linkage::NoLinkage) {
                Ok(u) => {
                    proof {
                        assert(names_view(done@.push(u)) =~= names_view(done@).push(u@));
                    }
                    done.push(u);
                    assert(rest@ =~= params_g.subrange(done@.len() as int, n as int));
                },
                Err(m) => {
                    proof {
                        lemma_params_error_stays(st0, olds, k + 1);
                    }
                    return Err(m);
                },
            }
        }
        assert(olds.subrange(0, n as int) =~= olds);
        let level = self.function_nesting_level;
        self.function_nesting_level = if level < usize::MAX { level + 1 } else { level };
        self.block_nesting_levels.push(0);
        assert(self@.blocks =~= st0.blocks.push(0));
        let body2 = match body {
            None => None,
            Some(b) => match self.resolve_block(b) {
                Ok(b2) => Some(b2),
                Err(m) => return Err(m),
            },
        };
        let ghost st4 = self@;
        let level = self.function_nesting_level;
        self.function_nesting_level = if level > 0 { level - 1 } else { 0 };
        let _ = self.block_nesting_levels.pop();
        assert(self@.blocks =~= st4.blocks.drop_last());
        self.close_scope();
        Ok(FunctionDeclaration { name: unique, parameters: done, body: body2, storage_class, func_type })
    }

    /// Replaces every variable, parameter and function name in the program by the unique name
    /// it stands for, or gives the first error met, in the order of the program text. On an
    /// error the declarations before the failing one stay resolved, and that one and the later
    /// ones stay as they were.
    #[verifier::loop_isolation(false)]
    pub fn resolve(&mut self, program: &mut Program) -> (r: Result<(), String>)
        requires
            old(self).wf(),
        ensures
            r is Ok ==> final(self).wf(),
            match r {
                Ok(()) => resolve_decls(old(self)@, decls_view(old(program).decls@))
                    == ok_state(final(self)@, decls_view(final(program).decls@)),
                Err(m) => resolve_decls(old(self)@, decls_view(old(program).decls@)) == failed::<Seq<DeclView>>(m@)
                    && exists|k: int| #[trigger] resolve_left(
                        old(self)@,
                        decls_view(old(program).decls@),
                        decls_view(final(program).decls@),
                        k,
                    ),
            },
    {
        let ghost st0 = self@;
        let ghost olds = decls_view(program.decls@);
        let mut rest: Vec<Declaration> = Vec::new();
        std::mem::swap(&mut rest, &mut program.decls);
        let ghost rest_g = rest@;
        let mut done: Vec<Declaration> = Vec::new();
        let ghost n = olds.len();
        assert(rest@ =~= rest_g.subrange(0, n as int));
        assert(olds.subrange(0, 0) =~= Seq::<DeclView>::empty());
        assert(decls_view(done@) =~= Seq::<DeclView>::empty());
        while rest.len() > 0
            invariant
                olds == decls_view(rest_g),
                st0 == old(self)@,
                n == olds.len(),
                done@.len() + rest@.len() == n,
                rest@ == rest_g.subrange(done@.len() as int, n as int),
                self.wf(),
                resolve_decls(st0, olds.subrange(0, done@.len() as int)) == ok_state(self@, decls_view(done@)),
            decreases rest@.len(),
        {
            let k = done.len();
            let decl = rest.remove(0);
            proof {
                assert(decl == rest_g[k as int]);
                let pre = olds.subrange(0, k + 1);
                assert(pre.drop_last() =~= olds.subrange(0, k as int));
                assert(pre.last() == decl_view(decl));
            }
            let kept = copy_decl(&decl);
            let result = match decl {
                Declaration::FunctionDecl(f) => match self.resolve_function(f) {
                    Ok(f2) => Ok(Declaration::FunctionDecl(f2)),
                    Err(m) => Err(m),
                },
                Declaration::VarDecl(v) => match self.resolve_var_decl(v) {
                    Ok(v2) => Ok(Declaration::VarDecl(v2)),
                    Err(m) => Err(m),
                },
            };
            match result {
                Ok(d2) => {
                    proof {
                        assert(decls_view(done@.push(d2)) =~= decls_view(done@).push(decl_view(d2)));
                    }
                    done.push(d2);
                    assert(rest@ =~= rest_g.subrange(done@.len() as int, n as int));
                },
                Err(m) => {
                    proof {
                        lemma_decls_error_stays(st0, olds, k + 1);
                    }
                    let ghost done_v = decls_view(done@);
                    let ghost rest_v = decls_view(rest@);
                    program.decls = restore_decls(done, kept, rest);
                    proof {
                        assert(rest_v =~= olds.subrange(k + 1, n as int));
                        assert(done_v.push(olds[k as int]) + rest_v =~= done_v + olds.subrange(k as int, n as int));
                        assert(resolve_left(st0, olds, decls_view(program.decls@), k as int));
                    }
                    return Err(m);
                },
            }
        }
        assert(olds.subrange(0, n as int) =~= olds);
        program.decls = done;
        Ok(())
    }
}

} // verus!
