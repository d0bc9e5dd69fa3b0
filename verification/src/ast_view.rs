use vstd::prelude::*;

use crate::ast::{
    same_expr, same_type, BinaryOp, Block, BlockItem, Declaration, Expression, ForInit, FunctionDeclaration, Label,
    Program, Statement, StorageClass, Type, TypedExpression, UnaryOp, VarDeclaration,
};

verus! {

/// A type as a mathematical value.
pub enum TypeView {
    Int,
    Long,
    Function { ret: Box<TypeView>, params: Seq<TypeView> },
    Undefined,
}

/// An expression with its type, names as text and lists as sequences.
pub struct TExprView {
    pub e: ExprView,
    pub t: TypeView,
}

pub enum ExprView {
    IntegerConstant(i32),
    LongConstant(i64),
    Cast(Box<TExprView>, TypeView),
    Var(Seq<char>),
    FuncCall(Seq<char>, Seq<TExprView>),
    Unary(UnaryOp, Box<TExprView>),
    Binary(BinaryOp, Box<TExprView>, Box<TExprView>),
    Assignment(Box<TExprView>, Box<TExprView>, bool),
    Conditional(Box<TExprView>, Box<TExprView>, Box<TExprView>),
}

pub enum LabelView {
    Named(Seq<char>),
    Case(Seq<char>, TExprView),
    Default(Seq<char>),
}

pub struct VarDeclView {
    pub name: Seq<char>,
    pub init: Option<TExprView>,
    pub storage: Option<StorageClass>,
    pub t: TypeView,
}

pub struct FuncDeclView {
    pub name: Seq<char>,
    pub params: Seq<Seq<char>>,
    pub body: Option<Seq<ItemView>>,
    pub storage: Option<StorageClass>,
    pub t: TypeView,
}

pub enum ForInitView {
    Decl(VarDeclView),
    Expr(Option<TExprView>),
}

pub enum StmtView {
    Return(TExprView),
    Expression(TExprView),
    Null,
    Break(Seq<char>),
    Continue(Seq<char>),
    While(Seq<char>, TExprView, Box<StmtView>),
    DoWhile(Seq<char>, TExprView, Box<StmtView>),
    For(Seq<char>, ForInitView, Option<TExprView>, Option<TExprView>, Box<StmtView>),
    Compound(Seq<ItemView>),
    If(TExprView, Box<StmtView>, Option<Box<StmtView>>),
    Switch(Seq<char>, TExprView, Box<StmtView>, Seq<(Seq<char>, Option<TExprView>)>),
    Goto(Seq<char>),
    Labeled(LabelView, Box<StmtView>),
}

pub enum ItemView {
    Var(VarDeclView),
    Func(FuncDeclView),
    Stmt(StmtView),
}

pub enum DeclView {
    Func(FuncDeclView),
    Var(VarDeclView),
}

pub open spec fn type_view(t: Type) -> TypeView
    decreases t, 1nat,
{
    match t {
        Type::Int => TypeView::Int,
        Type::Long => TypeView::Long,
        Type::Undefined => TypeView::Undefined,
        Type::Function { return_type, param_types } => TypeView::Function {
            ret: Box::new(type_view(*return_type)),
            params: types_view(param_types@),
        },
    }
}

pub open spec fn types_view(ts: Seq<Type>) -> Seq<TypeView>
    decreases ts, 0nat,
{
    if ts.len() == 0 {
        Seq::empty()
    } else {
        types_view(ts.drop_last()).push(type_view(ts.last()))
    }
}

pub open spec fn texpr_view(e: TypedExpression) -> TExprView
    decreases e, 1nat,
{
    TExprView {
        e: match e.0 {
            Expression::IntegerConstant(i) => ExprView::IntegerConstant(i),
            Expression::LongConstant(l) => ExprView::LongConstant(l),
            Expression::Cast { expr, target_type } => ExprView::Cast(Box::new(texpr_view(*expr)), type_view(target_type)),
            Expression::Var(n) => ExprView::Var(n@),
            Expression::FuncCall { name, args } => ExprView::FuncCall(name@, args_view(args@)),
            Expression::UnaryExpr(op, x) => ExprView::Unary(op, Box::new(texpr_view(*x))),
            Expression::BinaryExpr(op, l, r) => ExprView::Binary(op, Box::new(texpr_view(*l)), Box::new(texpr_view(*r))),
            Expression::Assignment { left, right, is_postfix } => ExprView::Assignment(
                Box::new(texpr_view(*left)),
                Box::new(texpr_view(*right)),
                is_postfix,
            ),
            Expression::ConditionalExpr { condition, then_expr, else_expr } => ExprView::Conditional(
                Box::new(texpr_view(*condition)),
                Box::new(texpr_view(*then_expr)),
                Box::new(texpr_view(*else_expr)),
            ),
        },
        t: type_view(e.1),
    }
}

pub open spec fn args_view(args: Seq<TypedExpression>) -> Seq<TExprView>
    decreases args, 0nat,
{
    if args.len() == 0 {
        Seq::empty()
    } else {
        args_view(args.drop_last()).push(texpr_view(args.last()))
    }
}

pub open spec fn opt_view(e: Option<TypedExpression>) -> Option<TExprView> {
    match e {
        Some(x) => Some(texpr_view(x)),
        None => None,
    }
}

pub open spec fn var_decl_view(d: VarDeclaration) -> VarDeclView {
    VarDeclView { name: d.name@, init: opt_view(d.init_expr), storage: d.storage_class, t: type_view(d.var_type) }
}

pub open spec fn names_view(ns: Seq<String>) -> Seq<Seq<char>> {
    ns.map_values(|s: String| s@)
}

pub open spec fn label_view(l: Label) -> LabelView {
    match l {
        Label::Label(n) => LabelView::Named(n@),
        Label::Case { case_id, value } => LabelView::Case(case_id@, texpr_view(value)),
        Label::Default { default_id } => LabelView::Default(default_id@),
    }
}

pub open spec fn arms_view(arms: Seq<(String, Option<TypedExpression>)>) -> Seq<(Seq<char>, Option<TExprView>)> {
    arms.map_values(|a: (String, Option<TypedExpression>)| (a.0@, opt_view(a.1)))
}

pub open spec fn stmt_view(s: Statement) -> StmtView
    decreases s, 1nat,
{
    match s {
        Statement::Return(e) => StmtView::Return(texpr_view(e)),
        Statement::Expression(e) => StmtView::Expression(texpr_view(e)),
        Statement::Null => StmtView::Null,
        Statement::Break { loop_id } => StmtView::Break(loop_id@),
        Statement::Continue { loop_id } => StmtView::Continue(loop_id@),
        Statement::While { loop_id, condition, body } => StmtView::While(loop_id@, texpr_view(condition), Box::new(stmt_view(*body))),
        Statement::DoWhile { loop_id, condition, body } => StmtView::DoWhile(loop_id@, texpr_view(condition), Box::new(stmt_view(*body))),
        Statement::For { loop_id, init, condition, post, body } => StmtView::For(
            loop_id@,
            match init {
                ForInit::InitDeclaration(d) => ForInitView::Decl(var_decl_view(d)),
                ForInit::InitExpression(e) => ForInitView::Expr(opt_view(e)),
            },
            opt_view(condition),
            opt_view(post),
            Box::new(stmt_view(*body)),
        ),
        Statement::CompoundStatement(b) => StmtView::Compound(items_view(b.items@)),
        Statement::IfStatement { condition, then_branch, else_branch } => StmtView::If(
            texpr_view(condition),
            Box::new(stmt_view(*then_branch)),
            match else_branch {
                Some(e) => Some(Box::new(stmt_view(*e))),
                None => None,
            },
        ),
        Statement::SwitchStatement { switch_id, condition, body, arms } => StmtView::Switch(
            switch_id@,
            texpr_view(condition),
            Box::new(stmt_view(*body)),
            arms_view(arms@),
        ),
        Statement::GotoStatement(l) => StmtView::Goto(l@),
        Statement::LabeledStatement { label, statement } => StmtView::Labeled(label_view(label), Box::new(stmt_view(*statement))),
    }
}

pub open spec fn items_view(items: Seq<BlockItem>) -> Seq<ItemView>
    decreases items, 0nat,
{
    if items.len() == 0 {
        Seq::empty()
    } else {
        items_view(items.drop_last()).push(item_view(items.last()))
    }
}

pub open spec fn item_view(item: BlockItem) -> ItemView
    decreases item, 1nat,
{
    match item {
        BlockItem::VarDeclaration(d) => ItemView::Var(var_decl_view(d)),
        BlockItem::FunctionDeclaration(f) => ItemView::Func(func_decl_view(f)),
        BlockItem::Statement(s) => ItemView::Stmt(stmt_view(s)),
    }
}

pub open spec fn func_decl_view(f: FunctionDeclaration) -> FuncDeclView
    decreases f, 1nat,
{
    FuncDeclView {
        name: f.name@,
        params: names_view(f.parameters@),
        body: match f.body {
            Some(b) => Some(items_view(b.items@)),
            None => None,
        },
        storage: f.storage_class,
        t: type_view(f.func_type),
    }
}

pub open spec fn decl_view(d: Declaration) -> DeclView {
    match d {
        Declaration::FunctionDecl(f) => DeclView::Func(func_decl_view(f)),
        Declaration::VarDecl(v) => DeclView::Var(var_decl_view(v)),
    }
}

pub open spec fn decls_view(ds: Seq<Declaration>) -> Seq<DeclView> {
    ds.map_values(|d: Declaration| decl_view(d))
}

/// Types that are the same type have the same view.
pub proof fn lemma_same_type_view(a: Type, b: Type)
    requires
        same_type(a, b),
    ensures
        type_view(a) == type_view(b),
    decreases a, 1nat,
{
    if let Type::Function { return_type: ra, param_types: pa } = a {
        if let Type::Function { return_type: rb, param_types: pb } = b {
            lemma_same_type_view(*ra, *rb);
            lemma_same_types_view(pa@, pb@);
        }
    }
}

/// Lists of types that are the same position by position have the same view.
pub proof fn lemma_same_types_view(pa: Seq<Type>, pb: Seq<Type>)
    requires
        pa.len() == pb.len(),
        forall|i: int| #![trigger pa[i]] 0 <= i < pa.len() ==> same_type(pa[i], pb[i]),
    ensures
        types_view(pa) == types_view(pb),
    decreases pa, 0nat,
{
    if pa.len() > 0 {
        lemma_same_types_view(pa.drop_last(), pb.drop_last());
        lemma_same_type_view(pa.last(), pb.last());
    }
}

/// Expressions that are copies of each other have the same view.
pub proof fn lemma_same_expr_view(a: TypedExpression, b: TypedExpression)
    requires
        same_expr(a, b),
    ensures
        texpr_view(a) == texpr_view(b),
    decreases a, 1nat,
{
    lemma_same_type_view(a.1, b.1);
    match (a.0, b.0) {
        (Expression::Cast { expr: x, target_type: tx }, Expression::Cast { expr: y, target_type: ty }) => {
            lemma_same_expr_view(*x, *y);
            lemma_same_type_view(tx, ty);
        },
        (Expression::FuncCall { name: nx, args: ax }, Expression::FuncCall { name: ny, args: ay }) => {
            lemma_same_args_view(ax@, ay@);
        },
        (Expression::UnaryExpr(ox, x), Expression::UnaryExpr(oy, y)) => {
            lemma_same_expr_view(*x, *y);
        },
        (Expression::BinaryExpr(ox, lx, rx), Expression::BinaryExpr(oy, ly, ry)) => {
            lemma_same_expr_view(*lx, *ly);
            lemma_same_expr_view(*rx, *ry);
        },
        (
            Expression::Assignment { left: lx, right: rx, is_postfix: px },
            Expression::Assignment { left: ly, right: ry, is_postfix: py },
        ) => {
            lemma_same_expr_view(*lx, *ly);
            lemma_same_expr_view(*rx, *ry);
        },
        (
            Expression::ConditionalExpr { condition: cx, then_expr: tx, else_expr: ex },
            Expression::ConditionalExpr { condition: cy, then_expr: ty, else_expr: ey },
        ) => {
            lemma_same_expr_view(*cx, *cy);
            lemma_same_expr_view(*tx, *ty);
            lemma_same_expr_view(*ex, *ey);
        },
        _ => {},
    }
}

/// Lists of expressions that are copies position by position have the same view.
pub proof fn lemma_same_args_view(xs: Seq<TypedExpression>, ys: Seq<TypedExpression>)
    requires
        xs.len() == ys.len(),
        forall|i: int| #![trigger xs[i]] 0 <= i < xs.len() ==> same_expr(xs[i], ys[i]),
    ensures
        args_view(xs) == args_view(ys),
    decreases xs, 0nat,
{
    if xs.len() > 0 {
        lemma_same_args_view(xs.drop_last(), ys.drop_last());
        lemma_same_expr_view(xs.last(), ys.last());
    }
}

/// The view of a list of types has one view per type, in order.
pub proof fn lemma_types_view_index(ts: Seq<Type>)
    ensures
        types_view(ts).len() == ts.len(),
        forall|i: int| 0 <= i < ts.len() ==> #[trigger] types_view(ts)[i] == type_view(ts[i]),
    decreases ts.len(),
{
    if ts.len() > 0 {
        lemma_types_view_index(ts.drop_last());
        assert forall|i: int| 0 <= i < ts.len() implies #[trigger] types_view(ts)[i] == type_view(ts[i]) by {
            if i < ts.len() - 1 {
                assert(ts.drop_last()[i] == ts[i]);
            }
        }
    }
}

/// Types with the same view are the same type.
pub proof fn lemma_view_same_type(a: Type, b: Type)
    requires
        type_view(a) == type_view(b),
    ensures
        same_type(a, b),
    decreases a,
{
    if let Type::Function { return_type: ra, param_types: pa } = a {
        if let Type::Function { return_type: rb, param_types: pb } = b {
            lemma_view_same_type(*ra, *rb);
            lemma_types_view_index(pa@);
            lemma_types_view_index(pb@);
            assert forall|i: int| #![trigger pa@[i]] 0 <= i < pa@.len() implies same_type(pa@[i], pb@[i]) by {
                assert(types_view(pa@)[i] == types_view(pb@)[i]);
                vstd::std_specs::vec::axiom_vec_index_decreases(pa, i);
                lemma_view_same_type(pa@[i], pb@[i]);
            }
        }
    }
}

/// The view of a list of expressions has one view per expression, in order.
pub proof fn lemma_args_view_index(xs: Seq<TypedExpression>)
    ensures
        args_view(xs).len() == xs.len(),
        forall|i: int| 0 <= i < xs.len() ==> #[trigger] args_view(xs)[i] == texpr_view(xs[i]),
    decreases xs.len(),
{
    if xs.len() > 0 {
        lemma_args_view_index(xs.drop_last());
        assert forall|i: int| 0 <= i < xs.len() implies #[trigger] args_view(xs)[i] == texpr_view(xs[i]) by {
            if i < xs.len() - 1 {
                assert(xs.drop_last()[i] == xs[i]);
            }
        }
    }
}

} // verus!
