use vstd::prelude::*;

use crate::ast::{
    Block, BlockItem, Declaration, Expression, ForInit, FunctionDeclaration, Program, Statement,
    StorageClass, Type, TypedExpression, UnaryOp, VarDeclaration,
};
use crate::ast_view::{
    args_view, decl_view, decls_view, func_decl_view, item_view, items_view, lemma_same_type_view,
    lemma_view_same_type, opt_view, stmt_view, texpr_view, type_view, types_view, var_decl_view,
    DeclView, ExprView, FuncDeclView, ItemView, StmtView, TExprView, TypeView, VarDeclView,
};
use crate::ast_copy::{copy_decl, restore_decls};
use crate::common::symbol_table::{IdentAttrs, InitValue, InitialValue, SymbolTableEntry};
use crate::common::symbol_table_generic::SymbolTable;
use crate::util::{append_decimal, append_str, decimal, string_of};

verus! {

broadcast use vstd::std_specs::vec::group_vec_axioms;

/// The symbol table as the type checker sees it: for each name its type and attributes.
pub type TypeTable = Map<Seq<char>, (TypeView, IdentAttrs)>;

/// The view of a symbol table.
pub open spec fn table_view(m: Map<Seq<char>, SymbolTableEntry>) -> TypeTable {
    Map::new(|k: Seq<char>| m.contains_key(k), |k: Seq<char>| (type_view(m[k].c_type), m[k].attrs))
}

/// `e` converted to type `t`: unchanged when it has that type already, else cast.
pub open spec fn convert_to(e: TExprView, t: TypeView) -> TExprView {
    if e.t == t {
        e
    } else {
        TExprView { e: ExprView::Cast(Box::new(e), t), t }
    }
}

/// Each argument converted to the type of its parameter.
pub open spec fn convert_args(args: Seq<TExprView>, params: Seq<TypeView>) -> Seq<TExprView> {
    Seq::new(args.len(), |i: int| convert_to(args[i], params[i]))
}

/// The type annotation of an expression: constants, variables, calls, casts and unary
/// expressions get a type (a unary operator other than `!` becomes `!` keeping its operand's
/// type); the operands of calls are converted but not annotated; other expressions stay as
/// they are.
pub open spec fn type_expr(table: TypeTable, e: TExprView) -> Result<TExprView, Seq<char>>
    decreases e,
{
    match e.e {
        ExprView::IntegerConstant(i) => Ok(TExprView { e: e.e, t: TypeView::Int }),
        ExprView::LongConstant(l) => Ok(TExprView { e: e.e, t: TypeView::Long }),
        ExprView::Cast(x, t) => match type_expr(table, *x) {
            Ok(y) => Ok(TExprView { e: ExprView::Cast(Box::new(y), t), t }),
            Err(m) => Err(m),
        },
        ExprView::Var(n) => if !table.contains_key(n) {
            Err("Undefined variable '"@ + n + "'"@)
        } else {
            match table[n].0 {
                TypeView::Function { .. } => Err("Identifier '"@ + n + "' is a function, but used as a variable"@),
                TypeView::Undefined => Err("variable '"@ + n + "' has an undefined type"@),
                t => Ok(TExprView { e: e.e, t }),
            }
        },
        ExprView::FuncCall(n, args) => if !table.contains_key(n) {
            Err("function '"@ + n + "' has not been defined"@)
        } else {
            match table[n].0 {
                TypeView::Function { ret, params } => if params.len() != args.len() {
                    Err("Function '"@ + n + "' expects "@ + decimal(params.len()) + " arguments, but "@
                        + decimal(args.len()) + " were provided"@)
                } else {
                    Ok(TExprView { e: ExprView::FuncCall(n, convert_args(args, params)), t: *ret })
                },
                _ => Err("Identifier '"@ + n + "' is not a function"@),
            }
        },
        ExprView::Unary(op, x) => match type_expr(table, *x) {
            Ok(y) => Ok(TExprView {
                e: ExprView::Unary(UnaryOp::Not, Box::new(y)),
                t: if op == UnaryOp::Not { TypeView::Int } else { y.t },
            }),
            Err(m) => Err(m),
        },
        _ => Ok(e),
    }
}

/// An optional expression annotated.
pub open spec fn type_opt(table: TypeTable, e: Option<TExprView>) -> Result<Option<TExprView>, Seq<char>> {
    match e {
        None => Ok(None),
        Some(x) => match type_expr(table, x) {
            Ok(y) => Ok(Some(y)),
            Err(m) => Err(m),
        },
    }
}

/// The return type of the function being checked, if there is one and its type is a function
/// type.
pub open spec fn return_type(cur: Option<TypeView>) -> Result<TypeView, Seq<char>> {
    match cur {
        None => Err("return statement outside of function"@),
        Some(TypeView::Function { ret, .. }) => Ok(*ret),
        Some(_) => Err("Return type is not a function"@),
    }
}

/// Law: the type checker gives an expression the type C gives it: `int` to an integer
/// constant, `long` to a long constant, the target type to a cast, the declared type to a
/// variable, the return type to a call, `int` to a logical not; and each argument of a call
/// is converted to the type of its parameter, by a cast around it where its type differs.
pub proof fn law_expression_types(table: TypeTable, e: TExprView)
    requires
        type_expr(table, e) is Ok,
    ensures
        ({
            let y = type_expr(table, e)->Ok_0;
            match e.e {
                ExprView::IntegerConstant(_) => y.t == TypeView::Int,
                ExprView::LongConstant(_) => y.t == TypeView::Long,
                ExprView::Cast(_, t) => y.t == t,
                ExprView::Var(n) => y.t == table[n].0,
                ExprView::FuncCall(n, args) => match table[n].0 {
                    TypeView::Function { ret, params } => {
                        &&& y.t == *ret
                        &&& y.e matches ExprView::FuncCall(m, converted) && m == n && converted.len() == args.len()
                            && forall|i: int| #![trigger converted[i]] 0 <= i < args.len() ==> {
                                &&& converted[i].t == params[i]
                                &&& (args[i].t == params[i] ==> converted[i] == args[i])
                                &&& (args[i].t != params[i] ==> converted[i].e == ExprView::Cast(Box::new(args[i]), params[i]))
                            }
                    },
                    _ => false,
                },
                ExprView::Unary(op, _) => op == UnaryOp::Not ==> y.t == TypeView::Int,
                _ => y == e,
            }
        }),
{
}

/// The initial value that a constant initializer gives, if it is a constant.
pub open spec fn constant_init(e: TExprView) -> Option<InitialValue> {
    match e.e {
        ExprView::IntegerConstant(i) => Some(InitialValue::Initialized(InitValue::Int(i))),
        ExprView::LongConstant(l) => Some(InitialValue::Initialized(InitValue::Long(l))),
        _ => None,
    }
}

/// A variable declared at file scope: its initializer must be a constant; a declaration may
/// repeat one of a variable with a compatible linkage and at most one initializer.
pub open spec fn check_file_var(table: TypeTable, v: VarDeclView) -> Result<TypeTable, Seq<char>> {
    let init: Result<Option<InitialValue>, Seq<char>> = match v.init {
        Some(e) => match constant_init(e) {
            Some(i) => Ok(Some(i)),
            None => Err("Only integer constants are allowed as initializers for file-scope variables"@),
        },
        None => if v.storage == Some(StorageClass::Extern) {
            Ok(None)
        } else {
            Ok(Some(InitialValue::Tentative))
        },
    };
    let is_global = v.storage != Some(StorageClass::Static);
    match init {
        Err(m) => Err(m),
        Ok(init_value) => if !table.contains_key(v.name) {
            Ok(table.insert(v.name, (v.t, IdentAttrs::Static { init_value, is_global })))
        } else if table[v.name].0 is Function {
            Err("Name '"@ + v.name + "' has already been declared as a function"@)
        } else {
            match table[v.name].1 {
                IdentAttrs::Static { init_value: init_other, is_global: global_other } => {
                    if v.storage != Some(StorageClass::Extern) && is_global != global_other {
                        Err("Conflicting variable linkage"@)
                    } else {
                        let global = if v.storage == Some(StorageClass::Extern) { global_other } else { is_global };
                        let merged: Result<Option<InitialValue>, Seq<char>> = match init_other {
                            Some(InitialValue::Initialized(x)) => match init_value {
                                Some(InitialValue::Initialized(_)) => Err("Conflicting initializers for variable '"@ + v.name + "'"@),
                                _ => Ok(init_other),
                            },
                            Some(InitialValue::Tentative) => match init_value {
                                Some(InitialValue::Initialized(_)) => Ok(init_value),
                                _ => Ok(Some(InitialValue::Tentative)),
                            },
                            None => Ok(init_value),
                        };
                        match merged {
                            Err(m) => Err(m),
                            Ok(iv) => Ok(table.insert(v.name, (table[v.name].0, IdentAttrs::Static { init_value: iv, is_global: global }))),
                        }
                    }
                },
                _ => Err("Conflicting variable definitions for '"@ + v.name + "'"@),
            }
        }
    }
}

/// A variable declared in a block: `extern` ones may have no initializer and must agree in type
/// with an earlier declaration; `static` ones need a constant initializer (0 if none); others
/// must be new names.
pub open spec fn check_block_var(table: TypeTable, v: VarDeclView) -> Result<TypeTable, Seq<char>> {
    match v.storage {
        Some(StorageClass::Extern) => if v.init is Some {
            Err("Block-scope extern variable '"@ + v.name + "' cannot have an initializer"@)
        } else if table.contains_key(v.name) {
            if table[v.name].0 != v.t {
                Err("variable "@ + v.name + " has already been defined with a different type"@)
            } else {
                Ok(table)
            }
        } else {
            Ok(table.insert(v.name, (v.t, IdentAttrs::Static { init_value: None, is_global: true })))
        },
        Some(StorageClass::Static) => {
            let init: Result<Option<InitialValue>, Seq<char>> = match v.init {
                Some(e) => match constant_init(e) {
                    Some(i) => Ok(Some(i)),
                    None => Err("Non-constant initializer for local static declaration of "@ + v.name),
                },
                None => Ok(Some(InitialValue::Initialized(InitValue::Int(0)))),
            };
            match init {
                Err(m) => Err(m),
                Ok(init_value) => Ok(table.insert(v.name, (v.t, IdentAttrs::Static { init_value, is_global: false }))),
            }
        },
        None => if table.contains_key(v.name) {
            Err("Name '"@ + v.name + "' has already been defined"@)
        } else {
            Ok(table.insert(v.name, (v.t, IdentAttrs::Local)))
        },
    }
}

/// The parameters entered as locals with their types, as far as both lists go.
pub open spec fn enter_params(table: TypeTable, names: Seq<Seq<char>>, types: Seq<TypeView>) -> TypeTable
    decreases names.len(),
{
    if names.len() == 0 || types.len() == 0 {
        table
    } else {
        enter_params(table.insert(names[0], (types[0], IdentAttrs::Local)), names.drop_first(), types.drop_first())
    }
}

/// The state of type checking: the symbol table and the type of the function whose body is
/// being checked, if any.
pub struct TState {
    pub table: TypeTable,
    pub cur: Option<TypeView>,
}

/// A statement with its expressions annotated; declarations in it enter the symbol table.
pub open spec fn type_stmt(st: TState, s: StmtView) -> Result<(TState, StmtView), Seq<char>>
    decreases s, 0nat,
{
    match s {
        StmtView::Return(e) => match return_type(st.cur) {
            Err(m) => Err(m),
            Ok(rt) => match type_expr(st.table, e) {
                Ok(y) => Ok((st, StmtView::Return(convert_to(y, rt)))),
                Err(m) => Err(m),
            },
        },
        StmtView::Expression(e) => match type_expr(st.table, e) {
            Ok(y) => Ok((st, StmtView::Expression(y))),
            Err(m) => Err(m),
        },
        StmtView::While(id, c, body) => match type_expr(st.table, c) {
            Err(m) => Err(m),
            Ok(c2) => match type_stmt(st, *body) {
                Ok((st1, b2)) => Ok((st1, StmtView::While(id, c2, Box::new(b2)))),
                Err(m) => Err(m),
            },
        },
        StmtView::DoWhile(id, c, body) => match type_stmt(st, *body) {
            Err(m) => Err(m),
            Ok((st1, b2)) => match type_expr(st1.table, c) {
                Ok(c2) => Ok((st1, StmtView::DoWhile(id, c2, Box::new(b2)))),
                Err(m) => Err(m),
            },
        },
        StmtView::For(id, init, c, p, body) => match type_opt(st.table, c) {
            Err(m) => Err(m),
            Ok(c2) => match type_opt(st.table, p) {
                Err(m) => Err(m),
                Ok(p2) => match type_stmt(st, *body) {
                    Ok((st1, b2)) => Ok((st1, StmtView::For(id, init, c2, p2, Box::new(b2)))),
                    Err(m) => Err(m),
                },
            },
        },
        StmtView::Compound(items) => match type_items(st, items) {
            Ok((st1, items2)) => Ok((st1, StmtView::Compound(items2))),
            Err(m) => Err(m),
        },
        StmtView::If(c, t, e) => match type_expr(st.table, c) {
            Err(m) => Err(m),
            Ok(c2) => match type_stmt(st, *t) {
                Err(m) => Err(m),
                Ok((st1, t2)) => match e {
                    None => Ok((st1, StmtView::If(c2, Box::new(t2), None))),
                    Some(x) => match type_stmt(st1, *x) {
                        Ok((st2, x2)) => Ok((st2, StmtView::If(c2, Box::new(t2), Some(Box::new(x2))))),
                        Err(m) => Err(m),
                    },
                },
            },
        },
        StmtView::Switch(id, c, body, arms) => match type_expr(st.table, c) {
            Err(m) => Err(m),
            Ok(c2) => match type_stmt(st, *body) {
                Err(m) => Err(m),
                Ok((st1, b2)) => match type_arms(st1.table, arms) {
                    Ok(arms2) => Ok((st1, StmtView::Switch(id, c2, Box::new(b2), arms2))),
                    Err(m) => Err(m),
                },
            },
        },
        StmtView::Labeled(l, body) => match type_stmt(st, *body) {
            Ok((st1, b2)) => Ok((st1, StmtView::Labeled(l, Box::new(b2)))),
            Err(m) => Err(m),
        },
        _ => Ok((st, s)),
    }
}

/// The values of the arms of a switch annotated, from first to last.
pub open spec fn type_arms(table: TypeTable, arms: Seq<(Seq<char>, Option<TExprView>)>) -> Result<Seq<(Seq<char>, Option<TExprView>)>, Seq<char>>
    decreases arms.len(),
{
    if arms.len() == 0 {
        Ok(Seq::empty())
    } else {
        match type_arms(table, arms.drop_last()) {
            Err(m) => Err(m),
            Ok(prefix) => match type_opt(table, arms.last().1) {
                Ok(v) => Ok(prefix.push((arms.last().0, v))),
                Err(m) => Err(m),
            },
        }
    }
}

/// The items of a block, from first to last.
pub open spec fn type_items(st: TState, items: Seq<ItemView>) -> Result<(TState, Seq<ItemView>), Seq<char>>
    decreases items, 1nat,
{
    if items.len() == 0 {
        Ok((st, Seq::empty()))
    } else {
        match type_items(st, items.drop_last()) {
            Err(m) => Err(m),
            Ok((st1, prefix)) => match type_item(st1, items.last()) {
                Ok((st2, item)) => Ok((st2, prefix.push(item))),
                Err(m) => Err(m),
            },
        }
    }
}

/// A variable declaration, at file scope outside a function body and in a block inside one.
pub open spec fn type_var(st: TState, v: VarDeclView) -> Result<TState, Seq<char>> {
    let r = if st.cur is None { check_file_var(st.table, v) } else { check_block_var(st.table, v) };
    match r {
        Ok(t) => Ok(TState { table: t, cur: st.cur }),
        Err(m) => Err(m),
    }
}

/// One item of a block.
pub open spec fn type_item(st: TState, item: ItemView) -> Result<(TState, ItemView), Seq<char>>
    decreases item, 0nat,
{
    match item {
        ItemView::Var(v) => match type_var(st, v) {
            Ok(st1) => Ok((st1, item)),
            Err(m) => Err(m),
        },
        ItemView::Func(f) => match type_function(st, f) {
            Ok((st1, f2)) => Ok((st1, ItemView::Func(f2))),
            Err(m) => Err(m),
        },
        ItemView::Stmt(x) => match type_stmt(st, x) {
            Ok((st1, x2)) => Ok((st1, ItemView::Stmt(x2))),
            Err(m) => Err(m),
        },
    }
}

/// The body of a function checked with its parameters entered; afterwards no function is
/// current.
pub open spec fn type_body(table: TypeTable, f: FuncDeclView, param_types: Seq<TypeView>) -> Result<(TState, FuncDeclView), Seq<char>>
    decreases f.body, 1nat,
{
    match f.body {
        None => Ok((TState { table, cur: None }, f)),
        Some(items) => match type_items(TState { table: enter_params(table, f.params, param_types), cur: Some(f.t) }, items) {
            Ok((st1, items2)) => Ok((TState { table: st1.table, cur: None }, FuncDeclView { body: Some(items2), ..f })),
            Err(m) => Err(m),
        },
    }
}

/// A function declaration: it must agree with an earlier declaration of its name (a function,
/// not defined twice, not `static` after a global one, with the same return type and number
/// of parameters); its body is checked with its parameters entered.
pub open spec fn type_function(st: TState, f: FuncDeclView) -> Result<(TState, FuncDeclView), Seq<char>>
    decreases f.body, 2nat,
{
    if st.table.contains_key(f.name) {
        match st.table[f.name] {
            (TypeView::Function { ret: ro, params: po }, IdentAttrs::Function { is_defined, is_global }) => {
                if f.body is Some && is_defined {
                    Err("Function '"@ + f.name + "' has already been defined"@)
                } else if is_global && f.storage == Some(StorageClass::Static) {
                    Err("Static function declaration for '"@ + f.name + "' conflicts with previous global declaration"@)
                } else {
                    match f.t {
                        TypeView::Function { ret, params } => if *ret != *ro {
                            Err("Function '"@ + f.name + "' has a return type that conflicts with previous declaration"@)
                        } else if params.len() != po.len() {
                            Err("Function '"@ + f.name + "' has a different number of parameters than previous declaration"@)
                        } else if f.body is None {
                            Ok((st, f))
                        } else {
                            type_body(
                                st.table.insert(f.name, (st.table[f.name].0, IdentAttrs::Function { is_defined: true, is_global })),
                                f,
                                po,
                            )
                        },
                        _ => Err("Function '"@ + f.name + "' has an invalid type declaration"@),
                    }
                }
            },
            _ => Err("Name '"@ + f.name + "' has been defined inconsistently"@),
        }
    } else {
        let t1 = st.table.insert(
            f.name,
            (f.t, IdentAttrs::Function { is_defined: f.body is Some, is_global: f.storage != Some(StorageClass::Static) }),
        );
        if f.body is None {
            Ok((TState { table: t1, cur: st.cur }, f))
        } else {
            match f.t {
                TypeView::Function { params, .. } => type_body(t1, f, params),
                _ => Err("Function '"@ + f.name + "' has an invalid type declaration"@),
            }
        }
    }
}

/// The declarations of a program, from first to last.
pub open spec fn type_decls(st: TState, ds: Seq<DeclView>) -> Result<(TState, Seq<DeclView>), Seq<char>>
    decreases ds.len(),
{
    if ds.len() == 0 {
        Ok((st, Seq::empty()))
    } else {
        match type_decls(st, ds.drop_last()) {
            Err(m) => Err(m),
            Ok((st1, prefix)) => match ds.last() {
                DeclView::Func(f) => match type_function(st1, f) {
                    Ok((st2, f2)) => Ok((st2, prefix.push(DeclView::Func(f2)))),
                    Err(m) => Err(m),
                },
                DeclView::Var(v) => match type_var(st1, v) {
                    Ok(st2) => Ok((st2, prefix.push(DeclView::Var(v)))),
                    Err(m) => Err(m),
                },
            },
        }
    }
}

/// An error in the first `j` arms is the error of all of them.
proof fn lemma_arms_error_stays(table: TypeTable, xs: Seq<(Seq<char>, Option<TExprView>)>, j: int)
    requires
        0 <= j <= xs.len(),
        type_arms(table, xs.subrange(0, j)) is Err,
    ensures
        type_arms(table, xs) == type_arms(table, xs.subrange(0, j)),
    decreases xs.len(),
{
    if j == xs.len() {
        assert(xs.subrange(0, j) =~= xs);
    } else {
        let ys = xs.drop_last();
        assert(ys.subrange(0, j) =~= xs.subrange(0, j));
        lemma_arms_error_stays(table, ys, j);
    }
}

/// An error in the first `j` items is the error of all of them.
proof fn lemma_items_error_stays(st: TState, xs: Seq<BlockItem>, j: int)
    requires
        0 <= j <= xs.len(),
        type_items(st, items_view(xs.subrange(0, j))) is Err,
    ensures
        type_items(st, items_view(xs)) == type_items(st, items_view(xs.subrange(0, j))),
    decreases xs.len(),
{
    if j == xs.len() {
        assert(xs.subrange(0, j) =~= xs);
    } else {
        let ys = xs.drop_last();
        assert(ys.subrange(0, j) =~= xs.subrange(0, j));
        lemma_items_error_stays(st, ys, j);
        assert(items_view(xs).drop_last() =~= items_view(ys));
    }
}

/// An error in the first `j` declarations is the error of all of them.
/// What a failed check leaves of a program: the declarations before the failing one (the
/// `k`th) as checking them gives them, that one and the later ones as they were.
pub open spec fn check_left(st: TState, before: Seq<DeclView>, after: Seq<DeclView>, k: int) -> bool {
    &&& 0 <= k < before.len()
    &&& type_decls(st, before.subrange(0, k)) is Ok
    &&& type_decls(st, before.subrange(0, k + 1)) is Err
    &&& after == type_decls(st, before.subrange(0, k))->Ok_0.1 + before.subrange(k, before.len() as int)
}

proof fn lemma_decls_error_stays(st: TState, xs: Seq<DeclView>, j: int)
    requires
        0 <= j <= xs.len(),
        type_decls(st, xs.subrange(0, j)) is Err,
    ensures
        type_decls(st, xs) == type_decls(st, xs.subrange(0, j)),
    decreases xs.len(),
{
    if j == xs.len() {
        assert(xs.subrange(0, j) =~= xs);
    } else {
        let ys = xs.drop_last();
        assert(ys.subrange(0, j) =~= xs.subrange(0, j));
        lemma_decls_error_stays(st, ys, j);
    }
}

/// Annotates the expressions of a program with their types and checks its declarations,
/// entering them in the symbol table.
pub struct TypeChecker {
    symbol_table: SymbolTable<SymbolTableEntry>,
    current_function: Option<Type>,
}

impl View for TypeChecker {
    type V = TState;

    closed spec fn view(&self) -> TState {
        TState {
            table: table_view(self.symbol_table@),
            cur: match self.current_function {
                Some(t) => Some(type_view(t)),
                None => None,
            },
        }
    }
}

/// `e` converted to `target`: unchanged when it has that type already, else cast to it.
fn convert_to_type(e: TypedExpression, target: &Type) -> (r: TypedExpression)
    ensures
        texpr_view(r) == convert_to(texpr_view(e), type_view(*target)),
{
    if e.1.equals(target) {
        proof {
            lemma_same_type_view(e.1, *target);
        }
        e
    } else {
        proof {
            if type_view(e.1) == type_view(*target) {
                lemma_view_same_type(e.1, *target);
            }
        }
        let t1 = target.duplicate();
        let t2 = target.duplicate();
        proof {
            lemma_same_type_view(t1, *target);
            lemma_same_type_view(t2, *target);
        }
        TypedExpression::with_type(Expression::Cast { expr: Box::new(e), target_type: t1 }, t2)
    }
}

impl TypeChecker {
    /// A checker with the given symbol table, outside any function.
    pub fn new(symbol_table: SymbolTable<SymbolTableEntry>) -> (c: Self)
        ensures
            c@ == (TState { table: table_view(symbol_table@), cur: None }),
    {
        TypeChecker { symbol_table, current_function: None }
    }

    /// The symbol table with the declarations entered.
    pub fn into_symbol_table(self) -> (t: SymbolTable<SymbolTableEntry>)
        ensures
            table_view(t@) == self@.table,
    {
        self.symbol_table
    }

    fn set_type(&self, e: TypedExpression) -> (r: Result<TypedExpression, String>)
        ensures
            match r {
                Ok(x) => type_expr(self@.table, texpr_view(e)) == Ok::<TExprView, Seq<char>>(texpr_view(x)),
                Err(m) => type_expr(self@.table, texpr_view(e)) == Err::<TExprView, Seq<char>>(m@),
            },
        decreases e,
    {
        let TypedExpression(expr, t) = e;
        match expr {
            Expression::IntegerConstant(i) => Ok(TypedExpression(Expression::IntegerConstant(i), Type::Int)),
            Expression::LongConstant(l) => Ok(TypedExpression(Expression::LongConstant(l), Type::Long)),
            Expression::Cast { expr: x, target_type } => match self.set_type(*x) {
                Ok(y) => {
                    let t2 = target_type.duplicate();
                    proof {
                        lemma_same_type_view(t2, target_type);
                    }
                    Ok(TypedExpression(Expression::Cast { expr: Box::new(y), target_type }, t2))
                },
                Err(m) => Err(m),
            },
            Expression::Var(name) => match self.symbol_table.get_entry(name.as_str()) {
                None => {
                    let mut m = string_of("Undefined variable '");
                    append_str(&mut m, name.as_str());
                    append_str(&mut m, "'");
                    Err(m)
                },
                Some(entry) => match &entry.c_type {
                    Type::Function { .. } => {
                        let mut m = string_of("Identifier '");
                        append_str(&mut m, name.as_str());
                        append_str(&mut m, "' is a function, but used as a variable");
                        Err(m)
                    },
                    Type::Undefined => {
                        let mut m = string_of("variable '");
                        append_str(&mut m, name.as_str());
                        append_str(&mut m, "' has an undefined type");
                        Err(m)
                    },
                    _ => {
                        let t2 = entry.c_type.duplicate();
                        proof {
                            lemma_same_type_view(t2, entry.c_type);
                        }
                        Ok(TypedExpression(Expression::Var(name), t2))
                    },
                },
            },
            Expression::FuncCall { name, args } => match self.symbol_table.get_entry(name.as_str()) {
                None => {
                    let mut m = string_of("function '");
                    append_str(&mut m, name.as_str());
                    append_str(&mut m, "' has not been defined");
                    Err(m)
                },
                Some(entry) => match &entry.c_type {
                    Type::Function { return_type, param_types } => {
                        proof {
                            crate::ast_view::lemma_types_view_index(param_types@);
                            crate::ast_view::lemma_args_view_index(args@);
                        }
                        if param_types.len() != args.len() {
                            let mut m = string_of("Function '");
                            append_str(&mut m, name.as_str());
                            append_str(&mut m, "' expects ");
                            append_decimal(&mut m, param_types.len() as u64);
                            append_str(&mut m, " arguments, but ");
                            append_decimal(&mut m, args.len() as u64);
                            append_str(&mut m, " were provided");
                            return Err(m);
                        }
                        let ghost olds = args@;
                        let n: usize = args.len();
                        let mut rest = args;
                        let mut converted: Vec<TypedExpression> = Vec::new();
                        let mut i: usize = 0;
                        while rest.len() > 0
                            invariant
                                i + rest@.len() == olds.len(),
                                olds.len() == n,
                                olds.len() == param_types@.len(),
                                rest@ == olds.subrange(i as int, olds.len() as int),
                                converted@.len() == i,
                                forall|j: int| 0 <= j < i ==> texpr_view(#[trigger] converted@[j]) == convert_to(
                                    texpr_view(olds[j]),
                                    type_view(param_types@[j]),
                                ),
                            decreases rest@.len(),
                        {
                            let a = rest.remove(0);
                            converted.push(convert_to_type(a, &param_types[i]));
                            i = i + 1;
                            assert(rest@ =~= olds.subrange(i as int, olds.len() as int));
                        }
                        let rt = return_type.duplicate();
                        proof {
                            lemma_same_type_view(rt, **return_type);
                            crate::ast_view::lemma_args_view_index(converted@);
                            let tv = type_view(entry.c_type);
                            assert(args_view(converted@) =~= convert_args(args_view(olds), types_view(param_types@)));
                        }
                        Ok(TypedExpression(Expression::FuncCall { name, args: converted }, rt))
                    },
                    _ => {
                        let mut m = string_of("Identifier '");
                        append_str(&mut m, name.as_str());
                        append_str(&mut m, "' is not a function");
                        Err(m)
                    },
                },
            },
            Expression::UnaryExpr(op, x) => match self.set_type(*x) {
                Ok(y) => {
                    let ty = match op {
                        crate::ast::UnaryOp::Not => Type::Int,
                        _ => {
                            let d = y.1.duplicate();
                            proof {
                                lemma_same_type_view(d, y.1);
                            }
                            d
                        },
                    };
                    Ok(TypedExpression(Expression::UnaryExpr(UnaryOp::Not, Box::new(y)), ty))
                },
                Err(m) => Err(m),
            },
            other => Ok(TypedExpression(other, t)),
        }
    }

    fn enter_entry(&mut self, name: &str, c_type: &Type, attrs: IdentAttrs)
        ensures
            final(self)@ == (TState { table: old(self)@.table.insert(name@, (type_view(*c_type), attrs)), cur: old(self)@.cur }),
    {
        let t = c_type.duplicate();
        proof {
            lemma_same_type_view(t, *c_type);
        }
        let _ = self.symbol_table.insert(name, SymbolTableEntry { c_type: t, attrs });
        assert(table_view(self.symbol_table@) =~= table_view(old(self).symbol_table@).insert(name@, (type_view(*c_type), attrs)));
    }

    /// The initial value of a constant initializer, if it is one.
    fn constant_initial_value(e: &TypedExpression) -> (r: Option<InitialValue>)
        ensures
            r == constant_init(texpr_view(*e)),
    {
        match &e.0 {
            Expression::IntegerConstant(i) => Some(InitialValue::Initialized(InitValue::Int(*i))),
            Expression::LongConstant(l) => Some(InitialValue::Initialized(InitValue::Long(*l))),
            _ => None,
        }
    }

    fn check_var_decl_file_scope(&mut self, decl: &VarDeclaration) -> (r: Result<(), String>)
        ensures
            match check_file_var(old(self)@.table, var_decl_view(*decl)) {
                Ok(t) => r is Ok && final(self)@ == (TState { table: t, cur: old(self)@.cur }),
                Err(m) => r matches Err(e) && e@ == m,
            },
    {
        let init_value = match &decl.init_expr {
            Some(e) => match Self::constant_initial_value(e) {
                Some(i) => Some(i),
                None => return Err(string_of("Only integer constants are allowed as initializers for file-scope variables")),
            },
            None => match decl.storage_class {
                Some(StorageClass::Extern) => None,
                _ => Some(InitialValue::Tentative),
            },
        };
        let is_global = !matches!(decl.storage_class, Some(StorageClass::Static));
        let existing = match self.symbol_table.get_entry(decl.name.as_str()) {
            Some(entry) => {
                let t = entry.c_type.duplicate();
                proof {
                    lemma_same_type_view(t, entry.c_type);
                }
                Some((t, entry.attrs))
            },
            None => None,
        };
        match existing {
            None => {
                self.enter_entry(decl.name.as_str(), &decl.var_type, IdentAttrs::Static { init_value, is_global });
                Ok(())
            },
            Some((c_type, attrs)) => {
                if let Type::Function { .. } = c_type {
                    let mut m = string_of("Name '");
                    append_str(&mut m, decl.name.as_str());
                    append_str(&mut m, "' has already been declared as a function");
                    return Err(m);
                }
                match attrs {
                    IdentAttrs::Static { init_value: init_other, is_global: global_other } => {
                        let is_extern = matches!(decl.storage_class, Some(StorageClass::Extern));
                        if !is_extern && is_global != global_other {
                            return Err(string_of("Conflicting variable linkage"));
                        }
                        let global = if is_extern { global_other } else { is_global };
                        let merged = match init_other {
                            Some(InitialValue::Initialized(_)) => match init_value {
                                Some(InitialValue::Initialized(_)) => {
                                    let mut m = string_of("Conflicting initializers for variable '");
                                    append_str(&mut m, decl.name.as_str());
                                    append_str(&mut m, "'");
                                    return Err(m);
                                },
                                _ => init_other,
                            },
                            Some(InitialValue::Tentative) => match init_value {
                                Some(InitialValue::Initialized(_)) => init_value,
                                _ => Some(InitialValue::Tentative),
                            },
                            None => init_value,
                        };
                        self.enter_entry(decl.name.as_str(), &c_type, IdentAttrs::Static { init_value: merged, is_global: global });
                        Ok(())
                    },
                    _ => {
                        let mut m = string_of("Conflicting variable definitions for '");
                        append_str(&mut m, decl.name.as_str());
                        append_str(&mut m, "'");
                        Err(m)
                    },
                }
            },
        }
    }

    fn check_var_decl_block_scope(&mut self, decl: &VarDeclaration) -> (r: Result<(), String>)
        ensures
            match check_block_var(old(self)@.table, var_decl_view(*decl)) {
                Ok(t) => r is Ok && final(self)@ == (TState { table: t, cur: old(self)@.cur }),
                Err(m) => r matches Err(e) && e@ == m,
            },
    {
        match decl.storage_class {
            Some(StorageClass::Extern) => {
                if decl.init_expr.is_some() {
                    let mut m = string_of("Block-scope extern variable '");
                    append_str(&mut m, decl.name.as_str());
                    append_str(&mut m, "' cannot have an initializer");
                    return Err(m);
                }
                let same = match self.symbol_table.get_entry(decl.name.as_str()) {
                    Some(entry) => {
                        let same = entry.c_type.equals(&decl.var_type);
                        proof {
                            if same {
                                lemma_same_type_view(entry.c_type, decl.var_type);
                            } else if type_view(entry.c_type) == type_view(decl.var_type) {
                                lemma_view_same_type(entry.c_type, decl.var_type);
                            }
                        }
                        Some(same)
                    },
                    None => None,
                };
                match same {
                    Some(true) => Ok(()),
                    Some(false) => {
                        let mut m = string_of("variable ");
                        append_str(&mut m, decl.name.as_str());
                        append_str(&mut m, " has already been defined with a different type");
                        Err(m)
                    },
                    None => {
                        self.enter_entry(decl.name.as_str(), &decl.var_type, IdentAttrs::Static { init_value: None, is_global: true });
                        Ok(())
                    },
                }
            },
            Some(StorageClass::Static) => {
                let init_value = match &decl.init_expr {
                    Some(e) => match Self::constant_initial_value(e) {
                        Some(i) => Some(i),
                        None => {
                            let mut m = string_of("Non-constant initializer for local static declaration of ");
                            append_str(&mut m, decl.name.as_str());
                            return Err(m);
                        },
                    },
                    None => Some(InitialValue::Initialized(InitValue::Int(0))),
                };
                self.enter_entry(decl.name.as_str(), &decl.var_type, IdentAttrs::Static { init_value, is_global: false });
                Ok(())
            },
            None => {
                if self.symbol_table.get_entry(decl.name.as_str()).is_some() {
                    let mut m = string_of("Name '");
                    append_str(&mut m, decl.name.as_str());
                    append_str(&mut m, "' has already been defined");
                    return Err(m);
                }
                self.enter_entry(decl.name.as_str(), &decl.var_type, IdentAttrs::Local);
                Ok(())
            },
        }
    }

    fn visit_var_declaration(&mut self, decl: &VarDeclaration) -> (r: Result<(), String>)
        ensures
            match type_var(old(self)@, var_decl_view(*decl)) {
                Ok(st) => r is Ok && final(self)@ == st,
                Err(m) => r matches Err(e) && e@ == m,
            },
    {
        if self.current_function.is_none() {
            self.check_var_decl_file_scope(decl)
        } else {
            self.check_var_decl_block_scope(decl)
        }
    }

    fn get_return_type_of_current_function(&self) -> (r: Result<Type, String>)
        ensures
            match r {
                Ok(t) => return_type(self@.cur) == Ok::<TypeView, Seq<char>>(type_view(t)),
                Err(m) => return_type(self@.cur) == Err::<TypeView, Seq<char>>(m@),
            },
    {
        match &self.current_function {
            Some(Type::Function { return_type, .. }) => {
                let t = return_type.duplicate();
                proof {
                    lemma_same_type_view(t, **return_type);
                }
                Ok(t)
            },
            Some(_) => Err(string_of("Return type is not a function")),
            None => Err(string_of("return statement outside of function")),
        }
    }

    fn set_type_opt(&self, e: Option<TypedExpression>) -> (r: Result<Option<TypedExpression>, String>)
        ensures
            match r {
                Ok(x) => type_opt(self@.table, opt_view(e)) == Ok::<Option<TExprView>, Seq<char>>(opt_view(x)),
                Err(m) => type_opt(self@.table, opt_view(e)) == Err::<Option<TExprView>, Seq<char>>(m@),
            },
    {
        match e {
            None => Ok(None),
            Some(x) => match self.set_type(x) {
                Ok(y) => Ok(Some(y)),
                Err(m) => Err(m),
            },
        }
    }

    fn set_type_arms(&self, arms: Vec<(String, Option<TypedExpression>)>) -> (r: Result<Vec<(String, Option<TypedExpression>)>, String>)
        ensures
            match r {
                Ok(v) => type_arms(self@.table, crate::ast_view::arms_view(arms@))
                    == Ok::<Seq<(Seq<char>, Option<TExprView>)>, Seq<char>>(crate::ast_view::arms_view(v@)),
                Err(m) => type_arms(self@.table, crate::ast_view::arms_view(arms@))
                    == Err::<Seq<(Seq<char>, Option<TExprView>)>, Seq<char>>(m@),
            },
    {
        let ghost olds = crate::ast_view::arms_view(arms@);
        let ghost raw = arms@;
        let mut rest = arms;
        let mut done: Vec<(String, Option<TypedExpression>)> = Vec::new();
        let ghost n = olds.len();
        assert(rest@ =~= raw.subrange(0, n as int));
        assert(olds.subrange(0, 0) =~= Seq::<(Seq<char>, Option<TExprView>)>::empty());
        assert(crate::ast_view::arms_view(done@) =~= Seq::<(Seq<char>, Option<TExprView>)>::empty());
        while rest.len() > 0
            invariant
                olds == crate::ast_view::arms_view(raw),
                raw == arms@,
                n == olds.len(),
                done@.len() + rest@.len() == n,
                rest@ == raw.subrange(done@.len() as int, n as int),
                type_arms(self@.table, olds.subrange(0, done@.len() as int))
                    == Ok::<Seq<(Seq<char>, Option<TExprView>)>, Seq<char>>(crate::ast_view::arms_view(done@)),
            decreases rest@.len(),
        {
            let k = done.len();
            let (id, value) = rest.remove(0);
            proof {
                let pre = olds.subrange(0, k + 1);
                assert(pre.drop_last() =~= olds.subrange(0, k as int));
                assert(pre.last() == (id@, opt_view(value)));
            }
            match self.set_type_opt(value) {
                Ok(v) => {
                    proof {
                        assert(crate::ast_view::arms_view(done@.push((id, v))) =~= crate::ast_view::arms_view(done@).push((id@, opt_view(v))));
                    }
                    done.push((id, v));
                    assert(rest@ =~= raw.subrange(done@.len() as int, n as int));
                },
                Err(m) => {
                    proof {
                        lemma_arms_error_stays(self@.table, olds, k + 1);
                    }
                    return Err(m);
                },
            }
        }
        assert(olds.subrange(0, n as int) =~= olds);
        Ok(done)
    }

    fn check_stmt(&mut self, s: Statement) -> (r: Result<Statement, String>)
        ensures
            match r {
                Ok(s2) => type_stmt(old(self)@, stmt_view(s)) == Ok::<(TState, StmtView), Seq<char>>((final(self)@, stmt_view(s2))),
                Err(m) => type_stmt(old(self)@, stmt_view(s)) == Err::<(TState, StmtView), Seq<char>>(m@),
            },
        decreases s,
    {
        match s {
            Statement::Return(e) => {
                let ret_type = match self.get_return_type_of_current_function() {
                    Ok(t) => t,
                    Err(m) => return Err(m),
                };
                match self.set_type(e) {
                    Ok(y) => Ok(Statement::Return(convert_to_type(y, &ret_type))),
                    Err(m) => Err(m),
                }
            },
            Statement::Expression(e) => match self.set_type(e) {
                Ok(y) => Ok(Statement::Expression(y)),
                Err(m) => Err(m),
            },
            Statement::While { loop_id, condition, body } => {
                let c2 = match self.set_type(condition) {
                    Ok(x) => x,
                    Err(m) => return Err(m),
                };
                match self.check_stmt(*body) {
                    Ok(b2) => Ok(Statement::While { loop_id, condition: c2, body: Box::new(b2) }),
                    Err(m) => Err(m),
                }
            },
            Statement::DoWhile { loop_id, condition, body } => {
                let b2 = match self.check_stmt(*body) {
                    Ok(x) => x,
                    Err(m) => return Err(m),
                };
                match self.set_type(condition) {
                    Ok(c2) => Ok(Statement::DoWhile { loop_id, condition: c2, body: Box::new(b2) }),
                    Err(m) => Err(m),
                }
            },
            Statement::For { loop_id, init, condition, post, body } => {
                let c2 = match self.set_type_opt(condition) {
                    Ok(x) => x,
                    Err(m) => return Err(m),
                };
                let p2 = match self.set_type_opt(post) {
                    Ok(x) => x,
                    Err(m) => return Err(m),
                };
                match self.check_stmt(*body) {
                    Ok(b2) => Ok(Statement::For { loop_id, init, condition: c2, post: p2, body: Box::new(b2) }),
                    Err(m) => Err(m),
                }
            },
            Statement::CompoundStatement(b) => match self.check_items(b.items) {
                Ok(items) => Ok(Statement::CompoundStatement(Block::new(items))),
                Err(m) => Err(m),
            },
            Statement::IfStatement { condition, then_branch, else_branch } => {
                let c2 = match self.set_type(condition) {
                    Ok(x) => x,
                    Err(m) => return Err(m),
                };
                let t2 = match self.check_stmt(*then_branch) {
                    Ok(x) => x,
                    Err(m) => return Err(m),
                };
                let e2 = match else_branch {
                    None => None,
                    Some(e) => match self.check_stmt(*e) {
                        Ok(x) => Some(Box::new(x)),
                        Err(m) => return Err(m),
                    },
                };
                Ok(Statement::IfStatement { condition: c2, then_branch: Box::new(t2), else_branch: e2 })
            },
            Statement::SwitchStatement { switch_id, condition, body, arms } => {
                let c2 = match self.set_type(condition) {
                    Ok(x) => x,
                    Err(m) => return Err(m),
                };
                let b2 = match self.check_stmt(*body) {
                    Ok(x) => x,
                    Err(m) => return Err(m),
                };
                match self.set_type_arms(arms) {
                    Ok(a2) => Ok(Statement::SwitchStatement { switch_id, condition: c2, body: Box::new(b2), arms: a2 }),
                    Err(m) => Err(m),
                }
            },
            Statement::LabeledStatement { label, statement } => match self.check_stmt(*statement) {
                Ok(b2) => Ok(Statement::LabeledStatement { label, statement: Box::new(b2) }),
                Err(m) => Err(m),
            },
            other => Ok(other),
        }
    }

    #[verifier::rlimit(50)]
    fn check_items(&mut self, items: Vec<BlockItem>) -> (r: Result<Vec<BlockItem>, String>)
        ensures
            match r {
                Ok(v) => type_items(old(self)@, items_view(items@)) == Ok::<(TState, Seq<ItemView>), Seq<char>>((final(self)@, items_view(v@))),
                Err(m) => type_items(old(self)@, items_view(items@)) == Err::<(TState, Seq<ItemView>), Seq<char>>(m@),
            },
        decreases items,
    {
        let ghost st0 = self@;
        let ghost olds = items@;
        let ghost items_g = items;
        let mut rest = items;
        let mut done: Vec<BlockItem> = Vec::new();
        let ghost n = olds.len();
        assert(rest@ =~= olds.subrange(0, n as int));
        assert(items_view(olds.subrange(0, 0)) =~= Seq::empty());
        assert(items_view(done@) =~= Seq::empty());
        while rest.len() > 0
            invariant
                olds == items_g@,
                items_g == items,
                st0 == old(self)@,
                n == olds.len(),
                done@.len() + rest@.len() == n,
                rest@ == olds.subrange(done@.len() as int, n as int),
                type_items(st0, items_view(olds.subrange(0, done@.len() as int)))
                    == Ok::<(TState, Seq<ItemView>), Seq<char>>((self@, items_view(done@))),
            decreases rest@.len(),
        {
            let k = done.len();
            let item = rest.remove(0);
            proof {
                assert(item == olds[k as int]);
                vstd::std_specs::vec::axiom_vec_index_decreases(items_g, k as int);
                assert(decreases_to!(items_g => item));
                let pre = olds.subrange(0, k + 1);
                assert(pre.drop_last() =~= olds.subrange(0, k as int));
                assert(pre.last() == item);
                assert(items_view(pre).drop_last() =~= items_view(olds.subrange(0, k as int)));
            }
            match self.check_item(item) {
                Ok(y) => {
                    proof {
                        assert(done@.push(y).drop_last() =~= done@);
                    }
                    done.push(y);
                    assert(rest@ =~= olds.subrange(done@.len() as int, n as int));
                },
                Err(m) => {
                    proof {
                        lemma_items_error_stays(st0, olds, k + 1);
                    }
                    return Err(m);
                },
            }
        }
        assert(olds.subrange(0, n as int) =~= olds);
        Ok(done)
    }

    #[verifier::rlimit(50)]
    fn check_item(&mut self, item: BlockItem) -> (r: Result<BlockItem, String>)
        ensures
            match r {
                Ok(x) => type_item(old(self)@, item_view(item)) == Ok::<(TState, ItemView), Seq<char>>((final(self)@, item_view(x))),
                Err(m) => type_item(old(self)@, item_view(item)) == Err::<(TState, ItemView), Seq<char>>(m@),
            },
        decreases item,
    {
        match item {
            BlockItem::VarDeclaration(d) => match self.visit_var_declaration(&d) {
                Ok(()) => Ok(BlockItem::VarDeclaration(d)),
                Err(m) => Err(m),
            },
            BlockItem::FunctionDeclaration(f) => match self.visit_function_declaration(f) {
                Ok(f2) => Ok(BlockItem::FunctionDeclaration(f2)),
                Err(m) => Err(m),
            },
            BlockItem::Statement(st) => match self.check_stmt(st) {
                Ok(s2) => Ok(BlockItem::Statement(s2)),
                Err(m) => Err(m),
            },
        }
    }

    /// Enters parameters as locals with their types, as far as both lists go.
    fn enter_params(&mut self, names: &Vec<String>, types: &Vec<Type>)
        ensures
            final(self)@ == (TState {
                table: enter_params(old(self)@.table, crate::ast_view::names_view(names@), types_view(types@)),
                cur: old(self)@.cur,
            }),
    {
        proof {
            crate::ast_view::lemma_types_view_index(types@);
        }
        let ghost nv = crate::ast_view::names_view(names@);
        let ghost tv = types_view(types@);
        let mut i: usize = 0;
        assert(nv.subrange(0, nv.len() as int) =~= nv);
        assert(tv.subrange(0, tv.len() as int) =~= tv);
        while i < names.len() && i < types.len()
            invariant
                i <= names@.len(),
                i <= types@.len(),
                nv == crate::ast_view::names_view(names@),
                tv == types_view(types@),
                tv.len() == types@.len(),
                forall|j: int| 0 <= j < types@.len() ==> #[trigger] tv[j] == type_view(types@[j]),
                self@.cur == old(self)@.cur,
                enter_params(old(self)@.table, nv, tv) == enter_params(
                    self@.table,
                    nv.subrange(i as int, nv.len() as int),
                    tv.subrange(i as int, tv.len() as int),
                ),
            decreases names@.len() - i,
        {
            let ghost ns = nv.subrange(i as int, nv.len() as int);
            let ghost tys = tv.subrange(i as int, tv.len() as int);
            assert(ns.drop_first() =~= nv.subrange(i + 1, nv.len() as int));
            assert(tys.drop_first() =~= tv.subrange(i + 1, tv.len() as int));
            assert(ns[0] == names@[i as int]@);
            self.enter_entry(names[i].as_str(), &types[i], IdentAttrs::Local);
            i = i + 1;
        }
        proof {
            let ns = nv.subrange(i as int, nv.len() as int);
            let tys = tv.subrange(i as int, tv.len() as int);
            assert(ns.len() == 0 || tys.len() == 0);
        }
    }

    /// A function declaration (see `type_function`).
    #[verifier::rlimit(60)]
    fn visit_function_declaration(&mut self, f: FunctionDeclaration) -> (r: Result<FunctionDeclaration, String>)
        ensures
            match r {
                Ok(f2) => type_function(old(self)@, func_decl_view(f)) == Ok::<(TState, FuncDeclView), Seq<char>>((final(self)@, func_decl_view(f2))),
                Err(m) => type_function(old(self)@, func_decl_view(f)) == Err::<(TState, FuncDeclView), Seq<char>>(m@),
            },
        decreases f,
    {
        let ghost fv = func_decl_view(f);
        let FunctionDeclaration { name, parameters, body, storage_class, func_type } = f;
        let existing = match self.symbol_table.get_entry(name.as_str()) {
            Some(entry) => {
                let t = entry.c_type.duplicate();
                proof {
                    lemma_same_type_view(t, entry.c_type);
                }
                Some((t, entry.attrs))
            },
            None => None,
        };
        match existing {
            Some((Type::Function { return_type: ro, param_types: po }, IdentAttrs::Function { is_defined, is_global })) => {
                if body.is_some() && is_defined {
                    let mut m = string_of("Function '");
                    append_str(&mut m, name.as_str());
                    append_str(&mut m, "' has already been defined");
                    return Err(m);
                }
                if is_global && matches!(storage_class, Some(StorageClass::Static)) {
                    let mut m = string_of("Static function declaration for '");
                    append_str(&mut m, name.as_str());
                    append_str(&mut m, "' conflicts with previous global declaration");
                    return Err(m);
                }
                match &func_type {
                    Type::Function { return_type, param_types } => {
                        let same_ret = return_type.equals(&ro);
                        proof {
                            if same_ret {
                                lemma_same_type_view(**return_type, *ro);
                            } else if type_view(**return_type) == type_view(*ro) {
                                lemma_view_same_type(**return_type, *ro);
                            }
                            crate::ast_view::lemma_types_view_index(param_types@);
                            crate::ast_view::lemma_types_view_index(po@);
                        }
                        if !same_ret {
                            let mut m = string_of("Function '");
                            append_str(&mut m, name.as_str());
                            append_str(&mut m, "' has a return type that conflicts with previous declaration");
                            return Err(m);
                        }
                        if param_types.len() != po.len() {
                            let mut m = string_of("Function '");
                            append_str(&mut m, name.as_str());
                            append_str(&mut m, "' has a different number of parameters than previous declaration");
                            return Err(m);
                        }
                    },
                    _ => {
                        let mut m = string_of("Function '");
                        append_str(&mut m, name.as_str());
                        append_str(&mut m, "' has an invalid type declaration");
                        return Err(m);
                    },
                }
                match body {
                    None => Ok(FunctionDeclaration { name, parameters, body: None, storage_class, func_type }),
                    Some(b) => {
                        let entry_type = Type::Function { return_type: ro, param_types: po };
                        self.enter_entry(name.as_str(), &entry_type, IdentAttrs::Function { is_defined: true, is_global });
                        let po_ref = match &entry_type {
                            Type::Function { param_types, .. } => param_types,
                            _ => return Err(string_of("")),
                        };
                        self.enter_params(&parameters, po_ref);
                        let cur = func_type.duplicate();
                        proof {
                            lemma_same_type_view(cur, func_type);
                        }
                        self.current_function = Some(cur);
                        let items = match self.check_items(b.items) {
                            Ok(x) => x,
                            Err(m) => return Err(m),
                        };
                        self.current_function = None;
                        Ok(FunctionDeclaration { name, parameters, body: Some(Block::new(items)), storage_class, func_type })
                    },
                }
            },
            Some(_) => {
                let mut m = string_of("Name '");
                append_str(&mut m, name.as_str());
                append_str(&mut m, "' has been defined inconsistently");
                Err(m)
            },
            None => {
                let is_global = !matches!(storage_class, Some(StorageClass::Static));
                self.enter_entry(name.as_str(), &func_type, IdentAttrs::Function { is_defined: body.is_some(), is_global });
                match body {
                    None => Ok(FunctionDeclaration { name, parameters, body: None, storage_class, func_type }),
                    Some(b) => {
                        match &func_type {
                            Type::Function { param_types, .. } => {
                                self.enter_params(&parameters, param_types);
                            },
                            _ => {
                                let mut m = string_of("Function '");
                                append_str(&mut m, name.as_str());
                                append_str(&mut m, "' has an invalid type declaration");
                                return Err(m);
                            },
                        }
                        let cur = func_type.duplicate();
                        proof {
                            lemma_same_type_view(cur, func_type);
                        }
                        self.current_function = Some(cur);
                        let items = match self.check_items(b.items) {
                            Ok(x) => x,
                            Err(m) => return Err(m),
                        };
                        self.current_function = None;
                        Ok(FunctionDeclaration { name, parameters, body: Some(Block::new(items)), storage_class, func_type })
                    },
                }
            },
        }
    }

    /// Checks the declarations of the program and annotates the expressions of its function
    /// bodies, entering the declarations in the symbol table; stops at the first error, leaving
    /// the declarations before the failing one checked and that one and the later ones as they
    /// were.
    #[verifier::loop_isolation(false)]
    pub fn check(&mut self, program: &mut Program) -> (r: Result<(), String>)
        ensures
            match r {
                Ok(()) => type_decls(old(self)@, decls_view(old(program).decls@))
                    == Ok::<(TState, Seq<DeclView>), Seq<char>>((final(self)@, decls_view(final(program).decls@))),
                Err(m) => type_decls(old(self)@, decls_view(old(program).decls@))
                    == Err::<(TState, Seq<DeclView>), Seq<char>>(m@)
                    && exists|k: int| #[trigger] check_left(
                        old(self)@,
                        decls_view(old(program).decls@),
                        decls_view(final(program).decls@),
                        k,
                    ),
            },
    {
        let ghost st0 = self@;
        let ghost olds = decls_view(program.decls@);
        let mut rest: Vec<Declaration> = Vec::new();
        std::mem::swap(&mut rest, &mut program.decls);
        let ghost rest_g = rest@;
        let mut done: Vec<Declaration> = Vec::new();
        let ghost n = olds.len();
        assert(rest@ =~= rest_g.subrange(0, n as int));
        assert(olds.subrange(0, 0) =~= Seq::<DeclView>::empty());
        assert(decls_view(done@) =~= Seq::<DeclView>::empty());
        while rest.len() > 0
            invariant
                olds == decls_view(rest_g),
                n == olds.len(),
                done@.len() + rest@.len() == n,
                rest@ == rest_g.subrange(done@.len() as int, n as int),
                type_decls(st0, olds.subrange(0, done@.len() as int)) == Ok::<(TState, Seq<DeclView>), Seq<char>>((self@, decls_view(done@))),
            decreases rest@.len(),
        {
            let k = done.len();
            let decl = rest.remove(0);
            proof {
                assert(decl == rest_g[k as int]);
                let pre = olds.subrange(0, k + 1);
                assert(pre.drop_last() =~= olds.subrange(0, k as int));
                assert(pre.last() == decl_view(decl));
            }
            let kept = copy_decl(&decl);
            let result = match decl {
                Declaration::FunctionDecl(f) => match self.visit_function_declaration(f) {
                    Ok(f2) => Ok(Declaration::FunctionDecl(f2)),
                    Err(m) => Err(m),
                },
                Declaration::VarDecl(v) => match self.visit_var_declaration(&v) {
                    Ok(()) => Ok(Declaration::VarDecl(v)),
                    Err(m) => Err(m),
                },
            };
            match result {
                Ok(d2) => {
                    proof {
                        assert(decls_view(done@.push(d2)) =~= decls_view(done@).push(decl_view(d2)));
                    }
                    done.push(d2);
                    assert(rest@ =~= rest_g.subrange(done@.len() as int, n as int));
                },
                Err(m) => {
                    proof {
                        lemma_decls_error_stays(st0, olds, k + 1);
                    }
                    let ghost done_v = decls_view(done@);
                    let ghost rest_v = decls_view(rest@);
                    program.decls = restore_decls(done, kept, rest);
                    proof {
                        assert(rest_v =~= olds.subrange(k + 1, n as int));
                        assert(done_v.push(olds[k as int]) + rest_v =~= done_v + olds.subrange(k as int, n as int));
                        assert(check_left(st0, olds, decls_view(program.decls@), k as int));
                    }
                    return Err(m);
                },
            }
        }
        assert(olds.subrange(0, n as int) =~= olds);
        program.decls = done;
        Ok(())
    }
}

} // verus!
