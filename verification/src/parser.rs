pub mod grammar;
pub mod specifier_parser;

use vstd::prelude::*;

use crate::ast::{
    typed, Associativity, BinaryOp, Block, BlockItem, Declaration, Expression, ForInit,
    FunctionDeclaration, Label, Program, Statement, StorageClass, Type, TypedExpression, UnaryOp,
    VarDeclaration,
};
use crate::ast_view::{
    args_view, decl_view, decls_view, func_decl_view, item_view, items_view, label_view,
    lemma_same_expr_view, names_view, opt_view, stmt_view, texpr_view, var_decl_view, DeclView,
    ForInitView, ItemView, LabelView, TExprView, StmtView, FuncDeclView, VarDeclView,
};
use crate::parser::grammar::{
    add_specifier, advances, at_type, binary_op_of, compound_base, expect_error, holds_specifier,
    int_function_type, is_specifier, parse_args_rest, parse_block, parse_call_args,
    parse_declaration, parse_decls, parse_do_while, parse_expr, parse_expr_rest,
    parse_expression_statement, parse_factor, parse_for, parse_for_init, parse_function_rest,
    parse_goto, parse_if, parse_items, parse_jump, parse_label, parse_optional_expr,
    parse_paren_expr, parse_params, parse_primary, parse_program, parse_return,
    parse_specifier_tokens, parse_specifiers, parse_statement, parse_switch, parse_unlabeled,
    parse_var_rest, parse_while, precedence, right_min, specifier_count, specifiers_error,
    storage_of, token_text, token_type_name, unary_op_of, value_text, Parsed, Specifiers,
};
use crate::token::{Token, TokenStream, TokenType, TokenValue};
use crate::util::{append_decimal, append_signed_decimal, append_str, string_of};

verus! {

broadcast use vstd::std_specs::vec::group_vec_axioms;

/// Whether a stream can be read on: its position is within its tokens.
pub open spec fn readable(s: TokenStream) -> bool {
    s.position() <= s.tokens().len() < usize::MAX
}

/// Whether an expression result agrees with what the grammar gives, `q` being the position
/// after it.
pub open spec fn expr_result(g: Parsed<TExprView>, r: Result<TypedExpression, String>, q: int) -> bool {
    match r {
        Ok(e) => g == Parsed::Done(texpr_view(e), q),
        Err(m) => g == Parsed::<TExprView>::Fail(m@),
    }
}

/// Whether a list of expressions agrees with what the grammar gives.
pub open spec fn args_result(g: Parsed<Seq<TExprView>>, r: Result<Vec<TypedExpression>, String>, q: int) -> bool {
    match r {
        Ok(v) => g == Parsed::Done(args_view(v@), q),
        Err(m) => g == Parsed::<Seq<TExprView>>::Fail(m@),
    }
}

/// Whether a statement result agrees with what the grammar gives.
pub open spec fn stmt_result(g: Parsed<StmtView>, r: Result<Statement, String>, q: int) -> bool {
    match r {
        Ok(x) => g == Parsed::Done(stmt_view(x), q),
        Err(m) => g == Parsed::<StmtView>::Fail(m@),
    }
}

/// Whether a block result agrees with what the grammar gives.
pub open spec fn block_result(g: Parsed<Seq<ItemView>>, r: Result<Block, String>, q: int) -> bool {
    match r {
        Ok(b) => g == Parsed::Done(items_view(b.items@), q),
        Err(m) => g == Parsed::<Seq<ItemView>>::Fail(m@),
    }
}

/// Whether a label result agrees with what the grammar gives.
pub open spec fn label_result(g: Parsed<Option<LabelView>>, r: Result<Option<Label>, String>, q: int) -> bool {
    match r {
        Ok(Some(l)) => g == Parsed::Done(Some(label_view(l)), q),
        Ok(None) => g == Parsed::<Option<LabelView>>::Done(None, q),
        Err(m) => g == Parsed::<Option<LabelView>>::Fail(m@),
    }
}

/// Whether an optional expression agrees with what the grammar gives.
pub open spec fn optional_result(g: Parsed<Option<TExprView>>, r: Result<Option<TypedExpression>, String>, q: int) -> bool {
    match r {
        Ok(e) => g == Parsed::Done(opt_view(e), q),
        Err(m) => g == Parsed::<Option<TExprView>>::Fail(m@),
    }
}

/// The view of the initializer of a `for` loop.
pub open spec fn for_init_view(fi: ForInit) -> ForInitView {
    match fi {
        ForInit::InitDeclaration(d) => ForInitView::Decl(var_decl_view(d)),
        ForInit::InitExpression(e) => ForInitView::Expr(opt_view(e)),
    }
}

/// Whether a `for` initializer agrees with what the grammar gives.
pub open spec fn for_init_result(g: Parsed<ForInitView>, r: Result<ForInit, String>, q: int) -> bool {
    match r {
        Ok(fi) => g == Parsed::Done(for_init_view(fi), q),
        Err(m) => g == Parsed::<ForInitView>::Fail(m@),
    }
}

/// Whether a variable declaration agrees with what the grammar gives.
pub open spec fn var_result(g: Parsed<VarDeclView>, r: Result<VarDeclaration, String>, q: int) -> bool {
    match r {
        Ok(d) => g == Parsed::Done(var_decl_view(d), q),
        Err(m) => g == Parsed::<VarDeclView>::Fail(m@),
    }
}

/// Whether a function declaration agrees with what the grammar gives.
pub open spec fn func_result(g: Parsed<FuncDeclView>, r: Result<FunctionDeclaration, String>, q: int) -> bool {
    match r {
        Ok(f) => g == Parsed::Done(func_decl_view(f), q),
        Err(m) => g == Parsed::<FuncDeclView>::Fail(m@),
    }
}

/// Whether a declaration agrees with what the grammar gives.
pub open spec fn decl_result(g: Parsed<DeclView>, r: Result<Declaration, String>, q: int) -> bool {
    match r {
        Ok(d) => g == Parsed::Done(decl_view(d), q),
        Err(m) => g == Parsed::<DeclView>::Fail(m@),
    }
}

/// The name of a token type, as `Debug` prints it.
fn type_text(tt: TokenType) -> (r: &'static str)
    ensures
        r@ == token_type_name(tt),
{
    match tt {
        TokenType::Whitespace => "Whitespace",
        TokenType::LineComment => "LineComment",
        TokenType::Identifier => "Identifier",
        TokenType::IntegerConstant => "IntegerConstant",
        TokenType::LongConstant => "LongConstant",
        TokenType::UnsignedIntegerConstant => "UnsignedIntegerConstant",
        TokenType::UnsignedLongConstant => "UnsignedLongConstant",
        TokenType::DoubleConstant => "DoubleConstant",
        TokenType::Int => "Int",
        TokenType::Long => "Long",
        TokenType::Void => "Void",
        TokenType::Return => "Return",
        TokenType::Static => "Static",
        TokenType::Extern => "Extern",
        TokenType::Signed => "Signed",
        TokenType::Unsigned => "Unsigned",
        TokenType::Double => "Double",
        TokenType::LeftParen => "LeftParen",
        TokenType::RightParen => "RightParen",
        TokenType::LeftBrace => "LeftBrace",
        TokenType::RightBrace => "RightBrace",
        TokenType::Comma => "Comma",
        TokenType::Semicolon => "Semicolon",
        TokenType::Minus => "Minus",
        TokenType::Tilde => "Tilde",
        TokenType::Plus => "Plus",
        TokenType::Asterisk => "Asterisk",
        TokenType::Slash => "Slash",
        TokenType::Percent => "Percent",
        TokenType::BitAnd => "BitAnd",
        TokenType::BitOr => "BitOr",
        TokenType::BitXor => "BitXor",
        TokenType::ShiftLeft => "ShiftLeft",
        TokenType::ShiftRight => "ShiftRight",
        TokenType::LogicalAnd => "LogicalAnd",
        TokenType::LogicalOr => "LogicalOr",
        TokenType::LogicalNot => "LogicalNot",
        TokenType::Equal => "Equal",
        TokenType::NotEqual => "NotEqual",
        TokenType::Less => "Less",
        TokenType::LessEqual => "LessEqual",
        TokenType::Greater => "Greater",
        TokenType::GreaterEqual => "GreaterEqual",
        TokenType::Assign => "Assign",
        TokenType::AssignAdd => "AssignAdd",
        TokenType::AssignSub => "AssignSub",
        TokenType::AssignMul => "AssignMul",
        TokenType::AssignDiv => "AssignDiv",
        TokenType::AssignRemainder => "AssignRemainder",
        TokenType::AssignBitAnd => "AssignBitAnd",
        TokenType::AssignBitOr => "AssignBitOr",
        TokenType::AssignBitXor => "AssignBitXor",
        TokenType::AssignShiftLeft => "AssignShiftLeft",
        TokenType::AssignShiftRight => "AssignShiftRight",
        TokenType::IncrementPrefix => "IncrementPrefix",
        TokenType::IncrementPostfix => "IncrementPostfix",
        TokenType::DecrementPrefix => "DecrementPrefix",
        TokenType::DecrementPostfix => "DecrementPostfix",
        TokenType::If => "If",
        TokenType::Else => "Else",
        TokenType::QuestionMark => "QuestionMark",
        TokenType::Colon => "Colon",
        TokenType::Goto => "Goto",
        TokenType::Do => "Do",
        TokenType::While => "While",
        TokenType::For => "For",
        TokenType::Break => "Break",
        TokenType::Continue => "Continue",
        TokenType::Switch => "Switch",
        TokenType::Case => "Case",
        TokenType::Default => "Default",
    }
}

/// The message for a token of type `expected` missing at position `p`.
fn expect_message(ts: &Vec<Token>, p: usize, expected: TokenType) -> (m: String)
    ensures
        m@ == expect_error(ts@, p as int, expected),
{
    if p < ts.len() {
        let mut m = string_of("Expected token ");
        append_str(&mut m, type_text(expected));
        append_str(&mut m, ", got ");
        append_str(&mut m, type_text(ts[p].token_type));
        m
    } else {
        let mut m = string_of("Expected token of type ");
        append_str(&mut m, type_text(expected));
        append_str(&mut m, " but found end of input");
        m
    }
}

/// A token as `Debug` prints it when its lexeme needs no escaping.
fn token_message(t: &Token) -> (m: String)
    ensures
        m@ == token_text(*t),
{
    let mut m = string_of("Token { token_type: ");
    append_str(&mut m, type_text(t.token_type));
    append_str(&mut m, ", value: ");
    match t.value {
        None => append_str(&mut m, "None"),
        Some(TokenValue::Integer(i)) => {
            append_str(&mut m, "Some(Integer(");
            append_signed_decimal(&mut m, i as i64);
            append_str(&mut m, "))");
        },
        Some(TokenValue::Long(l)) => {
            append_str(&mut m, "Some(Long(");
            append_signed_decimal(&mut m, l);
            append_str(&mut m, "))");
        },
        Some(TokenValue::UnsignedInteger(u)) => {
            append_str(&mut m, "Some(UnsignedInteger(");
            append_decimal(&mut m, u as u64);
            append_str(&mut m, "))");
        },
        Some(TokenValue::UnsignedLong(u)) => {
            append_str(&mut m, "Some(UnsignedLong(");
            append_decimal(&mut m, u);
            append_str(&mut m, "))");
        },
    }
    assert(m@ == "Token { token_type: "@ + token_type_name(t.token_type) + ", value: "@ + value_text(t.value));
    append_str(&mut m, ", lexeme: \"");
    append_str(&mut m, t.lexeme.as_str());
    append_str(&mut m, "\", line: ");
    append_decimal(&mut m, t.line as u64);
    append_str(&mut m, ", column: ");
    append_decimal(&mut m, t.column as u64);
    append_str(&mut m, " }");
    m
}

/// Parses a sequence of tokens into a program.
pub struct Parser {}

impl Parser {
    pub fn new() -> (p: Self) {
        Parser {}
    }

    /// Consumes the next token, which must be of type `expected`.
    fn expect(&self, stream: &mut TokenStream, expected: TokenType) -> (r: Result<Token, String>)
        requires
            readable(*old(stream)),
        ensures
            final(stream).tokens() == old(stream).tokens(),
            match r {
                Ok(t) => at_type(old(stream).tokens(), old(stream).position() as int, expected)
                    && t == old(stream).tokens()[old(stream).position() as int]
                    && final(stream).position() == old(stream).position() + 1,
                Err(m) => !at_type(old(stream).tokens(), old(stream).position() as int, expected)
                    && m@ == expect_error(old(stream).tokens(), old(stream).position() as int, expected),
            },
    {
        let ghost p = stream.position();
        let message = if stream.has_next() {
            match stream.peek() {
                Some(token) => {
                    if token.token_type == expected {
                        None
                    } else {
                        let mut m = string_of("Expected token ");
                        append_str(&mut m, type_text(expected));
                        append_str(&mut m, ", got ");
                        append_str(&mut m, type_text(token.token_type));
                        Some(m)
                    }
                },
                None => None,
            }
        } else {
            let mut m = string_of("Expected token of type ");
            append_str(&mut m, type_text(expected));
            append_str(&mut m, " but found end of input");
            Some(m)
        };
        let token = stream.advance();
        match message {
            Some(m) => Err(m),
            None => match token {
                Some(t) => Ok(t),
                None => Err(string_of("")),
            },
        }
    }

    /// Consumes the next token, whatever it is.
    fn consume(&self, stream: &mut TokenStream) -> (r: Result<Token, String>)
        requires
            readable(*old(stream)),
        ensures
            final(stream).tokens() == old(stream).tokens(),
            match r {
                Ok(t) => old(stream).position() < old(stream).tokens().len()
                    && t == old(stream).tokens()[old(stream).position() as int]
                    && final(stream).position() == old(stream).position() + 1,
                Err(m) => old(stream).position() >= old(stream).tokens().len()
                    && m@ == "Unexpected end of input"@,
            },
    {
        match stream.advance() {
            Some(t) => Ok(t),
            None => Err(string_of("Unexpected end of input")),
        }
    }

    fn get_unary_op(&self, token_type: &TokenType) -> (r: Option<UnaryOp>)
        ensures
            r == unary_op_of(*token_type),
    {
        match token_type {
            TokenType::Minus => Some(UnaryOp::Negate),
            TokenType::Tilde => Some(UnaryOp::Complement),
            TokenType::LogicalNot => Some(UnaryOp::Not),
            _ => None,
        }
    }

    fn get_binary_op(&self, token_type: &TokenType) -> (r: Option<BinaryOp>)
        ensures
            r == binary_op_of(*token_type),
    {
        match token_type {
            TokenType::Plus => Some(BinaryOp::Add),
            TokenType::Minus => Some(BinaryOp::Subtract),
            TokenType::Asterisk => Some(BinaryOp::Multiply),
            TokenType::Slash => Some(BinaryOp::Divide),
            TokenType::Percent => Some(BinaryOp::Remainder),
            TokenType::BitAnd => Some(BinaryOp::BitAnd),
            TokenType::BitOr => Some(BinaryOp::BitOr),
            TokenType::BitXor => Some(BinaryOp::BitXor),
            TokenType::ShiftLeft => Some(BinaryOp::ShiftLeft),
            TokenType::ShiftRight => Some(BinaryOp::ShiftRight),
            TokenType::LogicalAnd => Some(BinaryOp::LogicalAnd),
            TokenType::LogicalOr => Some(BinaryOp::LogicalOr),
            TokenType::Equal => Some(BinaryOp::Equal),
            TokenType::NotEqual => Some(BinaryOp::NotEqual),
            TokenType::Greater => Some(BinaryOp::Greater),
            TokenType::Less => Some(BinaryOp::Less),
            TokenType::GreaterEqual => Some(BinaryOp::GreaterEqual),
            TokenType::LessEqual => Some(BinaryOp::LessEqual),
            TokenType::Assign => Some(BinaryOp::Assign),
            TokenType::AssignAdd => Some(BinaryOp::AssignAdd),
            TokenType::AssignSub => Some(BinaryOp::AssignSubtract),
            TokenType::AssignMul => Some(BinaryOp::AssignMultiply),
            TokenType::AssignDiv => Some(BinaryOp::AssignDivide),
            TokenType::AssignRemainder => Some(BinaryOp::AssignRemainder),
            TokenType::AssignBitAnd => Some(BinaryOp::AssignBitAnd),
            TokenType::AssignBitOr => Some(BinaryOp::AssignBitOr),
            TokenType::AssignBitXor => Some(BinaryOp::AssignBitXor),
            TokenType::AssignShiftLeft => Some(BinaryOp::AssignShiftLeft),
            TokenType::AssignShiftRight => Some(BinaryOp::AssignShiftRight),
            TokenType::QuestionMark => Some(BinaryOp::Conditional),
            _ => None,
        }
    }

    fn get_precedence(&self, binary_op: &BinaryOp) -> (r: i32)
        ensures
            r == precedence(*binary_op),
    {
        match binary_op {
            BinaryOp::Assign | BinaryOp::AssignAdd | BinaryOp::AssignSubtract
            | BinaryOp::AssignMultiply | BinaryOp::AssignDivide | BinaryOp::AssignRemainder
            | BinaryOp::AssignBitAnd | BinaryOp::AssignBitOr | BinaryOp::AssignBitXor
            | BinaryOp::AssignShiftLeft | BinaryOp::AssignShiftRight => 1,
            BinaryOp::Conditional => 5,
            BinaryOp::LogicalOr => 15,
            BinaryOp::LogicalAnd => 20,
            BinaryOp::BitOr => 25,
            BinaryOp::BitXor => 30,
            BinaryOp::BitAnd => 35,
            BinaryOp::Equal | BinaryOp::NotEqual => 36,
            BinaryOp::Greater | BinaryOp::Less | BinaryOp::GreaterEqual | BinaryOp::LessEqual => 37,
            BinaryOp::ShiftLeft | BinaryOp::ShiftRight => 40,
            BinaryOp::Add | BinaryOp::Subtract => 45,
            BinaryOp::Multiply | BinaryOp::Divide | BinaryOp::Remainder => 50,
        }
    }

    fn get_binary_op_from_compound(&self, compound_op: &BinaryOp) -> (r: Result<BinaryOp, String>)
        ensures
            match r {
                Ok(op) => compound_base(*compound_op) == Some(op),
                Err(m) => compound_base(*compound_op) is None
                    && m@ == "Unexpected operator for compound-operator argument"@,
            },
    {
        match compound_op {
            BinaryOp::AssignAdd => Ok(BinaryOp::Add),
            BinaryOp::AssignSubtract => Ok(BinaryOp::Subtract),
            BinaryOp::AssignMultiply => Ok(BinaryOp::Multiply),
            BinaryOp::AssignDivide => Ok(BinaryOp::Divide),
            BinaryOp::AssignRemainder => Ok(BinaryOp::Remainder),
            BinaryOp::AssignBitAnd => Ok(BinaryOp::BitAnd),
            BinaryOp::AssignBitOr => Ok(BinaryOp::BitOr),
            BinaryOp::AssignBitXor => Ok(BinaryOp::BitXor),
            BinaryOp::AssignShiftLeft => Ok(BinaryOp::ShiftLeft),
            BinaryOp::AssignShiftRight => Ok(BinaryOp::ShiftRight),
            _ => Err(string_of("Unexpected operator for compound-operator argument")),
        }
    }

    /// `expr = expr op 1`, the assignment that a postfix `++` (`Add`) or `--` (`Subtract`)
    /// stands for.
    fn create_postfix_assignment(&self, op: BinaryOp, expr: &TypedExpression) -> (r: TypedExpression)
        ensures
            texpr_view(r) == crate::parser::grammar::step_assignment(op, texpr_view(*expr), true),
    {
        let a = expr.duplicate();
        let b = expr.duplicate();
        proof {
            lemma_same_expr_view(*expr, a);
            lemma_same_expr_view(*expr, b);
        }
        let one = typed(Expression::IntegerConstant(1));
        let sum = typed(Expression::BinaryExpr(op, Box::new(b), Box::new(one)));
        assert(texpr_view(one) == crate::parser::grammar::untyped(crate::ast_view::ExprView::IntegerConstant(1)));
        assert(texpr_view(sum) == crate::parser::grammar::untyped(
            crate::ast_view::ExprView::Binary(op, Box::new(texpr_view(*expr)), Box::new(texpr_view(one))),
        ));
        typed(Expression::Assignment { left: Box::new(a), right: Box::new(sum), is_postfix: true })
    }

    /// An expression whose binary operators bind at least as tightly as `min_precedence`.
    fn expression(&self, stream: &mut TokenStream, min_precedence: i32) -> (r: Result<TypedExpression, String>)
        requires
            readable(*old(stream)),
        ensures
            final(stream).tokens() == old(stream).tokens(),
            expr_result(
                parse_expr(old(stream).tokens(), old(stream).position() as int, min_precedence as int),
                r,
                final(stream).position() as int,
            ),
            r is Ok ==> advances(old(stream).tokens(), old(stream).position() as int, final(stream).position() as int),
        decreases old(stream).tokens().len() - old(stream).position(), 3nat,
    {
        let ghost ts = stream.tokens();
        let ghost p0 = stream.position() as int;
        let mut left = match self.factor(stream) {
            Ok(e) => e,
            Err(m) => return Err(m),
        };
        loop
            invariant
                stream.tokens() == ts,
                ts == old(stream).tokens(),
                p0 == old(stream).position(),
                p0 < stream.position() <= ts.len() < usize::MAX,
                parse_expr(ts, p0, min_precedence as int) == parse_expr_rest(
                    ts,
                    stream.position() as int,
                    min_precedence as int,
                    texpr_view(left),
                ),
            decreases ts.len() - stream.position(),
        {
            let ghost q = stream.position() as int;
            let op = match stream.peek() {
                Some(token) => match self.get_binary_op(&token.token_type) {
                    Some(op) => op,
                    None => return Ok(left),
                },
                None => return Ok(left),
            };
            let prec = self.get_precedence(&op);
            if prec < min_precedence {
                return Ok(left);
            }
            stream.advance();
            let then_expr = if op == BinaryOp::Conditional {
                let t = match self.expression(stream, 0) {
                    Ok(e) => e,
                    Err(m) => return Err(m),
                };
                match self.expect(stream, TokenType::Colon) {
                    Ok(_) => {},
                    Err(m) => return Err(m),
                }
                Some(t)
            } else {
                None
            };
            let next_min_prec = match Associativity::of(&op) {
                Associativity::Left => prec + 1,
                Associativity::Right => prec,
            };
            let right = match self.expression(stream, next_min_prec) {
                Ok(e) => e,
                Err(m) => return Err(m),
            };
            let ghost lv = texpr_view(left);
            let ghost rv = texpr_view(right);
            left = match op {
                BinaryOp::Assign => typed(Expression::Assignment { left: Box::new(left), right: Box::new(right), is_postfix: false }),
                BinaryOp::Conditional => match then_expr {
                    Some(t) => typed(Expression::ConditionalExpr {
                        condition: Box::new(left),
                        then_expr: Box::new(t),
                        else_expr: Box::new(right),
                    }),
                    None => return Err(string_of("Expected then-expression for conditional operator")),
                },
                BinaryOp::AssignAdd | BinaryOp::AssignSubtract | BinaryOp::AssignMultiply
                | BinaryOp::AssignDivide | BinaryOp::AssignRemainder | BinaryOp::AssignBitAnd
                | BinaryOp::AssignBitOr | BinaryOp::AssignBitXor | BinaryOp::AssignShiftLeft
                | BinaryOp::AssignShiftRight => {
                    let base = match self.get_binary_op_from_compound(&op) {
                        Ok(b) => b,
                        Err(m) => return Err(m),
                    };
                    let copy = left.duplicate();
                    proof {
                        lemma_same_expr_view(left, copy);
                    }
                    let value = typed(Expression::BinaryExpr(base, Box::new(left), Box::new(right)));
                    assert(texpr_view(value) == crate::parser::grammar::untyped(
                        crate::ast_view::ExprView::Binary(base, Box::new(lv), Box::new(rv)),
                    ));
                    typed(Expression::Assignment { left: Box::new(copy), right: Box::new(value), is_postfix: false })
                },
                _ => typed(Expression::BinaryExpr(op, Box::new(left), Box::new(right))),
            };
        }
    }

    /// An operand: a constant, a variable, a call, a unary or prefix operator applied to an
    /// operand, or a parenthesized expression, with at most one postfix `++` or `--`.
    fn factor(&self, stream: &mut TokenStream) -> (r: Result<TypedExpression, String>)
        requires
            readable(*old(stream)),
        ensures
            final(stream).tokens() == old(stream).tokens(),
            expr_result(parse_factor(old(stream).tokens(), old(stream).position() as int), r, final(stream).position() as int),
            r is Ok ==> advances(old(stream).tokens(), old(stream).position() as int, final(stream).position() as int),
        decreases old(stream).tokens().len() - old(stream).position(), 2nat,
    {
        let ghost ts = stream.tokens();
        let ghost p0 = stream.position() as int;
        let token = match self.consume(stream) {
            Ok(t) => t,
            Err(m) => return Err(m),
        };
        let mut expr = match token.token_type {
            TokenType::IntegerConstant => {
                if let Some(TokenValue::Integer(value)) = token.value {
                    typed(Expression::IntegerConstant(value))
                } else {
                    return Err(string_of("Expected integer constant value"));
                }
            },
            TokenType::Identifier => {
                let name = token.lexeme;
                let is_func_call = match stream.peek() {
                    Some(next_token) => next_token.token_type == TokenType::LeftParen,
                    None => false,
                };
                if is_func_call {
                    let args = match self.argument_list(stream) {
                        Ok(a) => a,
                        Err(m) => return Err(m),
                    };
                    typed(Expression::FuncCall { name, args })
                } else {
                    typed(Expression::Var(name))
                }
            },
            TokenType::Minus | TokenType::Tilde | TokenType::LogicalNot => {
                let op = self.get_unary_op(&token.token_type).unwrap();
                let inner = match self.factor(stream) {
                    Ok(e) => e,
                    Err(m) => return Err(m),
                };
                typed(Expression::UnaryExpr(op, Box::new(inner)))
            },
            TokenType::IncrementPrefix | TokenType::DecrementPrefix => {
                let op = if token.token_type == TokenType::IncrementPrefix {
                    BinaryOp::Add
                } else {
                    BinaryOp::Subtract
                };
                let inner = match self.factor(stream) {
                    Ok(e) => e,
                    Err(m) => return Err(m),
                };
                let copy = inner.duplicate();
                proof {
                    lemma_same_expr_view(inner, copy);
                }
                let ghost iv = texpr_view(inner);
                let one = typed(Expression::IntegerConstant(1));
                let value = typed(Expression::BinaryExpr(op, Box::new(inner), Box::new(one)));
                assert(texpr_view(value) == crate::parser::grammar::untyped(
                    crate::ast_view::ExprView::Binary(op, Box::new(iv), Box::new(texpr_view(one))),
                ));
                typed(Expression::Assignment { left: Box::new(copy), right: Box::new(value), is_postfix: false })
            },
            TokenType::LeftParen => {
                let inner = match self.expression(stream, 0) {
                    Ok(e) => e,
                    Err(m) => return Err(m),
                };
                match self.expect(stream, TokenType::RightParen) {
                    Ok(_) => {},
                    Err(m) => return Err(m),
                }
                inner
            },
            _ => {
                let mut m = string_of("Unexpected token ");
                let text = token_message(&token);
                append_str(&mut m, text.as_str());
                return Err(m);
            },
        };
        assert(parse_primary(ts, p0) == Parsed::Done(texpr_view(expr), stream.position() as int));
        match stream.peek() {
            Some(next) => {
                if next.token_type == TokenType::IncrementPostfix {
                    stream.advance();
                    expr = self.create_postfix_assignment(BinaryOp::Add, &expr);
                } else if next.token_type == TokenType::DecrementPostfix {
                    stream.advance();
                    expr = self.create_postfix_assignment(BinaryOp::Subtract, &expr);
                }
            },
            None => {},
        }
        Ok(expr)
    }

    /// The arguments of a call, in parentheses and separated by commas.
    #[verifier::rlimit(40)]
    fn argument_list(&self, stream: &mut TokenStream) -> (r: Result<Vec<TypedExpression>, String>)
        requires
            readable(*old(stream)),
        ensures
            final(stream).tokens() == old(stream).tokens(),
            args_result(parse_call_args(old(stream).tokens(), old(stream).position() as int), r, final(stream).position() as int),
            r is Ok ==> advances(old(stream).tokens(), old(stream).position() as int, final(stream).position() as int),
        decreases old(stream).tokens().len() - old(stream).position(), 5nat,
    {
        let ghost ts = stream.tokens();
        let ghost p0 = stream.position() as int;
        let mut args: Vec<TypedExpression> = Vec::new();
        match self.expect(stream, TokenType::LeftParen) {
            Ok(_) => {},
            Err(m) => return Err(m),
        }
        loop
            invariant
                stream.tokens() == ts,
                ts == old(stream).tokens(),
                p0 == old(stream).position(),
                p0 < stream.position() <= ts.len() < usize::MAX,
                parse_call_args(ts, p0) == parse_args_rest(ts, stream.position() as int, args_view(args@)),
            decreases ts.len() - stream.position(),
        {
            let ghost q = stream.position() as int;
            let kind = match stream.peek() {
                Some(token) => token.token_type,
                None => return Err(string_of("Unexpected end of input in argument list")),
            };
            if kind == TokenType::RightParen {
                match self.expect(stream, TokenType::RightParen) {
                    Ok(_) => return Ok(args),
                    Err(m) => return Err(m),
                }
            } else if kind == TokenType::Comma {
                if args.len() == 0 {
                    return Err(string_of("Unexpected comma in argument list"));
                }
                match self.consume(stream) {
                    Ok(_) => {},
                    Err(m) => return Err(m),
                }
            }
            let arg = match self.expression(stream, 0) {
                Ok(e) => e,
                Err(m) => return Err(m),
            };
            proof {
                assert(args@.push(arg).drop_last() =~= args@);
            }
            args.push(arg);
        }
    }

    /// The label in front of a statement, if there is one.
    fn get_label(&self, stream: &mut TokenStream) -> (r: Result<Option<Label>, String>)
        requires
            readable(*old(stream)),
        ensures
            final(stream).tokens() == old(stream).tokens(),
            label_result(parse_label(old(stream).tokens(), old(stream).position() as int), r, final(stream).position() as int),
            r matches Ok(None) ==> final(stream).position() == old(stream).position(),
            r matches Ok(Some(_)) ==> advances(old(stream).tokens(), old(stream).position() as int, final(stream).position() as int),
    {
        let kind = match stream.peek() {
            Some(token) => token.token_type,
            None => return Ok(None),
        };
        match kind {
            TokenType::Identifier => {
                let followed_by_colon = match stream.peek_with_offset(1) {
                    Some(token) => token.token_type == TokenType::Colon,
                    None => return Ok(None),
                };
                if followed_by_colon {
                    let name = match stream.advance() {
                        Some(t) => t.lexeme,
                        None => return Err(string_of("")),
                    };
                    stream.advance();
                    Ok(Some(Label::Label(name)))
                } else {
                    Ok(None)
                }
            },
            TokenType::Case => {
                stream.advance();
                let expr = match self.expression(stream, 0) {
                    Ok(e) => e,
                    Err(m) => return Err(m),
                };
                match self.expect(stream, TokenType::Colon) {
                    Ok(_) => {},
                    Err(m) => return Err(m),
                }
                Ok(Some(Label::Case { case_id: String::new(), value: expr }))
            },
            TokenType::Default => {
                stream.advance();
                match self.expect(stream, TokenType::Colon) {
                    Ok(_) => {},
                    Err(m) => return Err(m),
                }
                Ok(Some(Label::Default { default_id: String::new() }))
            },
            _ => Ok(None),
        }
    }

    /// A statement, with the labels in front of it.
    fn statement(&self, stream: &mut TokenStream) -> (r: Result<Statement, String>)
        requires
            readable(*old(stream)),
        ensures
            final(stream).tokens() == old(stream).tokens(),
            stmt_result(parse_statement(old(stream).tokens(), old(stream).position() as int), r, final(stream).position() as int),
            r is Ok ==> advances(old(stream).tokens(), old(stream).position() as int, final(stream).position() as int),
        decreases old(stream).tokens().len() - old(stream).position(), 7nat,
    {
        let ghost ts = stream.tokens();
        let ghost p0 = stream.position() as int;
        match self.get_label(stream) {
            Ok(Some(label)) => {
                let statement = match self.statement(stream) {
                    Ok(st) => st,
                    Err(m) => return Err(m),
                };
                return Ok(Statement::LabeledStatement { label, statement: Box::new(statement) });
            },
            Ok(None) => {},
            Err(m) => return Err(m),
        }
        assert(parse_statement(ts, p0) == parse_unlabeled(ts, p0));
        let kind = match stream.peek() {
            Some(token) => token.token_type,
            None => return Err(string_of("Unexpected end of statement")),
        };
        match kind {
            TokenType::Return => self.return_statement(stream),
            TokenType::Break => self.break_statement(stream),
            TokenType::Continue => self.continue_statement(stream),
            TokenType::Semicolon => self.null_statement(stream),
            TokenType::LeftBrace => self.compound_statement(stream),
            TokenType::If => self.if_statement(stream),
            TokenType::Switch => self.switch_statement(stream),
            TokenType::While => self.while_statement(stream),
            TokenType::Do => self.do_while_statement(stream),
            TokenType::For => self.for_statement(stream),
            TokenType::Goto => self.goto_statement(stream),
            _ => self.expression_statement(stream),
        }
    }

    fn goto_statement(&self, stream: &mut TokenStream) -> (r: Result<Statement, String>)
        requires
            readable(*old(stream)),
        ensures
            final(stream).tokens() == old(stream).tokens(),
            stmt_result(parse_goto(old(stream).tokens(), old(stream).position() as int), r, final(stream).position() as int),
            r is Ok ==> advances(old(stream).tokens(), old(stream).position() as int, final(stream).position() as int),
    {
        match self.expect(stream, TokenType::Goto) {
            Ok(_) => {},
            Err(m) => return Err(m),
        }
        let target = match self.expect(stream, TokenType::Identifier) {
            Ok(t) => t.lexeme,
            Err(m) => return Err(m),
        };
        match self.expect(stream, TokenType::Semicolon) {
            Ok(_) => {},
            Err(m) => return Err(m),
        }
        Ok(Statement::GotoStatement(target))
    }

    fn compound_statement(&self, stream: &mut TokenStream) -> (r: Result<Statement, String>)
        requires
            readable(*old(stream)),
            at_type(old(stream).tokens(), old(stream).position() as int, TokenType::LeftBrace),
        ensures
            final(stream).tokens() == old(stream).tokens(),
            stmt_result(parse_unlabeled(old(stream).tokens(), old(stream).position() as int), r, final(stream).position() as int),
            r is Ok ==> advances(old(stream).tokens(), old(stream).position() as int, final(stream).position() as int),
        decreases old(stream).tokens().len() - old(stream).position(), 5nat,
    {
        match self.block(stream) {
            Ok(b) => Ok(Statement::CompoundStatement(b)),
            Err(m) => Err(m),
        }
    }

    fn if_statement(&self, stream: &mut TokenStream) -> (r: Result<Statement, String>)
        requires
            readable(*old(stream)),
        ensures
            final(stream).tokens() == old(stream).tokens(),
            stmt_result(parse_if(old(stream).tokens(), old(stream).position() as int), r, final(stream).position() as int),
            r is Ok ==> advances(old(stream).tokens(), old(stream).position() as int, final(stream).position() as int),
        decreases old(stream).tokens().len() - old(stream).position(), 5nat,
    {
        let ghost ts = stream.tokens();
        let ghost p0 = stream.position() as int;
        match self.expect(stream, TokenType::If) {
            Ok(_) => {},
            Err(m) => return Err(m),
        }
        let ghost p1 = stream.position() as int;
        match self.expect(stream, TokenType::LeftParen) {
            Ok(_) => {},
            Err(m) => return Err(m),
        }
        let condition = match self.expression(stream, 0) {
            Ok(e) => e,
            Err(m) => return Err(m),
        };
        match self.expect(stream, TokenType::RightParen) {
            Ok(_) => {},
            Err(m) => return Err(m),
        }
        assert(parse_paren_expr(ts, p1) == Parsed::Done(texpr_view(condition), stream.position() as int));
        let then_branch = match self.statement(stream) {
            Ok(st) => st,
            Err(m) => return Err(m),
        };
        let has_else = match stream.peek() {
            Some(token) => token.token_type == TokenType::Else,
            None => false,
        };
        let else_branch = if has_else {
            stream.advance();
            match self.statement(stream) {
                Ok(st) => Some(Box::new(st)),
                Err(m) => return Err(m),
            }
        } else {
            None
        };
        Ok(Statement::IfStatement { condition, then_branch: Box::new(then_branch), else_branch })
    }

    fn switch_statement(&self, stream: &mut TokenStream) -> (r: Result<Statement, String>)
        requires
            readable(*old(stream)),
        ensures
            final(stream).tokens() == old(stream).tokens(),
            stmt_result(parse_switch(old(stream).tokens(), old(stream).position() as int), r, final(stream).position() as int),
            r is Ok ==> advances(old(stream).tokens(), old(stream).position() as int, final(stream).position() as int),
        decreases old(stream).tokens().len() - old(stream).position(), 5nat,
    {
        let ghost ts = stream.tokens();
        match self.expect(stream, TokenType::Switch) {
            Ok(_) => {},
            Err(m) => return Err(m),
        }
        let ghost p1 = stream.position() as int;
        match self.expect(stream, TokenType::LeftParen) {
            Ok(_) => {},
            Err(m) => return Err(m),
        }
        let condition = match self.expression(stream, 0) {
            Ok(e) => e,
            Err(m) => return Err(m),
        };
        match self.expect(stream, TokenType::RightParen) {
            Ok(_) => {},
            Err(m) => return Err(m),
        }
        assert(parse_paren_expr(ts, p1) == Parsed::Done(texpr_view(condition), stream.position() as int));
        let body = match self.statement(stream) {
            Ok(st) => st,
            Err(m) => return Err(m),
        };
        let arms: Vec<(String, Option<TypedExpression>)> = Vec::new();
        assert(crate::ast_view::arms_view(arms@) =~= Seq::empty());
        Ok(Statement::SwitchStatement { switch_id: String::new(), condition, body: Box::new(body), arms })
    }

    fn while_statement(&self, stream: &mut TokenStream) -> (r: Result<Statement, String>)
        requires
            readable(*old(stream)),
        ensures
            final(stream).tokens() == old(stream).tokens(),
            stmt_result(parse_while(old(stream).tokens(), old(stream).position() as int), r, final(stream).position() as int),
            r is Ok ==> advances(old(stream).tokens(), old(stream).position() as int, final(stream).position() as int),
        decreases old(stream).tokens().len() - old(stream).position(), 5nat,
    {
        let ghost ts = stream.tokens();
        match self.expect(stream, TokenType::While) {
            Ok(_) => {},
            Err(m) => return Err(m),
        }
        let ghost p1 = stream.position() as int;
        match self.expect(stream, TokenType::LeftParen) {
            Ok(_) => {},
            Err(m) => return Err(m),
        }
        let condition = match self.expression(stream, 0) {
            Ok(e) => e,
            Err(m) => return Err(m),
        };
        match self.expect(stream, TokenType::RightParen) {
            Ok(_) => {},
            Err(m) => return Err(m),
        }
        assert(parse_paren_expr(ts, p1) == Parsed::Done(texpr_view(condition), stream.position() as int));
        let body = match self.statement(stream) {
            Ok(st) => st,
            Err(m) => return Err(m),
        };
        Ok(Statement::While { loop_id: String::new(), condition, body: Box::new(body) })
    }

    fn do_while_statement(&self, stream: &mut TokenStream) -> (r: Result<Statement, String>)
        requires
            readable(*old(stream)),
        ensures
            final(stream).tokens() == old(stream).tokens(),
            stmt_result(parse_do_while(old(stream).tokens(), old(stream).position() as int), r, final(stream).position() as int),
            r is Ok ==> advances(old(stream).tokens(), old(stream).position() as int, final(stream).position() as int),
        decreases old(stream).tokens().len() - old(stream).position(), 5nat,
    {
        let ghost ts = stream.tokens();
        match self.expect(stream, TokenType::Do) {
            Ok(_) => {},
            Err(m) => return Err(m),
        }
        let body = match self.statement(stream) {
            Ok(st) => st,
            Err(m) => return Err(m),
        };
        match self.expect(stream, TokenType::While) {
            Ok(_) => {},
            Err(m) => return Err(m),
        }
        let ghost p2 = stream.position() as int;
        match self.expect(stream, TokenType::LeftParen) {
            Ok(_) => {},
            Err(m) => return Err(m),
        }
        let condition = match self.expression(stream, 0) {
            Ok(e) => e,
            Err(m) => return Err(m),
        };
        match self.expect(stream, TokenType::RightParen) {
            Ok(_) => {},
            Err(m) => return Err(m),
        }
        assert(parse_paren_expr(ts, p2) == Parsed::Done(texpr_view(condition), stream.position() as int));
        match self.expect(stream, TokenType::Semicolon) {
            Ok(_) => {},
            Err(m) => return Err(m),
        }
        Ok(Statement::DoWhile { loop_id: String::new(), condition, body: Box::new(body) })
    }

    fn for_statement(&self, stream: &mut TokenStream) -> (r: Result<Statement, String>)
        requires
            readable(*old(stream)),
        ensures
            final(stream).tokens() == old(stream).tokens(),
            stmt_result(parse_for(old(stream).tokens(), old(stream).position() as int), r, final(stream).position() as int),
            r is Ok ==> advances(old(stream).tokens(), old(stream).position() as int, final(stream).position() as int),
        decreases old(stream).tokens().len() - old(stream).position(), 5nat,
    {
        match self.expect(stream, TokenType::For) {
            Ok(_) => {},
            Err(m) => return Err(m),
        }
        match self.expect(stream, TokenType::LeftParen) {
            Ok(_) => {},
            Err(m) => return Err(m),
        }
        let init = match self.for_init(stream) {
            Ok(i) => i,
            Err(m) => return Err(m),
        };
        let condition = match self.for_condition(stream) {
            Ok(c) => c,
            Err(m) => return Err(m),
        };
        let post = match self.for_post(stream) {
            Ok(c) => c,
            Err(m) => return Err(m),
        };
        let body = match self.statement(stream) {
            Ok(st) => st,
            Err(m) => return Err(m),
        };
        Ok(Statement::For { loop_id: String::new(), init, condition, post, body: Box::new(body) })
    }

    fn for_post(&self, stream: &mut TokenStream) -> (r: Result<Option<TypedExpression>, String>)
        requires
            readable(*old(stream)),
        ensures
            final(stream).tokens() == old(stream).tokens(),
            optional_result(
                parse_optional_expr(old(stream).tokens(), old(stream).position() as int, TokenType::RightParen),
                r,
                final(stream).position() as int,
            ),
            r is Ok ==> advances(old(stream).tokens(), old(stream).position() as int, final(stream).position() as int),
    {
        self.get_optional_expression(stream, TokenType::RightParen)
    }

    fn for_condition(&self, stream: &mut TokenStream) -> (r: Result<Option<TypedExpression>, String>)
        requires
            readable(*old(stream)),
        ensures
            final(stream).tokens() == old(stream).tokens(),
            optional_result(
                parse_optional_expr(old(stream).tokens(), old(stream).position() as int, TokenType::Semicolon),
                r,
                final(stream).position() as int,
            ),
            r is Ok ==> advances(old(stream).tokens(), old(stream).position() as int, final(stream).position() as int),
    {
        self.get_optional_expression(stream, TokenType::Semicolon)
    }

    /// An optional expression up to and including `terminator_type`.
    fn get_optional_expression(&self, stream: &mut TokenStream, terminator_type: TokenType) -> (r: Result<Option<TypedExpression>, String>)
        requires
            readable(*old(stream)),
        ensures
            final(stream).tokens() == old(stream).tokens(),
            optional_result(
                parse_optional_expr(old(stream).tokens(), old(stream).position() as int, terminator_type),
                r,
                final(stream).position() as int,
            ),
            r is Ok ==> advances(old(stream).tokens(), old(stream).position() as int, final(stream).position() as int),
    {
        let kind = match stream.peek() {
            Some(token) => token.token_type,
            None => return Err(string_of("Unexpected end of input in for-loop initializer")),
        };
        if kind == terminator_type {
            stream.advance();
            Ok(None)
        } else {
            let expr = match self.expression(stream, 0) {
                Ok(e) => e,
                Err(m) => return Err(m),
            };
            match self.expect(stream, terminator_type) {
                Ok(_) => {},
                Err(m) => return Err(m),
            }
            Ok(Some(expr))
        }
    }

    fn for_init(&self, stream: &mut TokenStream) -> (r: Result<ForInit, String>)
        requires
            readable(*old(stream)),
        ensures
            final(stream).tokens() == old(stream).tokens(),
            for_init_result(parse_for_init(old(stream).tokens(), old(stream).position() as int), r, final(stream).position() as int),
            r is Ok ==> advances(old(stream).tokens(), old(stream).position() as int, final(stream).position() as int),
    {
        let kind = match stream.peek() {
            Some(token) => token.token_type,
            None => return Err(string_of("Unexpected end of input in for-loop initializer")),
        };
        match kind {
            TokenType::Int => self.for_init_declaration(stream),
            TokenType::Semicolon => {
                match self.expect(stream, TokenType::Semicolon) {
                    Ok(_) => {},
                    Err(m) => return Err(m),
                }
                Ok(ForInit::InitExpression(None))
            },
            _ => {
                let expr = match self.expression(stream, 0) {
                    Ok(e) => e,
                    Err(m) => return Err(m),
                };
                match self.expect(stream, TokenType::Semicolon) {
                    Ok(_) => {},
                    Err(m) => return Err(m),
                }
                Ok(ForInit::InitExpression(Some(expr)))
            },
        }
    }

    fn for_init_declaration(&self, stream: &mut TokenStream) -> (r: Result<ForInit, String>)
        requires
            readable(*old(stream)),
            at_type(old(stream).tokens(), old(stream).position() as int, TokenType::Int),
        ensures
            final(stream).tokens() == old(stream).tokens(),
            for_init_result(parse_for_init(old(stream).tokens(), old(stream).position() as int), r, final(stream).position() as int),
            r is Ok ==> advances(old(stream).tokens(), old(stream).position() as int, final(stream).position() as int),
    {
        match self.expect(stream, TokenType::Int) {
            Ok(_) => {},
            Err(m) => return Err(m),
        }
        let name = match self.expect(stream, TokenType::Identifier) {
            Ok(t) => t.lexeme,
            Err(m) => return Err(m),
        };
        match self.variable_declaration(stream, name, None) {
            Ok(d) => Ok(ForInit::InitDeclaration(d)),
            Err(m) => Err(m),
        }
    }

    fn expression_statement(&self, stream: &mut TokenStream) -> (r: Result<Statement, String>)
        requires
            readable(*old(stream)),
        ensures
            final(stream).tokens() == old(stream).tokens(),
            stmt_result(parse_expression_statement(old(stream).tokens(), old(stream).position() as int), r, final(stream).position() as int),
            r is Ok ==> advances(old(stream).tokens(), old(stream).position() as int, final(stream).position() as int),
    {
        let expr = match self.expression(stream, 0) {
            Ok(e) => e,
            Err(m) => return Err(m),
        };
        match self.expect(stream, TokenType::Semicolon) {
            Ok(_) => {},
            Err(m) => return Err(m),
        }
        Ok(Statement::Expression(expr))
    }

    fn null_statement(&self, stream: &mut TokenStream) -> (r: Result<Statement, String>)
        requires
            readable(*old(stream)),
            at_type(old(stream).tokens(), old(stream).position() as int, TokenType::Semicolon),
        ensures
            final(stream).tokens() == old(stream).tokens(),
            stmt_result(parse_unlabeled(old(stream).tokens(), old(stream).position() as int), r, final(stream).position() as int),
            r is Ok ==> advances(old(stream).tokens(), old(stream).position() as int, final(stream).position() as int),
    {
        match self.consume(stream) {
            Ok(_) => Ok(Statement::Null),
            Err(m) => Err(m),
        }
    }

    fn return_statement(&self, stream: &mut TokenStream) -> (r: Result<Statement, String>)
        requires
            readable(*old(stream)),
        ensures
            final(stream).tokens() == old(stream).tokens(),
            stmt_result(parse_return(old(stream).tokens(), old(stream).position() as int), r, final(stream).position() as int),
            r is Ok ==> advances(old(stream).tokens(), old(stream).position() as int, final(stream).position() as int),
    {
        match self.expect(stream, TokenType::Return) {
            Ok(_) => {},
            Err(m) => return Err(m),
        }
        let expr = match self.expression(stream, 0) {
            Ok(e) => e,
            Err(m) => return Err(m),
        };
        match self.expect(stream, TokenType::Semicolon) {
            Ok(_) => {},
            Err(m) => return Err(m),
        }
        Ok(Statement::Return(expr))
    }

    fn break_statement(&self, stream: &mut TokenStream) -> (r: Result<Statement, String>)
        requires
            readable(*old(stream)),
        ensures
            final(stream).tokens() == old(stream).tokens(),
            stmt_result(parse_jump(old(stream).tokens(), old(stream).position() as int, true), r, final(stream).position() as int),
            r is Ok ==> advances(old(stream).tokens(), old(stream).position() as int, final(stream).position() as int),
    {
        match self.expect(stream, TokenType::Break) {
            Ok(_) => {},
            Err(m) => return Err(m),
        }
        match self.expect(stream, TokenType::Semicolon) {
            Ok(_) => {},
            Err(m) => return Err(m),
        }
        Ok(Statement::Break { loop_id: String::new() })
    }

    fn continue_statement(&self, stream: &mut TokenStream) -> (r: Result<Statement, String>)
        requires
            readable(*old(stream)),
        ensures
            final(stream).tokens() == old(stream).tokens(),
            stmt_result(parse_jump(old(stream).tokens(), old(stream).position() as int, false), r, final(stream).position() as int),
            r is Ok ==> advances(old(stream).tokens(), old(stream).position() as int, final(stream).position() as int),
    {
        match self.expect(stream, TokenType::Continue) {
            Ok(_) => {},
            Err(m) => return Err(m),
        }
        match self.expect(stream, TokenType::Semicolon) {
            Ok(_) => {},
            Err(m) => return Err(m),
        }
        Ok(Statement::Continue { loop_id: String::new() })
    }

    /// A block: `{`, declarations and statements, `}`.
    fn block(&self, stream: &mut TokenStream) -> (r: Result<Block, String>)
        requires
            readable(*old(stream)),
        ensures
            final(stream).tokens() == old(stream).tokens(),
            block_result(parse_block(old(stream).tokens(), old(stream).position() as int), r, final(stream).position() as int),
            r is Ok ==> advances(old(stream).tokens(), old(stream).position() as int, final(stream).position() as int),
        decreases old(stream).tokens().len() - old(stream).position(), 4nat,
    {
        let ghost ts = stream.tokens();
        let ghost p0 = stream.position() as int;
        let mut items: Vec<BlockItem> = Vec::new();
        match self.expect(stream, TokenType::LeftBrace) {
            Ok(_) => {},
            Err(m) => return Err(m),
        }
        loop
            invariant
                stream.tokens() == ts,
                ts == old(stream).tokens(),
                p0 == old(stream).position(),
                p0 < stream.position() <= ts.len() < usize::MAX,
                parse_block(ts, p0) == parse_items(ts, stream.position() as int, items_view(items@)),
            decreases ts.len() - stream.position(),
        {
            let kind = match stream.peek() {
                Some(token) => Some(token.token_type),
                None => None,
            };
            let item = match kind {
                None | Some(TokenType::RightBrace) => {
                    match self.expect(stream, TokenType::RightBrace) {
                        Ok(_) => return Ok(Block::new(items)),
                        Err(m) => return Err(m),
                    }
                },
                Some(TokenType::Int) | Some(TokenType::Static) | Some(TokenType::Extern) => {
                    match self.declaration(stream) {
                        Ok(Declaration::FunctionDecl(func_decl)) => {
                            assert(item_view(BlockItem::FunctionDeclaration(func_decl)) == ItemView::Func(func_decl_view(func_decl)));
                            BlockItem::FunctionDeclaration(func_decl)
                        },
                        Ok(Declaration::VarDecl(var_decl)) => {
                            assert(item_view(BlockItem::VarDeclaration(var_decl)) == ItemView::Var(var_decl_view(var_decl)));
                            BlockItem::VarDeclaration(var_decl)
                        },
                        Err(m) => return Err(m),
                    }
                },
                _ => match self.statement(stream) {
                    Ok(st) => BlockItem::Statement(st),
                    Err(m) => return Err(m),
                },
            };
            proof {
                assert(items@.push(item).drop_last() =~= items@);
                assert(items_view(items@.push(item)) == items_view(items@).push(item_view(item)));
            }
            items.push(item);
        }
    }

    /// The rest of a variable declaration after its name: an optional initializer, then `;`.
    fn variable_declaration(&self, stream: &mut TokenStream, name: String, storage_class: Option<StorageClass>) -> (r: Result<VarDeclaration, String>)
        requires
            readable(*old(stream)),
        ensures
            final(stream).tokens() == old(stream).tokens(),
            var_result(
                parse_var_rest(old(stream).tokens(), old(stream).position() as int, name@, storage_class),
                r,
                final(stream).position() as int,
            ),
            r is Ok ==> advances(old(stream).tokens(), old(stream).position() as int, final(stream).position() as int),
    {
        let is_assign = match stream.peek() {
            Some(token) => token.token_type == TokenType::Assign,
            None => false,
        };
        let init_expr = if is_assign {
            stream.advance();
            match self.expression(stream, 0) {
                Ok(e) => Some(e),
                Err(m) => return Err(m),
            }
        } else {
            None
        };
        match self.expect(stream, TokenType::Semicolon) {
            Ok(_) => {},
            Err(m) => return Err(m),
        }
        Ok(VarDeclaration::new(name, init_expr, storage_class, Type::Int))
    }

    /// The specifiers at the start of a declaration.
    fn specifiers(&self, stream: &mut TokenStream) -> (r: Result<Specifiers, String>)
        requires
            readable(*old(stream)),
        ensures
            final(stream).tokens() == old(stream).tokens(),
            match r {
                Ok(s) => parse_specifiers(old(stream).tokens(), old(stream).position() as int)
                    == Parsed::Done(s, final(stream).position() as int)
                    && old(stream).position() <= final(stream).position() <= old(stream).tokens().len(),
                Err(m) => parse_specifiers(old(stream).tokens(), old(stream).position() as int)
                    == Parsed::<Specifiers>::Fail(m@),
            },
    {
        let ghost ts = stream.tokens();
        let ghost p0 = stream.position() as int;
        let mut specifiers = Specifiers { has_int: false, has_static: false, has_extern: false };
        let mut more = true;
        while more
            invariant
                stream.tokens() == ts,
                ts == old(stream).tokens(),
                p0 == old(stream).position(),
                p0 <= stream.position() <= ts.len() < usize::MAX,
                parse_specifier_tokens(ts, p0, Specifiers { has_int: false, has_static: false, has_extern: false })
                    == (if more {
                    parse_specifier_tokens(ts, stream.position() as int, specifiers)
                } else {
                    Parsed::Done(specifiers, stream.position() as int)
                }),
            decreases ts.len() - stream.position() + (if more { 1int } else { 0 }),
        {
            match stream.peek() {
                Some(token) => {
                    let tt = token.token_type;
                    if tt == TokenType::Int || tt == TokenType::Static || tt == TokenType::Extern {
                        let seen = if tt == TokenType::Int {
                            specifiers.has_int
                        } else if tt == TokenType::Static {
                            specifiers.has_static
                        } else {
                            specifiers.has_extern
                        };
                        if seen {
                            let mut m = string_of("duplicate specifier ");
                            append_str(&mut m, token.lexeme.as_str());
                            return Err(m);
                        }
                        if tt == TokenType::Int {
                            specifiers.has_int = true;
                        } else if tt == TokenType::Static {
                            specifiers.has_static = true;
                        } else {
                            specifiers.has_extern = true;
                        }
                        stream.advance();
                    } else {
                        more = false;
                    }
                },
                None => {
                    more = false;
                },
            }
        }
        let num_specifiers: u32 = (if specifiers.has_int { 1u32 } else { 0 }) + (if specifiers.has_static { 1u32 } else { 0 })
            + (if specifiers.has_extern { 1u32 } else { 0 });
        if num_specifiers == 1 {
            if specifiers.has_static || specifiers.has_extern {
                return Err(string_of("static or extern specifier cannot be specified without type"));
            }
        } else if num_specifiers == 2 {
            if specifiers.has_static && specifiers.has_extern {
                return Err(string_of("static specifier cannot be specified together with extern"));
            }
        } else {
            return Err(string_of("expected 1 or 2 specifiers"));
        }
        Ok(specifiers)
    }

    /// A declaration: specifiers, a name, then the rest of a function or of a variable.
    fn declaration(&self, stream: &mut TokenStream) -> (r: Result<Declaration, String>)
        requires
            readable(*old(stream)),
        ensures
            final(stream).tokens() == old(stream).tokens(),
            decl_result(parse_declaration(old(stream).tokens(), old(stream).position() as int), r, final(stream).position() as int),
            r is Ok ==> advances(old(stream).tokens(), old(stream).position() as int, final(stream).position() as int),
        decreases old(stream).tokens().len() - old(stream).position(), 3nat,
    {
        let specifiers = match self.specifiers(stream) {
            Ok(s) => s,
            Err(m) => return Err(m),
        };
        let storage_class = if specifiers.has_static {
            Some(StorageClass::Static)
        } else if specifiers.has_extern {
            Some(StorageClass::Extern)
        } else {
            None
        };
        let name = match self.expect(stream, TokenType::Identifier) {
            Ok(t) => t.lexeme,
            Err(m) => return Err(m),
        };
        let kind = match stream.peek() {
            Some(token) => token.token_type,
            None => return Err(string_of("Unexpected end of input after identifier")),
        };
        match kind {
            TokenType::LeftParen => match self.function_declaration(stream, name, storage_class) {
                Ok(f) => Ok(Declaration::FunctionDecl(f)),
                Err(m) => Err(m),
            },
            _ => match self.variable_declaration(stream, name, storage_class) {
                Ok(v) => Ok(Declaration::VarDecl(v)),
                Err(m) => Err(m),
            },
        }
    }

    /// The rest of a function declaration: the parameters in parentheses, then `;` or a body.
    fn function_declaration(&self, stream: &mut TokenStream, name: String, storage_class: Option<StorageClass>) -> (r: Result<FunctionDeclaration, String>)
        requires
            readable(*old(stream)),
        ensures
            final(stream).tokens() == old(stream).tokens(),
            func_result(
                parse_function_rest(old(stream).tokens(), old(stream).position() as int, name@, storage_class),
                r,
                final(stream).position() as int,
            ),
            r is Ok ==> advances(old(stream).tokens(), old(stream).position() as int, final(stream).position() as int),
        decreases old(stream).tokens().len() - old(stream).position(), 2nat,
    {
        let ghost ts = stream.tokens();
        let ghost p0 = stream.position() as int;
        match self.expect(stream, TokenType::LeftParen) {
            Ok(_) => {},
            Err(m) => return Err(m),
        }
        let mut parameters: Vec<String> = Vec::new();
        assert(names_view(parameters@) =~= Seq::empty());
        let mut more = true;
        while more
            invariant
                stream.tokens() == ts,
                ts == old(stream).tokens(),
                p0 == old(stream).position(),
                at_type(ts, p0, TokenType::LeftParen),
                p0 < stream.position() <= ts.len() < usize::MAX,
                parse_params(ts, p0 + 1, Seq::empty()) == (if more {
                    parse_params(ts, stream.position() as int, names_view(parameters@))
                } else {
                    Parsed::Done(names_view(parameters@), stream.position() as int)
                }),
            decreases ts.len() - stream.position() + (if more { 1int } else { 0 }),
        {
            let (kind, token_text) = match stream.peek() {
                Some(token) => (token.token_type, token_message(token)),
                None => return Err(string_of("Unexpected end of input in parameter list")),
            };
            match kind {
                TokenType::Void => {
                    if parameters.len() == 0 {
                        stream.advance();
                        more = false;
                    } else {
                        return Err(string_of("Unexpected 'void' in parameter list"));
                    }
                },
                TokenType::Int => {
                    if parameters.len() != 0 {
                        return Err(string_of("Unexpected 'int' in parameter list"));
                    }
                    stream.advance();
                    let param = match self.expect(stream, TokenType::Identifier) {
                        Ok(t) => t.lexeme,
                        Err(m) => return Err(m),
                    };
                    proof {
                        assert(names_view(parameters@.push(param)) =~= names_view(parameters@).push(param@));
                    }
                    parameters.push(param);
                },
                TokenType::Comma => {
                    if parameters.len() == 0 {
                        return Err(string_of("Unexpected ',' in parameter list"));
                    }
                    stream.advance();
                    match self.expect(stream, TokenType::Int) {
                        Ok(_) => {},
                        Err(m) => return Err(m),
                    }
                    let param = match self.expect(stream, TokenType::Identifier) {
                        Ok(t) => t.lexeme,
                        Err(m) => return Err(m),
                    };
                    proof {
                        assert(names_view(parameters@.push(param)) =~= names_view(parameters@).push(param@));
                    }
                    parameters.push(param);
                },
                TokenType::RightParen => {
                    more = false;
                },
                _ => {
                    let mut m = string_of("Unexpected token ");
                    append_str(&mut m, token_text.as_str());
                    append_str(&mut m, " in parameter list");
                    return Err(m);
                },
            }
        }
        match self.expect(stream, TokenType::RightParen) {
            Ok(_) => {},
            Err(m) => return Err(m),
        }
        let ghost q = stream.position() as int;
        assert(parse_params(ts, p0 + 1, Seq::empty()) == Parsed::Done(names_view(parameters@), q - 1));
        let ends_declaration = match stream.peek() {
            Some(token) => token.token_type == TokenType::Semicolon,
            None => return Err(string_of("Unexpected end of input after function declaration")),
        };
        let body = if ends_declaration {
            stream.advance();
            None
        } else {
            match self.block(stream) {
                Ok(b) => Some(b),
                Err(m) => return Err(m),
            }
        };
        let mut param_types: Vec<Type> = Vec::new();
        while param_types.len() < parameters.len()
            invariant
                param_types@.len() <= parameters@.len(),
                forall|i: int| 0 <= i < param_types@.len() ==> param_types@[i] == Type::Int,
            decreases parameters@.len() - param_types@.len(),
        {
            param_types.push(Type::Int);
        }
        proof {
            assert(param_types@ =~= crate::parser::grammar::int_types(parameters@.len()));
        }
        let ghost pv = param_types@;
        let func_type = Type::Function { return_type: Box::new(Type::Int), param_types };
        assert(crate::ast_view::type_view(func_type) == crate::ast_view::TypeView::Function {
            ret: Box::new(crate::ast_view::type_view(Type::Int)),
            params: crate::ast_view::types_view(pv),
        });
        assert(crate::ast_view::type_view(Type::Int) == crate::ast_view::TypeView::Int);
        assert(pv == crate::parser::grammar::int_types(parameters@.len()));
        assert(crate::ast_view::type_view(func_type) == int_function_type(parameters@.len()));
        Ok(FunctionDeclaration::new(name, parameters, body, storage_class, func_type))
    }

    /// The declarations of a program, up to the end of the tokens.
    fn program(&self, stream: &mut TokenStream) -> (r: Result<Program, String>)
        requires
            readable(*old(stream)),
        ensures
            final(stream).tokens() == old(stream).tokens(),
            match r {
                Ok(p) => parse_decls(old(stream).tokens(), old(stream).position() as int, Seq::empty())
                    == Parsed::Done(decls_view(p.decls@), final(stream).position() as int),
                Err(m) => parse_decls(old(stream).tokens(), old(stream).position() as int, Seq::empty())
                    == Parsed::<Seq<DeclView>>::Fail(m@),
            },
            r is Ok ==> final(stream).position() <= final(stream).tokens().len(),
    {
        let ghost ts = stream.tokens();
        let ghost p0 = stream.position() as int;
        let mut program = Program::new();
        proof {
            assert(decls_view(program.decls@) =~= Seq::empty());
        }
        while stream.has_next()
            invariant
                stream.tokens() == ts,
                ts == old(stream).tokens(),
                p0 == old(stream).position(),
                p0 <= stream.position() <= ts.len() < usize::MAX,
                parse_decls(ts, p0, Seq::empty()) == parse_decls(ts, stream.position() as int, decls_view(program.decls@)),
            decreases ts.len() - stream.position(),
        {
            let decl = match self.declaration(stream) {
                Ok(d) => d,
                Err(m) => return Err(m),
            };
            proof {
                assert(decls_view(program.decls@.push(decl)) =~= decls_view(program.decls@).push(decl_view(decl)));
            }
            program.decls.push(decl);
        }
        Ok(program)
    }

    /// Parses tokens into a program; every token must belong to it.
    pub fn parse(&self, tokens: Vec<Token>) -> (r: Result<Program, String>)
        requires
            tokens@.len() < usize::MAX,
        ensures
            match r {
                Ok(p) => parse_program(tokens@) == Parsed::Done(decls_view(p.decls@), tokens@.len() as int),
                Err(m) => parse_program(tokens@) == Parsed::<Seq<DeclView>>::Fail(m@),
            },
    {
        let mut stream = TokenStream::new(tokens);
        let program = match self.program(&mut stream) {
            Ok(p) => p,
            Err(m) => return Err(m),
        };
        if !stream.has_next() {
            Ok(program)
        } else {
            Err(string_of("Unexpected tokens after end of program"))
        }
    }
}

} // verus!
