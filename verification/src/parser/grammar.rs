use vstd::prelude::*;

use crate::ast::{c_binary_value, c_unary_value, compound_value, truth, spec_associativity, Associativity, BinaryOp, StorageClass, UnaryOp};
use crate::ast_view::{
    DeclView, ExprView, ForInitView, FuncDeclView, ItemView, LabelView, StmtView, TExprView,
    TypeView, VarDeclView,
};
use crate::token::{Token, TokenType, TokenValue};
use crate::util::{decimal, signed_decimal};

verus! {

/// What parsing from a position gives: a value and the position after it, or an error message.
pub enum Parsed<T> {
    Done(T, int),
    Fail(Seq<char>),
}

/// Whether the token at position `p` exists and has type `tt`.
pub open spec fn at_type(ts: Seq<Token>, p: int, tt: TokenType) -> bool {
    0 <= p < ts.len() && ts[p].token_type == tt
}

/// Whether a parse that started at `p` and stopped at `q` consumed at least one token and did
/// not run past the end.
pub open spec fn advances(ts: Seq<Token>, p: int, q: int) -> bool {
    p < q <= ts.len()
}

/// An expression whose type is not known yet.
pub open spec fn untyped(e: ExprView) -> TExprView {
    TExprView { e, t: TypeView::Undefined }
}

/// The name of a token type, as `Debug` prints it.
pub open spec fn token_type_name(tt: TokenType) -> Seq<char> {
    match tt {
        TokenType::Whitespace => "Whitespace"@,
        TokenType::LineComment => "LineComment"@,
        TokenType::Identifier => "Identifier"@,
        TokenType::IntegerConstant => "IntegerConstant"@,
        TokenType::LongConstant => "LongConstant"@,
        TokenType::UnsignedIntegerConstant => "UnsignedIntegerConstant"@,
        TokenType::UnsignedLongConstant => "UnsignedLongConstant"@,
        TokenType::DoubleConstant => "DoubleConstant"@,
        TokenType::Int => "Int"@,
        TokenType::Long => "Long"@,
        TokenType::Void => "Void"@,
        TokenType::Return => "Return"@,
        TokenType::Static => "Static"@,
        TokenType::Extern => "Extern"@,
        TokenType::Signed => "Signed"@,
        TokenType::Unsigned => "Unsigned"@,
        TokenType::Double => "Double"@,
        TokenType::LeftParen => "LeftParen"@,
        TokenType::RightParen => "RightParen"@,
        TokenType::LeftBrace => "LeftBrace"@,
        TokenType::RightBrace => "RightBrace"@,
        TokenType::Comma => "Comma"@,
        TokenType::Semicolon => "Semicolon"@,
        TokenType::Minus => "Minus"@,
        TokenType::Tilde => "Tilde"@,
        TokenType::Plus => "Plus"@,
        TokenType::Asterisk => "Asterisk"@,
        TokenType::Slash => "Slash"@,
        TokenType::Percent => "Percent"@,
        TokenType::BitAnd => "BitAnd"@,
        TokenType::BitOr => "BitOr"@,
        TokenType::BitXor => "BitXor"@,
        TokenType::ShiftLeft => "ShiftLeft"@,
        TokenType::ShiftRight => "ShiftRight"@,
        TokenType::LogicalAnd => "LogicalAnd"@,
        TokenType::LogicalOr => "LogicalOr"@,
        TokenType::LogicalNot => "LogicalNot"@,
        TokenType::Equal => "Equal"@,
        TokenType::NotEqual => "NotEqual"@,
        TokenType::Less => "Less"@,
        TokenType::LessEqual => "LessEqual"@,
        TokenType::Greater => "Greater"@,
        TokenType::GreaterEqual => "GreaterEqual"@,
        TokenType::Assign => "Assign"@,
        TokenType::AssignAdd => "AssignAdd"@,
        TokenType::AssignSub => "AssignSub"@,
        TokenType::AssignMul => "AssignMul"@,
        TokenType::AssignDiv => "AssignDiv"@,
        TokenType::AssignRemainder => "AssignRemainder"@,
        TokenType::AssignBitAnd => "AssignBitAnd"@,
        TokenType::AssignBitOr => "AssignBitOr"@,
        TokenType::AssignBitXor => "AssignBitXor"@,
        TokenType::AssignShiftLeft => "AssignShiftLeft"@,
        TokenType::AssignShiftRight => "AssignShiftRight"@,
        TokenType::IncrementPrefix => "IncrementPrefix"@,
        TokenType::IncrementPostfix => "IncrementPostfix"@,
        TokenType::DecrementPrefix => "DecrementPrefix"@,
        TokenType::DecrementPostfix => "DecrementPostfix"@,
        TokenType::If => "If"@,
        TokenType::Else => "Else"@,
        TokenType::QuestionMark => "QuestionMark"@,
        TokenType::Colon => "Colon"@,
        TokenType::Goto => "Goto"@,
        TokenType::Do => "Do"@,
        TokenType::While => "While"@,
        TokenType::For => "For"@,
        TokenType::Break => "Break"@,
        TokenType::Continue => "Continue"@,
        TokenType::Switch => "Switch"@,
        TokenType::Case => "Case"@,
        TokenType::Default => "Default"@,
    }
}

/// The message of `expect` when the token at `p` is not of type `tt`.
pub open spec fn expect_error(ts: Seq<Token>, p: int, tt: TokenType) -> Seq<char> {
    if 0 <= p < ts.len() {
        "Expected token "@ + token_type_name(tt) + ", got "@ + token_type_name(ts[p].token_type)
    } else {
        "Expected token of type "@ + token_type_name(tt) + " but found end of input"@
    }
}

/// A token's value, as `Debug` prints it.
pub open spec fn value_text(v: Option<TokenValue>) -> Seq<char> {
    match v {
        None => "None"@,
        Some(TokenValue::Integer(i)) => "Some(Integer("@ + signed_decimal(i as int) + "))"@,
        Some(TokenValue::Long(l)) => "Some(Long("@ + signed_decimal(l as int) + "))"@,
        Some(TokenValue::UnsignedInteger(u)) => "Some(UnsignedInteger("@ + decimal(u as nat) + "))"@,
        Some(TokenValue::UnsignedLong(u)) => "Some(UnsignedLong("@ + decimal(u as nat) + "))"@,
    }
}

/// A token, as `Debug` prints it when its lexeme needs no escaping.
pub open spec fn token_text(t: Token) -> Seq<char> {
    "Token { token_type: "@ + token_type_name(t.token_type) + ", value: "@ + value_text(t.value)
        + ", lexeme: \""@ + t.lexeme@ + "\", line: "@ + decimal(t.line as nat) + ", column: "@
        + decimal(t.column as nat) + " }"@
}

/// The binary operator that a token type stands for, if any.
pub open spec fn binary_op_of(tt: TokenType) -> Option<BinaryOp> {
    match tt {
        TokenType::Plus => Some(BinaryOp::Add),
        TokenType::Minus => Some(BinaryOp::Subtract),
        TokenType::Asterisk => Some(BinaryOp::Multiply),
        TokenType::Slash => Some(BinaryOp::Divide),
        TokenType::Percent => Some(BinaryOp::Remainder),
        TokenType::BitAnd => Some(BinaryOp::BitAnd),
        TokenType::BitOr => Some(BinaryOp::BitOr),
        TokenType::BitXor => Some(BinaryOp::BitXor),
        TokenType::ShiftLeft => Some(BinaryOp::ShiftLeft),
        TokenType::ShiftRight => Some(BinaryOp::ShiftRight),
        TokenType::LogicalAnd => Some(BinaryOp::LogicalAnd),
        TokenType::LogicalOr => Some(BinaryOp::LogicalOr),
        TokenType::Equal => Some(BinaryOp::Equal),
        TokenType::NotEqual => Some(BinaryOp::NotEqual),
        TokenType::Greater => Some(BinaryOp::Greater),
        TokenType::Less => Some(BinaryOp::Less),
        TokenType::GreaterEqual => Some(BinaryOp::GreaterEqual),
        TokenType::LessEqual => Some(BinaryOp::LessEqual),
        TokenType::Assign => Some(BinaryOp::Assign),
        TokenType::AssignAdd => Some(BinaryOp::AssignAdd),
        TokenType::AssignSub => Some(BinaryOp::AssignSubtract),
        TokenType::AssignMul => Some(BinaryOp::AssignMultiply),
        TokenType::AssignDiv => Some(BinaryOp::AssignDivide),
        TokenType::AssignRemainder => Some(BinaryOp::AssignRemainder),
        TokenType::AssignBitAnd => Some(BinaryOp::AssignBitAnd),
        TokenType::AssignBitOr => Some(BinaryOp::AssignBitOr),
        TokenType::AssignBitXor => Some(BinaryOp::AssignBitXor),
        TokenType::AssignShiftLeft => Some(BinaryOp::AssignShiftLeft),
        TokenType::AssignShiftRight => Some(BinaryOp::AssignShiftRight),
        TokenType::QuestionMark => Some(BinaryOp::Conditional),
        _ => None,
    }
}

/// The level of a binary operator in C's precedence table, from the loosest (assignments) to
/// the tightest (multiplicative operators).
pub open spec fn c_level(op: BinaryOp) -> int {
    match op {
        BinaryOp::Multiply | BinaryOp::Divide | BinaryOp::Remainder => 11,
        BinaryOp::Add | BinaryOp::Subtract => 10,
        BinaryOp::ShiftLeft | BinaryOp::ShiftRight => 9,
        BinaryOp::Greater | BinaryOp::Less | BinaryOp::GreaterEqual | BinaryOp::LessEqual => 8,
        BinaryOp::Equal | BinaryOp::NotEqual => 7,
        BinaryOp::BitAnd => 6,
        BinaryOp::BitXor => 5,
        BinaryOp::BitOr => 4,
        BinaryOp::LogicalAnd => 3,
        BinaryOp::LogicalOr => 2,
        BinaryOp::Conditional => 1,
        _ => 0,
    }
}

/// Law: one operator binds tighter than another exactly where C's precedence table puts it
/// higher, and two operators bind alike exactly where the table puts them on one level.
pub proof fn law_precedence_order(p: BinaryOp, q: BinaryOp)
    ensures
        precedence(p) < precedence(q) <==> c_level(p) < c_level(q),
        precedence(p) == precedence(q) <==> c_level(p) == c_level(q),
{
}

/// Law: assignments and the conditional operator group to the right, every other binary
/// operator to the left, as in C.
pub proof fn law_associativity(op: BinaryOp)
    ensures
        spec_associativity(op) == Associativity::Right <==> c_level(op) <= 1,
{
}

/// What the operator a token stands for computes from two integer operands: `+` the sum,
/// `-` the difference, `*` the product, `/` the quotient, `%` the remainder, `&`, `|` and `^`
/// the bitwise operations, `<<` and `>>` the shifts, and 1 or 0 for `&&`, `||` and the
/// comparisons. Other tokens compute nothing from two operands.
pub open spec fn token_binary_value(tt: TokenType, a: i64, b: i64) -> Option<int> {
    match tt {
        TokenType::Plus => Some(a + b),
        TokenType::Minus => Some(a - b),
        TokenType::Asterisk => Some(a * b),
        TokenType::Slash => Some(a / b),
        TokenType::Percent => Some((a % b) as int),
        TokenType::BitAnd => Some((a & b) as int),
        TokenType::BitOr => Some((a | b) as int),
        TokenType::BitXor => Some((a ^ b) as int),
        TokenType::ShiftLeft => Some((a << b) as int),
        TokenType::ShiftRight => Some((a >> b) as int),
        TokenType::LogicalAnd => Some(truth(a != 0 && b != 0)),
        TokenType::LogicalOr => Some(truth(a != 0 || b != 0)),
        TokenType::Equal => Some(truth(a == b)),
        TokenType::NotEqual => Some(truth(a != b)),
        TokenType::Greater => Some(truth(a > b)),
        TokenType::Less => Some(truth(a < b)),
        TokenType::GreaterEqual => Some(truth(a >= b)),
        TokenType::LessEqual => Some(truth(a <= b)),
        _ => None,
    }
}

/// Law: a token that denotes a computing binary operator parses as the operator that
/// computes the same value.
pub proof fn law_binary_token_meaning(tt: TokenType, a: i64, b: i64)
    ensures
        token_binary_value(tt, a, b) is Some ==> (binary_op_of(tt) matches Some(op) && c_binary_value(op, a, b)
            == token_binary_value(tt, a, b)),
        (binary_op_of(tt) matches Some(op) && c_binary_value(op, a, b) is Some) ==> token_binary_value(tt, a, b)
            == c_binary_value(binary_op_of(tt)->0, a, b),
{
}

/// How tightly a binary operator binds: a higher number binds tighter.
pub open spec fn precedence(op: BinaryOp) -> int {
    match op {
        BinaryOp::Assign | BinaryOp::AssignAdd | BinaryOp::AssignSubtract
        | BinaryOp::AssignMultiply | BinaryOp::AssignDivide | BinaryOp::AssignRemainder
        | BinaryOp::AssignBitAnd | BinaryOp::AssignBitOr | BinaryOp::AssignBitXor
        | BinaryOp::AssignShiftLeft | BinaryOp::AssignShiftRight => 1,
        BinaryOp::Conditional => 5,
        BinaryOp::LogicalOr => 15,
        BinaryOp::LogicalAnd => 20,
        BinaryOp::BitOr => 25,
        BinaryOp::BitXor => 30,
        BinaryOp::BitAnd => 35,
        BinaryOp::Equal | BinaryOp::NotEqual => 36,
        BinaryOp::Greater | BinaryOp::Less | BinaryOp::GreaterEqual | BinaryOp::LessEqual => 37,
        BinaryOp::ShiftLeft | BinaryOp::ShiftRight => 40,
        BinaryOp::Add | BinaryOp::Subtract => 45,
        BinaryOp::Multiply | BinaryOp::Divide | BinaryOp::Remainder => 50,
    }
}

/// The operator that a compound assignment applies before it assigns.
pub open spec fn compound_base(op: BinaryOp) -> Option<BinaryOp> {
    match op {
        BinaryOp::AssignAdd => Some(BinaryOp::Add),
        BinaryOp::AssignSubtract => Some(BinaryOp::Subtract),
        BinaryOp::AssignMultiply => Some(BinaryOp::Multiply),
        BinaryOp::AssignDivide => Some(BinaryOp::Divide),
        BinaryOp::AssignRemainder => Some(BinaryOp::Remainder),
        BinaryOp::AssignBitAnd => Some(BinaryOp::BitAnd),
        BinaryOp::AssignBitOr => Some(BinaryOp::BitOr),
        BinaryOp::AssignBitXor => Some(BinaryOp::BitXor),
        BinaryOp::AssignShiftLeft => Some(BinaryOp::ShiftLeft),
        BinaryOp::AssignShiftRight => Some(BinaryOp::ShiftRight),
        _ => None,
    }
}

/// Law: a compound assignment `x op= y` parses as `x = x base y`, where `base` is the operator
/// that computes what the compound assignment stores: `-=` subtracts, `+=` adds, `%=` takes the
/// remainder, and so on; an operator that is no compound assignment has no base.
pub proof fn law_compound_base_meaning(op: BinaryOp, x: i64, y: i64)
    ensures
        compound_base(op) is Some <==> compound_value(op, x, y) is Some,
        compound_base(op) matches Some(base) ==> c_binary_value(base, x, y) == compound_value(op, x, y),
{
}

/// The unary operator that a token type stands for, if any.
pub open spec fn unary_op_of(tt: TokenType) -> Option<UnaryOp> {
    match tt {
        TokenType::Minus => Some(UnaryOp::Negate),
        TokenType::Tilde => Some(UnaryOp::Complement),
        TokenType::LogicalNot => Some(UnaryOp::Not),
        _ => None,
    }
}

/// What the unary operator a token stands for computes: `-` the negation, `~` the bitwise
/// complement, `!` 1 exactly for zero. Other tokens stand for no unary operator.
pub open spec fn token_unary_value(tt: TokenType, a: i64) -> Option<int> {
    match tt {
        TokenType::Minus => Some(-a),
        TokenType::Tilde => Some((!a) as int),
        TokenType::LogicalNot => Some(truth(a == 0)),
        _ => None,
    }
}

/// Law: a prefix operator token parses as the unary operator that computes the same value,
/// and only those tokens parse as unary operators.
pub proof fn law_unary_token_meaning(tt: TokenType, a: i64)
    ensures
        unary_op_of(tt) is Some <==> token_unary_value(tt, a) is Some,
        unary_op_of(tt) matches Some(op) ==> token_unary_value(tt, a) == Some(c_unary_value(op, a)),
{
}

/// Whether `e` assigns to `x` the value of `x` moved by `step`: `x = x op 1` where `op` adds
/// `step` (1 for `++`, -1 for `--`), the result being the old value when `postfix`.
pub open spec fn steps_by(e: TExprView, x: TExprView, postfix: bool, step: int) -> bool {
    match e.e {
        ExprView::Assignment(target, rhs, pf) => *target == x && pf == postfix && match rhs.e {
            ExprView::Binary(op, l, one) => *l == x && one.e == ExprView::IntegerConstant(1)
                && forall|v: i64| #![trigger c_binary_value(op, v, 1)] c_binary_value(op, v, 1) == Some(v + step),
            _ => false,
        },
        _ => false,
    }
}

/// Law: `++x` and `--x` parse as an assignment that moves the operand up and down by one,
/// and so do `x++` and `x--`, marked as giving the old value.
pub proof fn law_increment_meaning(ts: Seq<Token>, p: int)
    ensures
        (0 <= p < ts.len() && parse_primary(ts, p) is Done && (ts[p].token_type == TokenType::IncrementPrefix
            || ts[p].token_type == TokenType::DecrementPrefix)) ==> (parse_factor(ts, p + 1) is Done && steps_by(
            parse_primary(ts, p)->Done_0,
            parse_factor(ts, p + 1)->Done_0,
            false,
            if ts[p].token_type == TokenType::IncrementPrefix { 1 } else { -1 },
        )),
        (parse_primary(ts, p) is Done && (at_type(ts, parse_primary(ts, p)->Done_1, TokenType::IncrementPostfix)
            || at_type(ts, parse_primary(ts, p)->Done_1, TokenType::DecrementPostfix))) ==> steps_by(
            parse_factor(ts, p)->Done_0,
            parse_primary(ts, p)->Done_0,
            true,
            if at_type(ts, parse_primary(ts, p)->Done_1, TokenType::IncrementPostfix) { 1 } else { -1 },
        ),
{
}

/// `x = x op 1`: what `++` and `--` stand for, before (`postfix` false) or after the operand.
pub open spec fn step_assignment(op: BinaryOp, x: TExprView, postfix: bool) -> TExprView {
    untyped(
        ExprView::Assignment(
            Box::new(x),
            Box::new(
                untyped(ExprView::Binary(op, Box::new(x), Box::new(untyped(ExprView::IntegerConstant(1))))),
            ),
            postfix,
        ),
    )
}

/// The expression that a binary operator builds from its operands (`then` is the middle
/// operand of `?:`); a compound assignment `a op= b` becomes `a = a op b`.
pub open spec fn combine(op: BinaryOp, left: TExprView, then: TExprView, right: TExprView) -> TExprView {
    if op == BinaryOp::Assign {
        untyped(ExprView::Assignment(Box::new(left), Box::new(right), false))
    } else if op == BinaryOp::Conditional {
        untyped(ExprView::Conditional(Box::new(left), Box::new(then), Box::new(right)))
    } else if let Some(base) = compound_base(op) {
        untyped(
            ExprView::Assignment(
                Box::new(left),
                Box::new(untyped(ExprView::Binary(base, Box::new(left), Box::new(right)))),
                false,
            ),
        )
    } else {
        untyped(ExprView::Binary(op, Box::new(left), Box::new(right)))
    }
}

/// The minimum precedence for the right operand of `op`.
pub open spec fn right_min(op: BinaryOp) -> int {
    if spec_associativity(op) == Associativity::Left {
        precedence(op) + 1
    } else {
        precedence(op)
    }
}

/// An expression from position `p` whose binary operators bind at least as tightly as `min`
/// (precedence climbing).
pub open spec fn parse_expr(ts: Seq<Token>, p: int, min: int) -> Parsed<TExprView>
    decreases ts.len() - p, 3nat,
{
    match parse_factor(ts, p) {
        Parsed::Fail(m) => Parsed::Fail(m),
        Parsed::Done(left, q) => if advances(ts, p, q) {
            parse_expr_rest(ts, q, min, left)
        } else {
            Parsed::Fail(Seq::empty())
        },
    }
}

/// The operators and right operands that follow `left` at position `q`.
pub open spec fn parse_expr_rest(ts: Seq<Token>, q: int, min: int, left: TExprView) -> Parsed<TExprView>
    decreases ts.len() - q, 1nat,
{
    if 0 <= q < ts.len() && binary_op_of(ts[q].token_type) is Some
        && precedence(binary_op_of(ts[q].token_type)->0) >= min {
        let op = binary_op_of(ts[q].token_type)->0;
        if op == BinaryOp::Conditional {
            match parse_expr(ts, q + 1, 0) {
                Parsed::Fail(m) => Parsed::Fail(m),
                Parsed::Done(then, r) => if !advances(ts, q, r) {
                    Parsed::Fail(Seq::empty())
                } else if !at_type(ts, r, TokenType::Colon) {
                    Parsed::Fail(expect_error(ts, r, TokenType::Colon))
                } else {
                    match parse_expr(ts, r + 1, right_min(op)) {
                        Parsed::Fail(m) => Parsed::Fail(m),
                        Parsed::Done(right, s) => if advances(ts, r, s) {
                            parse_expr_rest(ts, s, min, combine(op, left, then, right))
                        } else {
                            Parsed::Fail(Seq::empty())
                        },
                    }
                },
            }
        } else {
            match parse_expr(ts, q + 1, right_min(op)) {
                Parsed::Fail(m) => Parsed::Fail(m),
                Parsed::Done(right, s) => if advances(ts, q, s) {
                    parse_expr_rest(ts, s, min, combine(op, left, left, right))
                } else {
                    Parsed::Fail(Seq::empty())
                },
            }
        }
    } else {
        Parsed::Done(left, q)
    }
}

/// The operand at position `p` before any postfix `++` or `--`.
pub open spec fn parse_primary(ts: Seq<Token>, p: int) -> Parsed<TExprView>
    decreases ts.len() - p, 1nat,
{
    if !(0 <= p < ts.len()) {
        Parsed::Fail("Unexpected end of input"@)
    } else {
        let tok = ts[p];
        match tok.token_type {
            TokenType::IntegerConstant => match tok.value {
                Some(TokenValue::Integer(v)) => Parsed::Done(untyped(ExprView::IntegerConstant(v)), p + 1),
                _ => Parsed::Fail("Expected integer constant value"@),
            },
            TokenType::Identifier => if at_type(ts, p + 1, TokenType::LeftParen) {
                match parse_call_args(ts, p + 1) {
                    Parsed::Fail(m) => Parsed::Fail(m),
                    Parsed::Done(args, q) => Parsed::Done(untyped(ExprView::FuncCall(tok.lexeme@, args)), q),
                }
            } else {
                Parsed::Done(untyped(ExprView::Var(tok.lexeme@)), p + 1)
            },
            TokenType::Minus | TokenType::Tilde | TokenType::LogicalNot => match parse_factor(ts, p + 1) {
                Parsed::Fail(m) => Parsed::Fail(m),
                Parsed::Done(x, q) => Parsed::Done(
                    untyped(ExprView::Unary(unary_op_of(tok.token_type)->0, Box::new(x))),
                    q,
                ),
            },
            TokenType::IncrementPrefix | TokenType::DecrementPrefix => match parse_factor(ts, p + 1) {
                Parsed::Fail(m) => Parsed::Fail(m),
                Parsed::Done(x, q) => Parsed::Done(
                    step_assignment(
                        if tok.token_type == TokenType::IncrementPrefix { BinaryOp::Add } else { BinaryOp::Subtract },
                        x,
                        false,
                    ),
                    q,
                ),
            },
            TokenType::LeftParen => match parse_expr(ts, p + 1, 0) {
                Parsed::Fail(m) => Parsed::Fail(m),
                Parsed::Done(x, q) => if at_type(ts, q, TokenType::RightParen) {
                    Parsed::Done(x, q + 1)
                } else {
                    Parsed::Fail(expect_error(ts, q, TokenType::RightParen))
                },
            },
            _ => Parsed::Fail("Unexpected token "@ + token_text(tok)),
        }
    }
}

/// An operand: a primary expression, with at most one postfix `++` or `--` after it.
pub open spec fn parse_factor(ts: Seq<Token>, p: int) -> Parsed<TExprView>
    decreases ts.len() - p, 2nat,
{
    match parse_primary(ts, p) {
        Parsed::Fail(m) => Parsed::Fail(m),
        Parsed::Done(x, q) => if at_type(ts, q, TokenType::IncrementPostfix) {
            Parsed::Done(step_assignment(BinaryOp::Add, x, true), q + 1)
        } else if at_type(ts, q, TokenType::DecrementPostfix) {
            Parsed::Done(step_assignment(BinaryOp::Subtract, x, true), q + 1)
        } else {
            Parsed::Done(x, q)
        },
    }
}

/// The arguments of a call, from its opening parenthesis at `p`.
pub open spec fn parse_call_args(ts: Seq<Token>, p: int) -> Parsed<Seq<TExprView>>
    decreases ts.len() - p, 5nat,
{
    if !at_type(ts, p, TokenType::LeftParen) {
        Parsed::Fail(expect_error(ts, p, TokenType::LeftParen))
    } else {
        parse_args_rest(ts, p + 1, Seq::empty())
    }
}

/// The rest of an argument list from position `p`, after the arguments `acc`.
pub open spec fn parse_args_rest(ts: Seq<Token>, p: int, acc: Seq<TExprView>) -> Parsed<Seq<TExprView>>
    decreases ts.len() - p, 4nat,
{
    if !(0 <= p < ts.len()) {
        Parsed::Fail("Unexpected end of input in argument list"@)
    } else if ts[p].token_type == TokenType::RightParen {
        Parsed::Done(acc, p + 1)
    } else if ts[p].token_type == TokenType::Comma {
        if acc.len() == 0 {
            Parsed::Fail("Unexpected comma in argument list"@)
        } else {
            match parse_expr(ts, p + 1, 0) {
                Parsed::Fail(m) => Parsed::Fail(m),
                Parsed::Done(x, q) => if advances(ts, p, q) {
                    parse_args_rest(ts, q, acc.push(x))
                } else {
                    Parsed::Fail(Seq::empty())
                },
            }
        }
    } else {
        match parse_expr(ts, p, 0) {
            Parsed::Fail(m) => Parsed::Fail(m),
            Parsed::Done(x, q) => if advances(ts, p, q) {
                parse_args_rest(ts, q, acc.push(x))
            } else {
                Parsed::Fail(Seq::empty())
            },
        }
    }
}

/// The specifiers that a declaration starts with.
#[derive(Debug, Clone, Copy, PartialEq, Eq, Structural)]
pub struct Specifiers {
    pub has_int: bool,
    pub has_static: bool,
    pub has_extern: bool,
}

/// Whether a token type is a specifier: `int`, `static` or `extern`.
pub open spec fn is_specifier(tt: TokenType) -> bool {
    tt == TokenType::Int || tt == TokenType::Static || tt == TokenType::Extern
}

/// Whether `s` already holds the specifier `tt`.
pub open spec fn holds_specifier(s: Specifiers, tt: TokenType) -> bool {
    if tt == TokenType::Int {
        s.has_int
    } else if tt == TokenType::Static {
        s.has_static
    } else {
        s.has_extern
    }
}

/// `s` with the specifier `tt` added.
pub open spec fn add_specifier(s: Specifiers, tt: TokenType) -> Specifiers {
    if tt == TokenType::Int {
        Specifiers { has_int: true, ..s }
    } else if tt == TokenType::Static {
        Specifiers { has_static: true, ..s }
    } else {
        Specifiers { has_extern: true, ..s }
    }
}

/// How many specifiers `s` holds.
pub open spec fn specifier_count(s: Specifiers) -> int {
    (if s.has_int { 1int } else { 0 }) + (if s.has_static { 1int } else { 0 }) + (if s.has_extern { 1int } else { 0 })
}

/// The specifier tokens from position `p` on, after those in `seen`.
pub open spec fn parse_specifier_tokens(ts: Seq<Token>, p: int, seen: Specifiers) -> Parsed<Specifiers>
    decreases ts.len() - p,
{
    if 0 <= p < ts.len() && is_specifier(ts[p].token_type) {
        if holds_specifier(seen, ts[p].token_type) {
            Parsed::Fail("duplicate specifier "@ + ts[p].lexeme@)
        } else {
            parse_specifier_tokens(ts, p + 1, add_specifier(seen, ts[p].token_type))
        }
    } else {
        Parsed::Done(seen, p)
    }
}

/// What is wrong with a set of specifiers, if anything: one specifier must be `int`, two must
/// not be `static` and `extern`, and there must be one or two.
pub open spec fn specifiers_error(s: Specifiers) -> Option<Seq<char>> {
    if specifier_count(s) == 1 {
        if s.has_static || s.has_extern {
            Some("static or extern specifier cannot be specified without type"@)
        } else {
            None
        }
    } else if specifier_count(s) == 2 {
        if s.has_static && s.has_extern {
            Some("static specifier cannot be specified together with extern"@)
        } else {
            None
        }
    } else {
        Some("expected 1 or 2 specifiers"@)
    }
}

/// The specifiers of a declaration at position `p`.
pub open spec fn parse_specifiers(ts: Seq<Token>, p: int) -> Parsed<Specifiers> {
    match parse_specifier_tokens(ts, p, Specifiers { has_int: false, has_static: false, has_extern: false }) {
        Parsed::Fail(m) => Parsed::Fail(m),
        Parsed::Done(s, q) => match specifiers_error(s) {
            Some(m) => Parsed::Fail(m),
            None => Parsed::Done(s, q),
        },
    }
}

/// The storage class that a set of specifiers gives, `static` before `extern`.
pub open spec fn storage_of(s: Specifiers) -> Option<StorageClass> {
    if s.has_static {
        Some(StorageClass::Static)
    } else if s.has_extern {
        Some(StorageClass::Extern)
    } else {
        None
    }
}

/// `n` times the type `int`.
pub open spec fn int_types(n: nat) -> Seq<crate::ast::Type> {
    Seq::new(n, |i: int| crate::ast::Type::Int)
}

/// The type of a function that takes `n` ints and returns an int.
pub open spec fn int_function_type(n: nat) -> TypeView {
    TypeView::Function { ret: Box::new(TypeView::Int), params: crate::ast_view::types_view(int_types(n)) }
}

/// The rest of a variable declaration after its name: an optional `= expression` from
/// position `p`, then `;`.
pub open spec fn parse_var_rest(ts: Seq<Token>, p: int, name: Seq<char>, storage: Option<StorageClass>) -> Parsed<VarDeclView> {
    let init: Parsed<Option<TExprView>> = if at_type(ts, p, TokenType::Assign) {
        match parse_expr(ts, p + 1, 0) {
            Parsed::Fail(m) => Parsed::Fail(m),
            Parsed::Done(e, q) => Parsed::Done(Some(e), q),
        }
    } else {
        Parsed::Done(None, p)
    };
    match init {
        Parsed::Fail(m) => Parsed::Fail(m),
        Parsed::Done(i, q) => if at_type(ts, q, TokenType::Semicolon) {
            Parsed::Done(VarDeclView { name, init: i, storage, t: TypeView::Int }, q + 1)
        } else {
            Parsed::Fail(expect_error(ts, q, TokenType::Semicolon))
        },
    }
}

/// The parameter names of a function from position `p`, after the names `acc`; stops before
/// the closing parenthesis, or after `void`.
pub open spec fn parse_params(ts: Seq<Token>, p: int, acc: Seq<Seq<char>>) -> Parsed<Seq<Seq<char>>>
    decreases ts.len() - p,
{
    if !(0 <= p < ts.len()) {
        Parsed::Fail("Unexpected end of input in parameter list"@)
    } else {
        match ts[p].token_type {
            TokenType::Void => if acc.len() == 0 {
                Parsed::Done(acc, p + 1)
            } else {
                Parsed::Fail("Unexpected 'void' in parameter list"@)
            },
            TokenType::Int => if acc.len() != 0 {
                Parsed::Fail("Unexpected 'int' in parameter list"@)
            } else if !at_type(ts, p + 1, TokenType::Identifier) {
                Parsed::Fail(expect_error(ts, p + 1, TokenType::Identifier))
            } else {
                parse_params(ts, p + 2, acc.push(ts[p + 1].lexeme@))
            },
            TokenType::Comma => if acc.len() == 0 {
                Parsed::Fail("Unexpected ',' in parameter list"@)
            } else if !at_type(ts, p + 1, TokenType::Int) {
                Parsed::Fail(expect_error(ts, p + 1, TokenType::Int))
            } else if !at_type(ts, p + 2, TokenType::Identifier) {
                Parsed::Fail(expect_error(ts, p + 2, TokenType::Identifier))
            } else {
                parse_params(ts, p + 3, acc.push(ts[p + 2].lexeme@))
            },
            TokenType::RightParen => Parsed::Done(acc, p),
            _ => Parsed::Fail("Unexpected token "@ + token_text(ts[p]) + " in parameter list"@),
        }
    }
}

/// The label in front of a statement at position `p`, if there is one: `name:`, `case e:` or
/// `default:`.
pub open spec fn parse_label(ts: Seq<Token>, p: int) -> Parsed<Option<LabelView>> {
    if !(0 <= p < ts.len()) {
        Parsed::Done(None, p)
    } else {
        match ts[p].token_type {
            TokenType::Identifier => if at_type(ts, p + 1, TokenType::Colon) {
                Parsed::Done(Some(LabelView::Named(ts[p].lexeme@)), p + 2)
            } else {
                Parsed::Done(None, p)
            },
            TokenType::Case => match parse_expr(ts, p + 1, 0) {
                Parsed::Fail(m) => Parsed::Fail(m),
                Parsed::Done(e, q) => if at_type(ts, q, TokenType::Colon) {
                    Parsed::Done(Some(LabelView::Case(Seq::empty(), e)), q + 1)
                } else {
                    Parsed::Fail(expect_error(ts, q, TokenType::Colon))
                },
            },
            TokenType::Default => if at_type(ts, p + 1, TokenType::Colon) {
                Parsed::Done(Some(LabelView::Default(Seq::empty())), p + 2)
            } else {
                Parsed::Fail(expect_error(ts, p + 1, TokenType::Colon))
            },
            _ => Parsed::Done(None, p),
        }
    }
}

/// `keyword expression ;` at position `p`, where `keyword` is `return`.
pub open spec fn parse_return(ts: Seq<Token>, p: int) -> Parsed<StmtView> {
    if !at_type(ts, p, TokenType::Return) {
        Parsed::Fail(expect_error(ts, p, TokenType::Return))
    } else {
        match parse_expr(ts, p + 1, 0) {
            Parsed::Fail(m) => Parsed::Fail(m),
            Parsed::Done(e, q) => if at_type(ts, q, TokenType::Semicolon) {
                Parsed::Done(StmtView::Return(e), q + 1)
            } else {
                Parsed::Fail(expect_error(ts, q, TokenType::Semicolon))
            },
        }
    }
}

/// An expression followed by `;` at position `p`.
pub open spec fn parse_expression_statement(ts: Seq<Token>, p: int) -> Parsed<StmtView> {
    match parse_expr(ts, p, 0) {
        Parsed::Fail(m) => Parsed::Fail(m),
        Parsed::Done(e, q) => if at_type(ts, q, TokenType::Semicolon) {
            Parsed::Done(StmtView::Expression(e), q + 1)
        } else {
            Parsed::Fail(expect_error(ts, q, TokenType::Semicolon))
        },
    }
}

/// `keyword ;` at position `p`: `break` (`is_break`) or `continue`, with no loop id yet.
pub open spec fn parse_jump(ts: Seq<Token>, p: int, is_break: bool) -> Parsed<StmtView> {
    let kw = if is_break { TokenType::Break } else { TokenType::Continue };
    if !at_type(ts, p, kw) {
        Parsed::Fail(expect_error(ts, p, kw))
    } else if !at_type(ts, p + 1, TokenType::Semicolon) {
        Parsed::Fail(expect_error(ts, p + 1, TokenType::Semicolon))
    } else if is_break {
        Parsed::Done(StmtView::Break(Seq::empty()), p + 2)
    } else {
        Parsed::Done(StmtView::Continue(Seq::empty()), p + 2)
    }
}

/// `goto name ;` at position `p`.
pub open spec fn parse_goto(ts: Seq<Token>, p: int) -> Parsed<StmtView> {
    if !at_type(ts, p, TokenType::Goto) {
        Parsed::Fail(expect_error(ts, p, TokenType::Goto))
    } else if !at_type(ts, p + 1, TokenType::Identifier) {
        Parsed::Fail(expect_error(ts, p + 1, TokenType::Identifier))
    } else if !at_type(ts, p + 2, TokenType::Semicolon) {
        Parsed::Fail(expect_error(ts, p + 2, TokenType::Semicolon))
    } else {
        Parsed::Done(StmtView::Goto(ts[p + 1].lexeme@), p + 3)
    }
}

/// An optional expression from position `p` up to and including the terminator `term`.
pub open spec fn parse_optional_expr(ts: Seq<Token>, p: int, term: TokenType) -> Parsed<Option<TExprView>> {
    if !(0 <= p < ts.len()) {
        Parsed::Fail("Unexpected end of input in for-loop initializer"@)
    } else if ts[p].token_type == term {
        Parsed::Done(None, p + 1)
    } else {
        match parse_expr(ts, p, 0) {
            Parsed::Fail(m) => Parsed::Fail(m),
            Parsed::Done(e, q) => if at_type(ts, q, term) {
                Parsed::Done(Some(e), q + 1)
            } else {
                Parsed::Fail(expect_error(ts, q, term))
            },
        }
    }
}

/// The initializer of a `for` loop at position `p`, with its `;`.
pub open spec fn parse_for_init(ts: Seq<Token>, p: int) -> Parsed<ForInitView> {
    if !(0 <= p < ts.len()) {
        Parsed::Fail("Unexpected end of input in for-loop initializer"@)
    } else if ts[p].token_type == TokenType::Int {
        if !at_type(ts, p + 1, TokenType::Identifier) {
            Parsed::Fail(expect_error(ts, p + 1, TokenType::Identifier))
        } else {
            match parse_var_rest(ts, p + 2, ts[p + 1].lexeme@, None) {
                Parsed::Fail(m) => Parsed::Fail(m),
                Parsed::Done(v, q) => Parsed::Done(ForInitView::Decl(v), q),
            }
        }
    } else if ts[p].token_type == TokenType::Semicolon {
        Parsed::Done(ForInitView::Expr(None), p + 1)
    } else {
        match parse_expr(ts, p, 0) {
            Parsed::Fail(m) => Parsed::Fail(m),
            Parsed::Done(e, q) => if at_type(ts, q, TokenType::Semicolon) {
                Parsed::Done(ForInitView::Expr(Some(e)), q + 1)
            } else {
                Parsed::Fail(expect_error(ts, q, TokenType::Semicolon))
            },
        }
    }
}

/// `( expression )` at position `p`.
pub open spec fn parse_paren_expr(ts: Seq<Token>, p: int) -> Parsed<TExprView> {
    if !at_type(ts, p, TokenType::LeftParen) {
        Parsed::Fail(expect_error(ts, p, TokenType::LeftParen))
    } else {
        match parse_expr(ts, p + 1, 0) {
            Parsed::Fail(m) => Parsed::Fail(m),
            Parsed::Done(e, q) => if at_type(ts, q, TokenType::RightParen) {
                Parsed::Done(e, q + 1)
            } else {
                Parsed::Fail(expect_error(ts, q, TokenType::RightParen))
            },
        }
    }
}

/// A declaration at position `p`: specifiers, a name, then a function or a variable.
pub open spec fn parse_declaration(ts: Seq<Token>, p: int) -> Parsed<DeclView>
    decreases ts.len() - p, 3nat,
{
    match parse_specifiers(ts, p) {
        Parsed::Fail(m) => Parsed::Fail(m),
        Parsed::Done(s, q) => if !(p <= q) {
            Parsed::Fail(Seq::empty())
        } else if !at_type(ts, q, TokenType::Identifier) {
            Parsed::Fail(expect_error(ts, q, TokenType::Identifier))
        } else if !(q + 1 < ts.len()) {
            Parsed::Fail("Unexpected end of input after identifier"@)
        } else if ts[q + 1].token_type == TokenType::LeftParen {
            match parse_function_rest(ts, q + 1, ts[q].lexeme@, storage_of(s)) {
                Parsed::Fail(m) => Parsed::Fail(m),
                Parsed::Done(f, r) => Parsed::Done(DeclView::Func(f), r),
            }
        } else {
            match parse_var_rest(ts, q + 1, ts[q].lexeme@, storage_of(s)) {
                Parsed::Fail(m) => Parsed::Fail(m),
                Parsed::Done(v, r) => Parsed::Done(DeclView::Var(v), r),
            }
        }
    }
}

/// The rest of a function declaration from its opening parenthesis at `p`: the parameters,
/// then `;` or a body.
pub open spec fn parse_function_rest(ts: Seq<Token>, p: int, name: Seq<char>, storage: Option<StorageClass>) -> Parsed<FuncDeclView>
    decreases ts.len() - p, 2nat,
{
    if !at_type(ts, p, TokenType::LeftParen) {
        Parsed::Fail(expect_error(ts, p, TokenType::LeftParen))
    } else {
        match parse_params(ts, p + 1, Seq::empty()) {
            Parsed::Fail(m) => Parsed::Fail(m),
            Parsed::Done(params, q) => if !(p < q) {
                Parsed::Fail(Seq::empty())
            } else if !at_type(ts, q, TokenType::RightParen) {
                Parsed::Fail(expect_error(ts, q, TokenType::RightParen))
            } else if !(q + 1 < ts.len()) {
                Parsed::Fail("Unexpected end of input after function declaration"@)
            } else if ts[q + 1].token_type == TokenType::Semicolon {
                Parsed::Done(
                    FuncDeclView { name, params, body: None, storage, t: int_function_type(params.len()) },
                    q + 2,
                )
            } else {
                match parse_block(ts, q + 1) {
                    Parsed::Fail(m) => Parsed::Fail(m),
                    Parsed::Done(items, r) => Parsed::Done(
                        FuncDeclView { name, params, body: Some(items), storage, t: int_function_type(params.len()) },
                        r,
                    ),
                }
            }
        }
    }
}

/// A block `{ items }` at position `p`.
pub open spec fn parse_block(ts: Seq<Token>, p: int) -> Parsed<Seq<ItemView>>
    decreases ts.len() - p, 4nat,
{
    if !at_type(ts, p, TokenType::LeftBrace) {
        Parsed::Fail(expect_error(ts, p, TokenType::LeftBrace))
    } else {
        parse_items(ts, p + 1, Seq::empty())
    }
}

/// The items of a block from position `p` up to and including its `}`, after the items `acc`.
pub open spec fn parse_items(ts: Seq<Token>, p: int, acc: Seq<ItemView>) -> Parsed<Seq<ItemView>>
    decreases ts.len() - p, 8nat,
{
    if !(0 <= p < ts.len()) {
        Parsed::Fail(expect_error(ts, p, TokenType::RightBrace))
    } else if ts[p].token_type == TokenType::RightBrace {
        Parsed::Done(acc, p + 1)
    } else if is_specifier(ts[p].token_type) {
        match parse_declaration(ts, p) {
            Parsed::Fail(m) => Parsed::Fail(m),
            Parsed::Done(d, q) => if advances(ts, p, q) {
                parse_items(
                    ts,
                    q,
                    acc.push(
                        match d {
                            DeclView::Func(f) => ItemView::Func(f),
                            DeclView::Var(v) => ItemView::Var(v),
                        },
                    ),
                )
            } else {
                Parsed::Fail(Seq::empty())
            },
        }
    } else {
        match parse_statement(ts, p) {
            Parsed::Fail(m) => Parsed::Fail(m),
            Parsed::Done(st, q) => if advances(ts, p, q) {
                parse_items(ts, q, acc.push(ItemView::Stmt(st)))
            } else {
                Parsed::Fail(Seq::empty())
            },
        }
    }
}

/// A statement at position `p`, with the labels in front of it.
pub open spec fn parse_statement(ts: Seq<Token>, p: int) -> Parsed<StmtView>
    decreases ts.len() - p, 7nat,
{
    match parse_label(ts, p) {
        Parsed::Fail(m) => Parsed::Fail(m),
        Parsed::Done(Some(l), q) => if advances(ts, p, q) {
            match parse_statement(ts, q) {
                Parsed::Fail(m) => Parsed::Fail(m),
                Parsed::Done(st, r) => Parsed::Done(StmtView::Labeled(l, Box::new(st)), r),
            }
        } else {
            Parsed::Fail(Seq::empty())
        },
        Parsed::Done(None, _) => parse_unlabeled(ts, p),
    }
}

/// A statement without a label at position `p`, chosen by its first token.
pub open spec fn parse_unlabeled(ts: Seq<Token>, p: int) -> Parsed<StmtView>
    decreases ts.len() - p, 6nat,
{
    if !(0 <= p < ts.len()) {
        Parsed::Fail("Unexpected end of statement"@)
    } else {
        match ts[p].token_type {
            TokenType::Return => parse_return(ts, p),
            TokenType::Break => parse_jump(ts, p, true),
            TokenType::Continue => parse_jump(ts, p, false),
            TokenType::Semicolon => Parsed::Done(StmtView::Null, p + 1),
            TokenType::LeftBrace => match parse_block(ts, p) {
                Parsed::Fail(m) => Parsed::Fail(m),
                Parsed::Done(items, q) => Parsed::Done(StmtView::Compound(items), q),
            },
            TokenType::If => parse_if(ts, p),
            TokenType::Switch => parse_switch(ts, p),
            TokenType::While => parse_while(ts, p),
            TokenType::Do => parse_do_while(ts, p),
            TokenType::For => parse_for(ts, p),
            TokenType::Goto => parse_goto(ts, p),
            _ => parse_expression_statement(ts, p),
        }
    }
}

/// `if ( condition ) statement`, with an optional `else statement`, at position `p`.
pub open spec fn parse_if(ts: Seq<Token>, p: int) -> Parsed<StmtView>
    decreases ts.len() - p, 5nat,
{
    if !at_type(ts, p, TokenType::If) {
        Parsed::Fail(expect_error(ts, p, TokenType::If))
    } else {
        match parse_paren_expr(ts, p + 1) {
            Parsed::Fail(m) => Parsed::Fail(m),
            Parsed::Done(c, q) => if !advances(ts, p, q) {
                Parsed::Fail(Seq::empty())
            } else {
                match parse_statement(ts, q) {
                    Parsed::Fail(m) => Parsed::Fail(m),
                    Parsed::Done(then, r) => if !advances(ts, p, r) {
                        Parsed::Fail(Seq::empty())
                    } else if at_type(ts, r, TokenType::Else) {
                        match parse_statement(ts, r + 1) {
                            Parsed::Fail(m) => Parsed::Fail(m),
                            Parsed::Done(other, s) => Parsed::Done(
                                StmtView::If(c, Box::new(then), Some(Box::new(other))),
                                s,
                            ),
                        }
                    } else {
                        Parsed::Done(StmtView::If(c, Box::new(then), None), r)
                    },
                }
            },
        }
    }
}

/// `switch ( condition ) statement` at position `p`, with no id and no arms yet.
pub open spec fn parse_switch(ts: Seq<Token>, p: int) -> Parsed<StmtView>
    decreases ts.len() - p, 5nat,
{
    if !at_type(ts, p, TokenType::Switch) {
        Parsed::Fail(expect_error(ts, p, TokenType::Switch))
    } else {
        match parse_paren_expr(ts, p + 1) {
            Parsed::Fail(m) => Parsed::Fail(m),
            Parsed::Done(c, q) => if !advances(ts, p, q) {
                Parsed::Fail(Seq::empty())
            } else {
                match parse_statement(ts, q) {
                    Parsed::Fail(m) => Parsed::Fail(m),
                    Parsed::Done(body, r) => Parsed::Done(
                        StmtView::Switch(Seq::empty(), c, Box::new(body), Seq::empty()),
                        r,
                    ),
                }
            },
        }
    }
}

/// `while ( condition ) statement` at position `p`, with no loop id yet.
pub open spec fn parse_while(ts: Seq<Token>, p: int) -> Parsed<StmtView>
    decreases ts.len() - p, 5nat,
{
    if !at_type(ts, p, TokenType::While) {
        Parsed::Fail(expect_error(ts, p, TokenType::While))
    } else {
        match parse_paren_expr(ts, p + 1) {
            Parsed::Fail(m) => Parsed::Fail(m),
            Parsed::Done(c, q) => if !advances(ts, p, q) {
                Parsed::Fail(Seq::empty())
            } else {
                match parse_statement(ts, q) {
                    Parsed::Fail(m) => Parsed::Fail(m),
                    Parsed::Done(body, r) => Parsed::Done(StmtView::While(Seq::empty(), c, Box::new(body)), r),
                }
            },
        }
    }
}

/// `do statement while ( condition ) ;` at position `p`, with no loop id yet.
pub open spec fn parse_do_while(ts: Seq<Token>, p: int) -> Parsed<StmtView>
    decreases ts.len() - p, 5nat,
{
    if !at_type(ts, p, TokenType::Do) {
        Parsed::Fail(expect_error(ts, p, TokenType::Do))
    } else {
        match parse_statement(ts, p + 1) {
            Parsed::Fail(m) => Parsed::Fail(m),
            Parsed::Done(body, q) => if !at_type(ts, q, TokenType::While) {
                Parsed::Fail(expect_error(ts, q, TokenType::While))
            } else {
                match parse_paren_expr(ts, q + 1) {
                    Parsed::Fail(m) => Parsed::Fail(m),
                    Parsed::Done(c, r) => if at_type(ts, r, TokenType::Semicolon) {
                        Parsed::Done(StmtView::DoWhile(Seq::empty(), c, Box::new(body)), r + 1)
                    } else {
                        Parsed::Fail(expect_error(ts, r, TokenType::Semicolon))
                    },
                }
            },
        }
    }
}

/// `for ( init condition; post ) statement` at position `p`, with no loop id yet.
pub open spec fn parse_for(ts: Seq<Token>, p: int) -> Parsed<StmtView>
    decreases ts.len() - p, 5nat,
{
    if !at_type(ts, p, TokenType::For) {
        Parsed::Fail(expect_error(ts, p, TokenType::For))
    } else if !at_type(ts, p + 1, TokenType::LeftParen) {
        Parsed::Fail(expect_error(ts, p + 1, TokenType::LeftParen))
    } else {
        match parse_for_init(ts, p + 2) {
            Parsed::Fail(m) => Parsed::Fail(m),
            Parsed::Done(init, q) => match parse_optional_expr(ts, q, TokenType::Semicolon) {
                Parsed::Fail(m) => Parsed::Fail(m),
                Parsed::Done(c, r) => match parse_optional_expr(ts, r, TokenType::RightParen) {
                    Parsed::Fail(m) => Parsed::Fail(m),
                    Parsed::Done(post, s) => if !advances(ts, p, s) {
                        Parsed::Fail(Seq::empty())
                    } else {
                        match parse_statement(ts, s) {
                            Parsed::Fail(m) => Parsed::Fail(m),
                            Parsed::Done(body, t) => Parsed::Done(
                                StmtView::For(Seq::empty(), init, c, post, Box::new(body)),
                                t,
                            ),
                        }
                    },
                },
            },
        }
    }
}

/// The declarations of a program from position `p` to the end, after the declarations `acc`.
pub open spec fn parse_decls(ts: Seq<Token>, p: int, acc: Seq<DeclView>) -> Parsed<Seq<DeclView>>
    decreases ts.len() - p,
{
    if 0 <= p < ts.len() {
        match parse_declaration(ts, p) {
            Parsed::Fail(m) => Parsed::Fail(m),
            Parsed::Done(d, q) => if advances(ts, p, q) {
                parse_decls(ts, q, acc.push(d))
            } else {
                Parsed::Fail(Seq::empty())
            },
        }
    } else {
        Parsed::Done(acc, p)
    }
}

/// A whole program: its declarations, with no token left over.
pub open spec fn parse_program(ts: Seq<Token>) -> Parsed<Seq<DeclView>> {
    match parse_decls(ts, 0, Seq::empty()) {
        Parsed::Fail(m) => Parsed::Fail(m),
        Parsed::Done(ds, q) => if q < ts.len() {
            Parsed::Fail("Unexpected tokens after end of program"@)
        } else {
            Parsed::Done(ds, q)
        },
    }
}

} // verus!
