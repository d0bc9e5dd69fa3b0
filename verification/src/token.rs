use vstd::prelude::*;

verus! {

broadcast use vstd::std_specs::vec::group_vec_axioms;

#[derive(Debug, Clone, Copy, PartialEq, Eq, Structural)]
pub enum TokenType {
    Whitespace,
    LineComment,
    Identifier,
    IntegerConstant,
    LongConstant,
    UnsignedIntegerConstant,
    UnsignedLongConstant,
    DoubleConstant,
    Int,
    Long,
    Void,
    Return,
    Static,
    Extern,
    Signed,
    Unsigned,
    Double,
    LeftParen,
    RightParen,
    LeftBrace,
    RightBrace,
    Comma,
    Semicolon,
    Minus,
    Tilde,
    Plus,
    Asterisk,
    Slash,
    Percent,
    BitAnd,
    BitOr,
    BitXor,
    ShiftLeft,
    ShiftRight,
    LogicalAnd,
    LogicalOr,
    LogicalNot,
    Equal,
    NotEqual,
    Less,
    LessEqual,
    Greater,
    GreaterEqual,
    Assign,
    AssignAdd,
    AssignSub,
    AssignMul,
    AssignDiv,
    AssignRemainder,
    AssignBitAnd,
    AssignBitOr,
    AssignBitXor,
    AssignShiftLeft,
    AssignShiftRight,
    IncrementPrefix,
    IncrementPostfix,
    DecrementPrefix,
    DecrementPostfix,
    If,
    Else,
    QuestionMark,
    Colon,
    Goto,
    Do,
    While,
    For,
    Break,
    Continue,
    Switch,
    Case,
    Default,
}

#[derive(Debug, Clone, Copy, PartialEq, Eq, Structural)]
pub enum TokenValue {
    Integer(i32),
    Long(i64),
    UnsignedInteger(u32),
    UnsignedLong(u64),
}

/// A token with its text and where it starts in the source.
#[derive(Debug)]
pub struct Token {
    pub token_type: TokenType,
    pub value: Option<TokenValue>,
    pub lexeme: String,
    pub line: usize,
    pub column: usize,
}

impl Token {
    pub fn new(token_type: TokenType, value: Option<TokenValue>, lexeme: String, line: usize, column: usize) -> (t: Token)
        ensures
            t == (Token { token_type, value, lexeme, line, column }),
    {
        Token { token_type, value, lexeme, line, column }
    }

    /// A copy of this token.
    pub fn duplicate(&self) -> (t: Token)
        ensures
            t == *self,
    {
        Token {
            token_type: self.token_type,
            value: self.value,
            lexeme: self.lexeme.clone(),
            line: self.line,
            column: self.column,
        }
    }
}

/// A sequence of tokens with a reading position.
pub struct TokenStream {
    tokens: Vec<Token>,
    position: usize,
}

impl TokenStream {
    /// The tokens of the stream.
    pub closed spec fn tokens(&self) -> Seq<Token> {
        self.tokens@
    }

    /// The index of the next token.
    pub closed spec fn position(&self) -> nat {
        self.position as nat
    }

    pub fn new(tokens: Vec<Token>) -> (s: TokenStream)
        ensures
            s.tokens() == tokens@,
            s.position() == 0,
    {
        TokenStream { tokens, position: 0 }
    }

    /// Whether a token is left.
    pub fn has_next(&self) -> (r: bool)
        ensures
            r == (self.position() < self.tokens().len()),
    {
        self.position < self.tokens.len()
    }

    /// The next token, if any, without consuming it.
    pub fn peek(&self) -> (r: Option<&Token>)
        ensures
            r == (if self.position() < self.tokens().len() {
                Some(&self.tokens()[self.position() as int])
            } else {
                None
            }),
    {
        if self.position < self.tokens.len() {
            Some(&self.tokens[self.position])
        } else {
            None
        }
    }

    /// Up to `n` next tokens, without consuming them.
    pub fn peek_next_n(&self, n: usize) -> (r: Vec<&Token>)
        ensures
            r@.len() == (if self.position() + n <= self.tokens().len() {
                n as int
            } else if self.position() <= self.tokens().len() {
                self.tokens().len() - self.position()
            } else {
                0
            }),
            forall|i: int| 0 <= i < r@.len() ==> r@[i] == &self.tokens()[self.position() + i],
    {
        let mut ret: Vec<&Token> = Vec::new();
        let mut i: usize = 0;
        while i < n && self.position < self.tokens.len() && i < self.tokens.len() - self.position
            invariant
                i <= n,
                ret@.len() == i,
                i == 0 || self.position() + i <= self.tokens().len(),
                forall|k: int| 0 <= k < i ==> ret@[k] == &self.tokens()[self.position() + k],
            decreases n - i,
        {
            ret.push(&self.tokens[self.position + i]);
            i = i + 1;
        }
        ret
    }

    /// The token `offset` places after the next one, if any.
    pub fn peek_with_offset(&self, offset: usize) -> (r: Option<&Token>)
        ensures
            r == (if self.position() + offset < self.tokens().len() {
                Some(&self.tokens()[self.position() + offset])
            } else {
                None
            }),
    {
        if self.position < self.tokens.len() && offset < self.tokens.len() - self.position {
            Some(&self.tokens[self.position + offset])
        } else {
            None
        }
    }

    /// Consumes the next token and gives it back, if there was one; the position moves on
    /// in any case.
    pub fn advance(&mut self) -> (r: Option<Token>)
        requires
            old(self).position() < usize::MAX,
        ensures
            final(self).tokens() == old(self).tokens(),
            final(self).position() == old(self).position() + 1,
            r == (if old(self).position() < old(self).tokens().len() {
                Some(old(self).tokens()[old(self).position() as int])
            } else {
                None
            }),
    {
        let result = if self.position < self.tokens.len() {
            Some(self.tokens[self.position].duplicate())
        } else {
            None
        };
        self.position = self.position + 1;
        result
    }
}

} // verus!
