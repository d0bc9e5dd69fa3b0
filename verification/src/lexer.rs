use vstd::prelude::*;

use crate::common::symbol_table_generic::SymbolTable;
use crate::token::{Token, TokenType, TokenValue};
use crate::util::{append_decimal, append_str, is_digit, push_char, string_of};

verus! {

broadcast use vstd::std_specs::vec::group_vec_axioms;

/// What a regular expression of the `fancy_regex` crate finds in a text: the byte offset at
/// which its first match starts and the matched text; nothing when the pattern does not
/// compile, nothing matches, or the search gives up.
pub uninterp spec fn regex_find(pattern: Seq<char>, text: Seq<char>) -> Option<(nat, Seq<char>)>;

/// The first match of `pattern` in `text`, as `fancy_regex::Regex::new` followed by
/// `Regex::find` gives it: its start offset and its text. The contract names the result and
/// states what `Match::as_str` shows: a match that starts at offset 0 is a prefix of the text.
/// Nothing is stated of which text a pattern matches.
#[verifier::external_body]
fn find_first(pattern: &str, text: &str) -> (r: Option<(usize, String)>)
    ensures
        match r {
            Some((s, m)) => regex_find(pattern@, text@) == Some((s as nat, m@)),
            None => regex_find(pattern@, text@) is None,
        },
        match r {
            Some((s, m)) => m@.len() <= text@.len() && (s == 0 ==> text@.subrange(0, m@.len() as int) == m@),
            None => true,
        },
{
    match fancy_regex::Regex::new(pattern) {
        Ok(re) => match re.find(text) {
            Ok(Some(m)) => Some((m.start(), m.as_str().to_string())),
            _ => None,
        },
        Err(_) => None,
    }
}

/// How a rule turns its match into a token: a fixed token type, or a number constant.
#[derive(Debug, Clone, Copy, PartialEq, Eq, Structural)]
pub enum Derivation {
    Fixed(TokenType),
    Number,
}

/// A rule of the lexer as data: its anchored pattern, how it makes a token, and whether the
/// token is dropped (whitespace, comments).
pub struct RuleView {
    pub pattern: Seq<char>,
    pub derivation: Derivation,
    pub skip: bool,
}

/// The patterns of the kinds of number constants, each with the token type it stands for.
pub open spec fn number_patterns() -> Seq<(Seq<char>, TokenType)> {
    seq![
        ("^\\d+"@, TokenType::IntegerConstant),
        ("\\d+[uU]"@, TokenType::UnsignedIntegerConstant),
        ("\\d+[lL]"@, TokenType::LongConstant),
        ("\\d+([uU][lL]|[lL][uU])"@, TokenType::UnsignedLongConstant),
        ("((\\d*\\.\\d+|\\d+\\.?)[eE][+-]?\\d+|\\d*\\.\\d+|\\d+\\.)"@, TokenType::DoubleConstant),
    ]
}

/// The pattern that matches a whole number constant: any of the number patterns, not followed
/// by a word character or a dot.
pub open spec fn number_pattern() -> Seq<char> {
    "^(^\\d+|\\d+[uU]|\\d+[lL]|\\d+([uU][lL]|[lL][uU])|((\\d*\\.\\d+|\\d+\\.?)[eE][+-]?\\d+|\\d*\\.\\d+|\\d+\\.))(?![\\w\\.])"@
}

/// The rules of the lexer, in the order in which they are tried.
pub open spec fn lexer_rules() -> Seq<RuleView> {
    seq![
        RuleView { pattern: "^\\s+"@, derivation: Derivation::Fixed(TokenType::Whitespace), skip: true },
        RuleView { pattern: "^//.*"@, derivation: Derivation::Fixed(TokenType::LineComment), skip: true },
        RuleView { pattern: number_pattern(), derivation: Derivation::Number, skip: false },
        RuleView { pattern: "^[a-zA-Z_][a-zA-Z0-9_]*\\b"@, derivation: Derivation::Fixed(TokenType::Identifier), skip: false },
        RuleView { pattern: "^\\("@, derivation: Derivation::Fixed(TokenType::LeftParen), skip: false },
        RuleView { pattern: "^\\)"@, derivation: Derivation::Fixed(TokenType::RightParen), skip: false },
        RuleView { pattern: "^\\{"@, derivation: Derivation::Fixed(TokenType::LeftBrace), skip: false },
        RuleView { pattern: "^\\}"@, derivation: Derivation::Fixed(TokenType::RightBrace), skip: false },
        RuleView { pattern: "^,"@, derivation: Derivation::Fixed(TokenType::Comma), skip: false },
        RuleView { pattern: "^;"@, derivation: Derivation::Fixed(TokenType::Semicolon), skip: false },
        RuleView { pattern: "^\\-"@, derivation: Derivation::Fixed(TokenType::Minus), skip: false },
        RuleView { pattern: "^~"@, derivation: Derivation::Fixed(TokenType::Tilde), skip: false },
        RuleView { pattern: "^\\+"@, derivation: Derivation::Fixed(TokenType::Plus), skip: false },
        RuleView { pattern: "^\\*"@, derivation: Derivation::Fixed(TokenType::Asterisk), skip: false },
        RuleView { pattern: "^/"@, derivation: Derivation::Fixed(TokenType::Slash), skip: false },
        RuleView { pattern: "^%"@, derivation: Derivation::Fixed(TokenType::Percent), skip: false },
        RuleView { pattern: "^&"@, derivation: Derivation::Fixed(TokenType::BitAnd), skip: false },
        RuleView { pattern: "^\\|"@, derivation: Derivation::Fixed(TokenType::BitOr), skip: false },
        RuleView { pattern: "^\\^"@, derivation: Derivation::Fixed(TokenType::BitXor), skip: false },
        RuleView { pattern: "^<<"@, derivation: Derivation::Fixed(TokenType::ShiftLeft), skip: false },
        RuleView { pattern: "^>>"@, derivation: Derivation::Fixed(TokenType::ShiftRight), skip: false },
        RuleView { pattern: "^&&"@, derivation: Derivation::Fixed(TokenType::LogicalAnd), skip: false },
        RuleView { pattern: "^\\|\\|"@, derivation: Derivation::Fixed(TokenType::LogicalOr), skip: false },
        RuleView { pattern: "^!"@, derivation: Derivation::Fixed(TokenType::LogicalNot), skip: false },
        RuleView { pattern: "^=="@, derivation: Derivation::Fixed(TokenType::Equal), skip: false },
        RuleView { pattern: "^!="@, derivation: Derivation::Fixed(TokenType::NotEqual), skip: false },
        RuleView { pattern: "^>="@, derivation: Derivation::Fixed(TokenType::GreaterEqual), skip: false },
        RuleView { pattern: "^>"@, derivation: Derivation::Fixed(TokenType::Greater), skip: false },
        RuleView { pattern: "^<"@, derivation: Derivation::Fixed(TokenType::Less), skip: false },
        RuleView { pattern: "^<="@, derivation: Derivation::Fixed(TokenType::LessEqual), skip: false },
        RuleView { pattern: "^="@, derivation: Derivation::Fixed(TokenType::Assign), skip: false },
        RuleView { pattern: "^\\+="@, derivation: Derivation::Fixed(TokenType::AssignAdd), skip: false },
        RuleView { pattern: "^\\-="@, derivation: Derivation::Fixed(TokenType::AssignSub), skip: false },
        RuleView { pattern: "^\\*="@, derivation: Derivation::Fixed(TokenType::AssignMul), skip: false },
        RuleView { pattern: "^/="@, derivation: Derivation::Fixed(TokenType::AssignDiv), skip: false },
        RuleView { pattern: "^%="@, derivation: Derivation::Fixed(TokenType::AssignRemainder), skip: false },
        RuleView { pattern: "^&="@, derivation: Derivation::Fixed(TokenType::AssignBitAnd), skip: false },
        RuleView { pattern: "^\\|="@, derivation: Derivation::Fixed(TokenType::AssignBitOr), skip: false },
        RuleView { pattern: "^\\^="@, derivation: Derivation::Fixed(TokenType::AssignBitXor), skip: false },
        RuleView { pattern: "^<<="@, derivation: Derivation::Fixed(TokenType::AssignShiftLeft), skip: false },
        RuleView { pattern: "^>>="@, derivation: Derivation::Fixed(TokenType::AssignShiftRight), skip: false },
        RuleView { pattern: "^\\+\\+(?=[\\w\\(])"@, derivation: Derivation::Fixed(TokenType::IncrementPrefix), skip: false },
        RuleView { pattern: "^\\+\\+(?![\\w\\(])"@, derivation: Derivation::Fixed(TokenType::IncrementPostfix), skip: false },
        RuleView { pattern: "^\\-\\-(?=[\\w\\(])"@, derivation: Derivation::Fixed(TokenType::DecrementPrefix), skip: false },
        RuleView { pattern: "^\\-\\-(?![\\w\\(])"@, derivation: Derivation::Fixed(TokenType::DecrementPostfix), skip: false },
        RuleView { pattern: "^\\?"@, derivation: Derivation::Fixed(TokenType::QuestionMark), skip: false },
        RuleView { pattern: "^:"@, derivation: Derivation::Fixed(TokenType::Colon), skip: false }
    ]
}

/// The keywords, each with its token type.
pub open spec fn keyword_map() -> Map<Seq<char>, TokenType> {
    Map::<Seq<char>, TokenType>::empty().insert("int"@, TokenType::Int).insert("long"@, TokenType::Long).insert("signed"@, TokenType::Signed).insert("unsigned"@, TokenType::Unsigned).insert("double"@, TokenType::Double).insert("void"@, TokenType::Void).insert("return"@, TokenType::Return).insert("if"@, TokenType::If).insert("else"@, TokenType::Else).insert("goto"@, TokenType::Goto).insert("do"@, TokenType::Do).insert("while"@, TokenType::While).insert("for"@, TokenType::For).insert("break"@, TokenType::Break).insert("continue"@, TokenType::Continue).insert("switch"@, TokenType::Switch).insert("case"@, TokenType::Case).insert("default"@, TokenType::Default).insert("static"@, TokenType::Static).insert("extern"@, TokenType::Extern)
}

/// The value of a text made only of ASCII decimal digits; nothing for any other text.
pub open spec fn digits_value(s: Seq<char>) -> Option<nat>
    decreases s.len(),
{
    if s.len() == 0 {
        None
    } else if !is_digit(s.last()) {
        None
    } else if s.len() == 1 {
        Some((s.last() as nat - '0' as nat) as nat)
    } else {
        match digits_value(s.drop_last()) {
            Some(v) => Some(v * 10 + (s.last() as nat - '0' as nat) as nat),
            None => None,
        }
    }
}

/// Whether `s` is the decimal notation of a number of at most `max`.
pub open spec fn fits(s: Seq<char>, max: nat) -> bool {
    digits_value(s) matches Some(v) && v <= max
}

/// The kind of number constant whose pattern matches the longest part of `lexeme` (the first
/// such kind when two match equally long).
pub open spec fn number_kind_from(lexeme: Seq<char>, i: nat, best_len: nat, best: Option<TokenType>) -> Option<TokenType>
    decreases 5 - i,
{
    if i >= 5 {
        best
    } else {
        match regex_find(number_patterns()[i as int].0, lexeme) {
            Some((_, m)) => if m.len() > best_len {
                number_kind_from(lexeme, i + 1, m.len(), Some(number_patterns()[i as int].1))
            } else {
                number_kind_from(lexeme, i + 1, best_len, best)
            },
            None => number_kind_from(lexeme, i + 1, best_len, best),
        }
    }
}

pub open spec fn check_unsigned_long(s: Seq<char>) -> Option<TokenType> {
    if fits(s, u64::MAX as nat) { Some(TokenType::UnsignedLongConstant) } else { None }
}

pub open spec fn check_long(s: Seq<char>) -> Option<TokenType> {
    if fits(s, i64::MAX as nat) { Some(TokenType::LongConstant) } else { check_unsigned_long(s) }
}

pub open spec fn check_unsigned(s: Seq<char>) -> Option<TokenType> {
    if fits(s, u32::MAX as nat) { Some(TokenType::UnsignedIntegerConstant) } else { check_long(s) }
}

/// The type of a number constant of the given kind: a constant too large for its kind becomes
/// the next wider kind (int, unsigned int, long, unsigned long); nothing if none holds it.
pub open spec fn number_type(lexeme: Seq<char>, kind: TokenType) -> Option<TokenType> {
    match kind {
        TokenType::IntegerConstant => if fits(lexeme, i32::MAX as nat) {
            Some(TokenType::IntegerConstant)
        } else {
            check_unsigned(lexeme)
        },
        TokenType::UnsignedIntegerConstant => if lexeme.len() == 0 {
            None
        } else {
            check_unsigned(lexeme.drop_last())
        },
        TokenType::LongConstant => if lexeme.len() == 0 {
            None
        } else {
            check_long(lexeme.drop_last())
        },
        TokenType::UnsignedLongConstant => if lexeme.len() < 2 {
            None
        } else {
            check_unsigned_long(lexeme.subrange(0, lexeme.len() - 2))
        },
        _ => Some(kind),
    }
}

/// Whether a character is a suffix letter of an integer constant.
pub open spec fn is_suffix(c: char) -> bool {
    c == 'u' || c == 'U' || c == 'l' || c == 'L'
}

/// A constant's text without its suffix letters.
pub open spec fn trim_suffix(s: Seq<char>) -> Seq<char>
    decreases s.len(),
{
    if s.len() > 0 && is_suffix(s.last()) {
        trim_suffix(s.drop_last())
    } else {
        s
    }
}

/// Whether every character of a floating-point constant's text is an ASCII digit, a dot, an
/// exponent letter or a sign (the texts that the double pattern matches and that parse).
pub open spec fn double_text(s: Seq<char>) -> bool {
    forall|i: int| 0 <= i < s.len() ==> is_digit(#[trigger] s[i]) || s[i] == '.' || s[i] == 'e' || s[i] == 'E'
        || s[i] == '+' || s[i] == '-'
}

/// The value of a number constant of the given type from its text without suffix: `Some(v)`
/// with the token's value (none for a floating-point constant, whose value is not held), or
/// nothing when the text does not parse.
pub open spec fn number_value(tt: TokenType, s: Seq<char>) -> Option<Option<TokenValue>> {
    match tt {
        TokenType::IntegerConstant => match digits_value(s) {
            Some(v) => if v <= i32::MAX { Some(Some(TokenValue::Integer(v as i32))) } else { None },
            None => None,
        },
        TokenType::UnsignedIntegerConstant => match digits_value(s) {
            Some(v) => if v <= u32::MAX { Some(Some(TokenValue::UnsignedInteger(v as u32))) } else { None },
            None => None,
        },
        TokenType::LongConstant => match digits_value(s) {
            Some(v) => if v <= i64::MAX { Some(Some(TokenValue::Long(v as i64))) } else { None },
            None => None,
        },
        TokenType::UnsignedLongConstant => match digits_value(s) {
            Some(v) => if v <= u64::MAX { Some(Some(TokenValue::UnsignedLong(v as u64))) } else { None },
            None => None,
        },
        TokenType::DoubleConstant => if double_text(s) { Some(None) } else { None },
        _ => None,
    }
}

/// The token type and value a rule derives from its match, or nothing when it cannot.
pub open spec fn derive(d: Derivation, m: Seq<char>) -> Option<(TokenType, Option<TokenValue>)> {
    match d {
        Derivation::Fixed(tt) => Some((tt, None)),
        Derivation::Number => match number_kind_from(m, 0, 0, None) {
            None => None,
            Some(kind) => match number_type(m, kind) {
                None => None,
                Some(tt) => match number_value(tt, trim_suffix(m)) {
                    None => None,
                    Some(v) => Some((tt, v)),
                },
            },
        },
    }
}

/// The token that the lexer takes from the start of a text.
pub struct Found {
    pub token_type: TokenType,
    pub lexeme: Seq<char>,
    pub skip: bool,
    pub value: Option<TokenValue>,
}

/// The longest match at the start of `text` among the rules from `i` on, after the best so
/// far: a rule counts when it matches a non-empty prefix strictly longer than the best and
/// derives a token from it.
pub open spec fn best_from(rules: Seq<RuleView>, text: Seq<char>, i: nat, best: Option<Found>) -> Option<Found>
    decreases rules.len() - i,
{
    if i >= rules.len() {
        best
    } else {
        let r = rules[i as int];
        let next = match regex_find(r.pattern, text) {
            Some((start, m)) => if start == 0 && m.len() > 0 && (best is None || m.len() > best->0.lexeme.len()) {
                match derive(r.derivation, m) {
                    Some((tt, v)) => Some(Found { token_type: tt, lexeme: m, skip: r.skip, value: v }),
                    None => best,
                }
            } else {
                best
            },
            None => best,
        };
        best_from(rules, text, i + 1, next)
    }
}

/// The line and column after `s`, starting at `line` and `column`.
pub open spec fn advance(s: Seq<char>, line: nat, column: nat) -> (nat, nat)
    decreases s.len(),
{
    if s.len() == 0 {
        (line, column)
    } else {
        let (l, c) = advance(s.drop_last(), line, column);
        if s.last() == '\n' { (l + 1, 1) } else { (l, c + 1) }
    }
}

/// The first index from `i` on at which `*/` starts.
pub open spec fn comment_end(s: Seq<char>, i: nat) -> Option<nat>
    decreases s.len() - i,
{
    if i + 1 >= s.len() {
        None
    } else if s[i as int] == '*' && s[i + 1 as int] == '/' {
        Some(i)
    } else {
        comment_end(s, i + 1)
    }
}

/// The text after a leading block comment, with the position after it; a comment without
/// its end runs to the end of the text.
pub open spec fn strip_comment(rest: Seq<char>, line: nat, column: nat) -> (Seq<char>, nat, nat) {
    if rest.len() >= 2 && rest[0] == '/' && rest[1] == '*' {
        match comment_end(rest, 0) {
            Some(e) => {
                let (l, c) = advance(rest.subrange(0, e + 2 as int), line, column);
                (rest.subrange(e + 2 as int, rest.len() as int), l, c)
            },
            None => {
                let (l, c) = advance(rest, line, column);
                (Seq::empty(), l, c)
            },
        }
    } else {
        (rest, line, column)
    }
}

/// A token as plain values.
pub struct TokenView {
    pub token_type: TokenType,
    pub value: Option<TokenValue>,
    pub lexeme: Seq<char>,
    pub line: nat,
    pub column: nat,
}

/// The view of a token.
pub open spec fn token_view(t: Token) -> TokenView {
    TokenView { token_type: t.token_type, value: t.value, lexeme: t.lexeme@, line: t.line as nat, column: t.column as nat }
}

/// The tokens of `rest`, which starts at `line` and `column`, after the tokens `acc`: at each
/// step a leading block comment is dropped, then the best rule takes a token; skipped tokens
/// are dropped and identifiers that are keywords get the keyword's type.
pub open spec fn scan_from(rest: Seq<char>, line: nat, column: nat, acc: Seq<TokenView>) -> Result<Seq<TokenView>, Seq<char>>
    decreases rest.len(),
{
    if rest.len() == 0 {
        Ok(acc)
    } else {
        let (r2, l2, c2) = strip_comment(rest, line, column);
        if r2.len() == 0 {
            Ok(acc)
        } else if r2.len() > rest.len() {
            Err(Seq::empty())
        } else {
            match best_from(lexer_rules(), r2, 0, None) {
                None => Err("Unexpected token at line "@ + crate::util::decimal(l2) + ", column "@
                    + crate::util::decimal(c2) + ": '"@ + seq![r2[0]] + "'"@),
                Some(found) => if !(0 < found.lexeme.len() <= r2.len()) {
                    Err(Seq::empty())
                } else {
                    let (l3, c3) = advance(found.lexeme, l2, c2);
                    let tt = if found.token_type == TokenType::Identifier && keyword_map().contains_key(found.lexeme) {
                        keyword_map()[found.lexeme]
                    } else {
                        found.token_type
                    };
                    let acc2 = if found.skip {
                        acc
                    } else {
                        acc.push(TokenView { token_type: tt, value: found.value, lexeme: found.lexeme, line: l2, column: c2 })
                    };
                    scan_from(r2.subrange(found.lexeme.len() as int, r2.len() as int), l3, c3, acc2)
                },
            }
        }
    }
}

/// The tokens of a source text, from line 1, column 1.
pub open spec fn scan(code: Seq<char>) -> Result<Seq<TokenView>, Seq<char>> {
    scan_from(code, 1, 1, Seq::empty())
}

/// A prefix of a decimal notation is a decimal notation of a value no larger.
proof fn lemma_digits_prefix(s: Seq<char>, j: int)
    requires
        1 <= j <= s.len(),
        digits_value(s) is Some,
    ensures
        digits_value(s.subrange(0, j)) is Some,
        digits_value(s.subrange(0, j))->0 <= digits_value(s)->0,
    decreases s.len(),
{
    if j == s.len() {
        assert(s.subrange(0, j) =~= s);
    } else {
        let t = s.drop_last();
        assert(t.subrange(0, j) =~= s.subrange(0, j));
        lemma_digits_prefix(t, j);
    }
}

/// A text with a character that is not a decimal digit has no decimal value.
proof fn lemma_digits_not_digit(s: Seq<char>, j: int)
    requires
        0 <= j < s.len(),
        !is_digit(s[j]),
    ensures
        digits_value(s) is None,
{
    if digits_value(s) is Some {
        lemma_digits_prefix(s, j + 1);
        let p = s.subrange(0, j + 1);
        assert(p.last() == s[j]);
    }
}

/// The value of a text of ASCII digits, if it fits in a `u64`.
fn parse_digits(s: &str) -> (r: Option<u64>)
    ensures
        r == (match digits_value(s@) {
            Some(v) => if v <= u64::MAX { Some(v as u64) } else { None },
            None => None,
        }),
{
    let n = s.unicode_len();
    if n == 0 {
        return None;
    }
    let mut value: u64 = 0;
    let mut i: usize = 0;
    while i < n
        invariant
            n == s@.len(),
            i <= n,
            i == 0 ==> value == 0,
            i > 0 ==> digits_value(s@.subrange(0, i as int)) == Some(value as nat),
        decreases n - i,
    {
        let c = s.get_char(i);
        if !('0' <= c && c <= '9') {
            proof {
                lemma_digits_not_digit(s@, i as int);
            }
            return None;
        }
        let d: u64 = (c as u32 - '0' as u32) as u64;
        let ghost p = s@.subrange(0, i as int + 1);
        assert(p.drop_last() =~= s@.subrange(0, i as int));
        assert(p.last() == c);
        if value > (u64::MAX - d) / 10 {
            proof {
                assert(value * 10 + d > u64::MAX) by (nonlinear_arith)
                    requires
                        value > (u64::MAX - d) / 10,
                        d <= 9,
                ;
                if digits_value(s@) is Some {
                    lemma_digits_prefix(s@, i as int + 1);
                }
            }
            return None;
        }
        proof {
            assert(value * 10 + d <= u64::MAX) by (nonlinear_arith)
                requires
                    value <= (u64::MAX - d) / 10,
                    d <= 9,
            ;
        }
        value = value * 10 + d;
        i = i + 1;
    }
    assert(s@.subrange(0, n as int) =~= s@);
    Some(value)
}

/// Whether `s` is the decimal notation of a number of at most `max`.
fn fits_in(s: &str, max: u64) -> (r: bool)
    ensures
        r == fits(s@, max as nat),
{
    match parse_digits(s) {
        Some(v) => v <= max,
        None => false,
    }
}

fn check_unsigned_long_type(s: &str) -> (r: Option<TokenType>)
    ensures
        r == check_unsigned_long(s@),
{
    if fits_in(s, u64::MAX) { Some(TokenType::UnsignedLongConstant) } else { None }
}

fn check_long_type(s: &str) -> (r: Option<TokenType>)
    ensures
        r == check_long(s@),
{
    if fits_in(s, i64::MAX as u64) { Some(TokenType::LongConstant) } else { check_unsigned_long_type(s) }
}

fn check_unsigned_type(s: &str) -> (r: Option<TokenType>)
    ensures
        r == check_unsigned(s@),
{
    if fits_in(s, u32::MAX as u64) { Some(TokenType::UnsignedIntegerConstant) } else { check_long_type(s) }
}

/// The pattern of the `i`th kind of number constant, with its token type.
fn number_pattern_at(i: usize) -> (r: (&'static str, TokenType))
    requires
        i < 5,
    ensures
        r.0@ == number_patterns()[i as int].0,
        r.1 == number_patterns()[i as int].1,
{
    if i == 0 {
        ("^\\d+", TokenType::IntegerConstant)
    } else if i == 1 {
        ("\\d+[uU]", TokenType::UnsignedIntegerConstant)
    } else if i == 2 {
        ("\\d+[lL]", TokenType::LongConstant)
    } else if i == 3 {
        ("\\d+([uU][lL]|[lL][uU])", TokenType::UnsignedLongConstant)
    } else {
        ("((\\d*\\.\\d+|\\d+\\.?)[eE][+-]?\\d+|\\d*\\.\\d+|\\d+\\.)", TokenType::DoubleConstant)
    }
}

/// The kind of number constant whose pattern matches the longest part of the text.
fn number_kind(lexeme: &str) -> (r: Option<TokenType>)
    ensures
        r == number_kind_from(lexeme@, 0, 0, None),
{
    let mut best: Option<TokenType> = None;
    let mut best_len: usize = 0;
    let mut i: usize = 0;
    while i < 5
        invariant
            i <= 5,
            number_kind_from(lexeme@, 0, 0, None) == number_kind_from(lexeme@, i as nat, best_len as nat, best),
        decreases 5 - i,
    {
        let (pattern, kind) = number_pattern_at(i);
        match find_first(pattern, lexeme) {
            Some((_, m)) => {
                let len = m.as_str().unicode_len();
                if len > best_len {
                    best_len = len;
                    best = Some(kind);
                }
            },
            None => {},
        }
        i = i + 1;
    }
    best
}

/// The type of a number constant of the given kind, widened as far as needed.
fn number_type_of(lexeme: &str, kind: TokenType) -> (r: Option<TokenType>)
    ensures
        r == number_type(lexeme@, kind),
{
    let n = lexeme.unicode_len();
    match kind {
        TokenType::IntegerConstant => {
            if fits_in(lexeme, i32::MAX as u64) {
                Some(TokenType::IntegerConstant)
            } else {
                check_unsigned_type(lexeme)
            }
        },
        TokenType::UnsignedIntegerConstant => {
            if n == 0 {
                return None;
            }
            check_unsigned_type(lexeme.substring_char(0, n - 1))
        },
        TokenType::LongConstant => {
            if n == 0 {
                return None;
            }
            check_long_type(lexeme.substring_char(0, n - 1))
        },
        TokenType::UnsignedLongConstant => {
            if n < 2 {
                None
            } else {
                check_unsigned_long_type(lexeme.substring_char(0, n - 2))
            }
        },
        _ => Some(kind),
    }
}

/// Whether a character is a suffix letter of an integer constant.
fn is_suffix_char(c: char) -> (r: bool)
    ensures
        r == is_suffix(c),
{
    c == 'u' || c == 'U' || c == 'l' || c == 'L'
}

/// The text without its trailing suffix letters.
fn trim_suffix_of(s: &str) -> (r: &str)
    ensures
        r@ == trim_suffix(s@),
{
    let n = s.unicode_len();
    let mut k = n;
    assert(s@.subrange(0, n as int) =~= s@);
    let mut more = k > 0 && is_suffix_char(s.get_char(k - 1));
    while more
        invariant
            n == s@.len(),
            k <= n,
            more ==> k > 0 && is_suffix(s@[k - 1]),
            !more ==> (k == 0 || !is_suffix(s@[k - 1])),
            trim_suffix(s@) == trim_suffix(s@.subrange(0, k as int)),
        decreases k,
    {
        let ghost p = s@.subrange(0, k as int);
        assert(p.drop_last() =~= s@.subrange(0, k - 1));
        k = k - 1;
        more = k > 0 && is_suffix_char(s.get_char(k - 1));
    }
    proof {
        let p = s@.subrange(0, k as int);
        if k > 0 {
            assert(p.last() == s@[k - 1]);
        }
    }
    assert(s@.subrange(0, n as int) =~= s@);
    s.substring_char(0, k)
}

/// Whether every character is an ASCII digit, a dot, an exponent letter or a sign.
fn is_double_text(s: &str) -> (r: bool)
    ensures
        r == double_text(s@),
{
    let n = s.unicode_len();
    let mut i: usize = 0;
    while i < n
        invariant
            n == s@.len(),
            i <= n,
            forall|j: int| 0 <= j < i ==> is_digit(#[trigger] s@[j]) || s@[j] == '.' || s@[j] == 'e' || s@[j] == 'E'
                || s@[j] == '+' || s@[j] == '-',
        decreases n - i,
    {
        let c = s.get_char(i);
        if !(('0' <= c && c <= '9') || c == '.' || c == 'e' || c == 'E' || c == '+' || c == '-') {
            return false;
        }
        i = i + 1;
    }
    true
}

/// The value of a number constant of type `tt` from its text without suffix (see
/// `number_value`).
fn number_value_of(tt: TokenType, s: &str) -> (r: Option<Option<TokenValue>>)
    ensures
        r == number_value(tt, s@),
{
    match tt {
        TokenType::IntegerConstant => match parse_digits(s) {
            Some(v) => if v <= i32::MAX as u64 { Some(Some(TokenValue::Integer(v as i32))) } else { None },
            None => None,
        },
        TokenType::UnsignedIntegerConstant => match parse_digits(s) {
            Some(v) => if v <= u32::MAX as u64 { Some(Some(TokenValue::UnsignedInteger(v as u32))) } else { None },
            None => None,
        },
        TokenType::LongConstant => match parse_digits(s) {
            Some(v) => if v <= i64::MAX as u64 { Some(Some(TokenValue::Long(v as i64))) } else { None },
            None => None,
        },
        TokenType::UnsignedLongConstant => match parse_digits(s) {
            Some(v) => Some(Some(TokenValue::UnsignedLong(v))),
            None => None,
        },
        TokenType::DoubleConstant => if is_double_text(s) { Some(None) } else { None },
        _ => None,
    }
}

/// The token type and value that a rule derives from its match.
fn derive_token(d: Derivation, m: &str) -> (r: Option<(TokenType, Option<TokenValue>)>)
    ensures
        r == derive(d, m@),
{
    match d {
        Derivation::Fixed(tt) => Some((tt, None)),
        Derivation::Number => match number_kind(m) {
            None => None,
            Some(kind) => match number_type_of(m, kind) {
                None => None,
                Some(tt) => match number_value_of(tt, trim_suffix_of(m)) {
                    None => None,
                    Some(v) => Some((tt, v)),
                },
            },
        },
    }
}

/// The pattern of a whole number constant.
fn number_pattern_text() -> (r: &'static str)
    ensures
        r@ == number_pattern(),
{
    "^(^\\d+|\\d+[uU]|\\d+[lL]|\\d+([uU][lL]|[lL][uU])|((\\d*\\.\\d+|\\d+\\.?)[eE][+-]?\\d+|\\d*\\.\\d+|\\d+\\.))(?![\\w\\.])"
}

/// A rule of the lexer.
pub struct TokenRule {
    pub pattern: String,
    pub derivation: Derivation,
    pub skip: bool,
}

/// The view of a rule.
pub open spec fn rule_view(r: TokenRule) -> RuleView {
    RuleView { pattern: r.pattern@, derivation: r.derivation, skip: r.skip }
}

/// What the lexer takes from the start of a text.
pub struct FoundToken {
    pub token_type: TokenType,
    pub lexeme: String,
    pub skip: bool,
    pub value: Option<TokenValue>,
}

/// The view of what the lexer takes.
pub open spec fn found_view(f: FoundToken) -> Found {
    Found { token_type: f.token_type, lexeme: f.lexeme@, skip: f.skip, value: f.value }
}

/// Where `*/` is found, it fits in the text.
proof fn lemma_comment_end_bound(s: Seq<char>, i: nat)
    ensures
        comment_end(s, i) matches Some(e) ==> i <= e && e + 2 <= s.len(),
    decreases s.len() - i,
{
    if i + 1 < s.len() && !(s[i as int] == '*' && s[i + 1 as int] == '/') {
        lemma_comment_end_bound(s, i + 1);
    }
}

/// Splits source text into tokens: at each position the rule with the longest match wins (the
/// earliest on a tie), whitespace and comments are dropped, and identifiers that are keywords
/// get the keyword's type.
pub struct Lexer {
    token_types: Vec<TokenRule>,
    keywords: SymbolTable<TokenType>,
}

/// The rules, in the order in which they are tried.
fn make_rules() -> (rules: Vec<TokenRule>)
    ensures
        rules@.map_values(|r: TokenRule| rule_view(r)) == lexer_rules(),
{
    let mut rules: Vec<TokenRule> = Vec::new();
    rules.push(TokenRule { pattern: string_of("^\\s+"), derivation: Derivation::Fixed(TokenType::Whitespace), skip: true });
    rules.push(TokenRule { pattern: string_of("^//.*"), derivation: Derivation::Fixed(TokenType::LineComment), skip: true });
    rules.push(TokenRule { pattern: string_of(number_pattern_text()), derivation: Derivation::Number, skip: false });
    rules.push(TokenRule { pattern: string_of("^[a-zA-Z_][a-zA-Z0-9_]*\\b"), derivation: Derivation::Fixed(TokenType::Identifier), skip: false });
    rules.push(TokenRule { pattern: string_of("^\\("), derivation: Derivation::Fixed(TokenType::LeftParen), skip: false });
    rules.push(TokenRule { pattern: string_of("^\\)"), derivation: Derivation::Fixed(TokenType::RightParen), skip: false });
    rules.push(TokenRule { pattern: string_of("^\\{"), derivation: Derivation::Fixed(TokenType::LeftBrace), skip: false });
    rules.push(TokenRule { pattern: string_of("^\\}"), derivation: Derivation::Fixed(TokenType::RightBrace), skip: false });
    rules.push(TokenRule { pattern: string_of("^,"), derivation: Derivation::Fixed(TokenType::Comma), skip: false });
    rules.push(TokenRule { pattern: string_of("^;"), derivation: Derivation::Fixed(TokenType::Semicolon), skip: false });
    rules.push(TokenRule { pattern: string_of("^\\-"), derivation: Derivation::Fixed(TokenType::Minus), skip: false });
    rules.push(TokenRule { pattern: string_of("^~"), derivation: Derivation::Fixed(TokenType::Tilde), skip: false });
    rules.push(TokenRule { pattern: string_of("^\\+"), derivation: Derivation::Fixed(TokenType::Plus), skip: false });
    rules.push(TokenRule { pattern: string_of("^\\*"), derivation: Derivation::Fixed(TokenType::Asterisk), skip: false });
    rules.push(TokenRule { pattern: string_of("^/"), derivation: Derivation::Fixed(TokenType::Slash), skip: false });
    rules.push(TokenRule { pattern: string_of("^%"), derivation: Derivation::Fixed(TokenType::Percent), skip: false });
    rules.push(TokenRule { pattern: string_of("^&"), derivation: Derivation::Fixed(TokenType::BitAnd), skip: false });
    rules.push(TokenRule { pattern: string_of("^\\|"), derivation: Derivation::Fixed(TokenType::BitOr), skip: false });
    rules.push(TokenRule { pattern: string_of("^\\^"), derivation: Derivation::Fixed(TokenType::BitXor), skip: false });
    rules.push(TokenRule { pattern: string_of("^<<"), derivation: Derivation::Fixed(TokenType::ShiftLeft), skip: false });
    rules.push(TokenRule { pattern: string_of("^>>"), derivation: Derivation::Fixed(TokenType::ShiftRight), skip: false });
    rules.push(TokenRule { pattern: string_of("^&&"), derivation: Derivation::Fixed(TokenType::LogicalAnd), skip: false });
    rules.push(TokenRule { pattern: string_of("^\\|\\|"), derivation: Derivation::Fixed(TokenType::LogicalOr), skip: false });
    rules.push(TokenRule { pattern: string_of("^!"), derivation: Derivation::Fixed(TokenType::LogicalNot), skip: false });
    rules.push(TokenRule { pattern: string_of("^=="), derivation: Derivation::Fixed(TokenType::Equal), skip: false });
    rules.push(TokenRule { pattern: string_of("^!="), derivation: Derivation::Fixed(TokenType::NotEqual), skip: false });
    rules.push(TokenRule { pattern: string_of("^>="), derivation: Derivation::Fixed(TokenType::GreaterEqual), skip: false });
    rules.push(TokenRule { pattern: string_of("^>"), derivation: Derivation::Fixed(TokenType::Greater), skip: false });
    rules.push(TokenRule { pattern: string_of("^<"), derivation: Derivation::Fixed(TokenType::Less), skip: false });
    rules.push(TokenRule { pattern: string_of("^<="), derivation: Derivation::Fixed(TokenType::LessEqual), skip: false });
    rules.push(TokenRule { pattern: string_of("^="), derivation: Derivation::Fixed(TokenType::Assign), skip: false });
    rules.push(TokenRule { pattern: string_of("^\\+="), derivation: Derivation::Fixed(TokenType::AssignAdd), skip: false });
    rules.push(TokenRule { pattern: string_of("^\\-="), derivation: Derivation::Fixed(TokenType::AssignSub), skip: false });
    rules.push(TokenRule { pattern: string_of("^\\*="), derivation: Derivation::Fixed(TokenType::AssignMul), skip: false });
    rules.push(TokenRule { pattern: string_of("^/="), derivation: Derivation::Fixed(TokenType::AssignDiv), skip: false });
    rules.push(TokenRule { pattern: string_of("^%="), derivation: Derivation::Fixed(TokenType::AssignRemainder), skip: false });
    rules.push(TokenRule { pattern: string_of("^&="), derivation: Derivation::Fixed(TokenType::AssignBitAnd), skip: false });
    rules.push(TokenRule { pattern: string_of("^\\|="), derivation: Derivation::Fixed(TokenType::AssignBitOr), skip: false });
    rules.push(TokenRule { pattern: string_of("^\\^="), derivation: Derivation::Fixed(TokenType::AssignBitXor), skip: false });
    rules.push(TokenRule { pattern: string_of("^<<="), derivation: Derivation::Fixed(TokenType::AssignShiftLeft), skip: false });
    rules.push(TokenRule { pattern: string_of("^>>="), derivation: Derivation::Fixed(TokenType::AssignShiftRight), skip: false });
    rules.push(TokenRule { pattern: string_of("^\\+\\+(?=[\\w\\(])"), derivation: Derivation::Fixed(TokenType::IncrementPrefix), skip: false });
    rules.push(TokenRule { pattern: string_of("^\\+\\+(?![\\w\\(])"), derivation: Derivation::Fixed(TokenType::IncrementPostfix), skip: false });
    rules.push(TokenRule { pattern: string_of("^\\-\\-(?=[\\w\\(])"), derivation: Derivation::Fixed(TokenType::DecrementPrefix), skip: false });
    rules.push(TokenRule { pattern: string_of("^\\-\\-(?![\\w\\(])"), derivation: Derivation::Fixed(TokenType::DecrementPostfix), skip: false });
    rules.push(TokenRule { pattern: string_of("^\\?"), derivation: Derivation::Fixed(TokenType::QuestionMark), skip: false });
    rules.push(TokenRule { pattern: string_of("^:"), derivation: Derivation::Fixed(TokenType::Colon), skip: false });
    assert(rules@.map_values(|r: TokenRule| rule_view(r)) =~= lexer_rules());
    rules
}

/// The keywords with their token types.
fn make_keywords() -> (keywords: SymbolTable<TokenType>)
    ensures
        keywords@ == keyword_map(),
{
    let mut keywords: SymbolTable<TokenType> = SymbolTable::new();
    let _ = keywords.insert("int", TokenType::Int);
    let _ = keywords.insert("long", TokenType::Long);
    let _ = keywords.insert("signed", TokenType::Signed);
    let _ = keywords.insert("unsigned", TokenType::Unsigned);
    let _ = keywords.insert("double", TokenType::Double);
    let _ = keywords.insert("void", TokenType::Void);
    let _ = keywords.insert("return", TokenType::Return);
    let _ = keywords.insert("if", TokenType::If);
    let _ = keywords.insert("else", TokenType::Else);
    let _ = keywords.insert("goto", TokenType::Goto);
    let _ = keywords.insert("do", TokenType::Do);
    let _ = keywords.insert("while", TokenType::While);
    let _ = keywords.insert("for", TokenType::For);
    let _ = keywords.insert("break", TokenType::Break);
    let _ = keywords.insert("continue", TokenType::Continue);
    let _ = keywords.insert("switch", TokenType::Switch);
    let _ = keywords.insert("case", TokenType::Case);
    let _ = keywords.insert("default", TokenType::Default);
    let _ = keywords.insert("static", TokenType::Static);
    let _ = keywords.insert("extern", TokenType::Extern);
    keywords
}

impl Lexer {
    /// The rules of the lexer, as plain values.
    pub closed spec fn rules(&self) -> Seq<RuleView> {
        self.token_types@.map_values(|r: TokenRule| rule_view(r))
    }

    /// The keywords of the lexer.
    pub closed spec fn keywords(&self) -> Map<Seq<char>, TokenType> {
        self.keywords@
    }

    pub fn new() -> (l: Lexer)
        ensures
            l.wf(),
            l.rules() == lexer_rules(),
            l.keywords() == keyword_map(),
    {
        Lexer { token_types: make_rules(), keywords: make_keywords() }
    }

    /// The best match at the start of `code` (see `best_from`).
    fn find_max_match(&self, code: &str) -> (r: Option<FoundToken>)
        ensures
            match r {
                Some(f) => best_from(self.rules(), code@, 0, None) == Some(found_view(f)) && f.lexeme@.len() > 0
                    && f.lexeme@.len() <= code@.len() && code@.subrange(0, f.lexeme@.len() as int) == f.lexeme@,
                None => best_from(self.rules(), code@, 0, None) is None,
            },
    {
        let mut best: Option<FoundToken> = None;
        let mut best_len: usize = 0;
        let mut i: usize = 0;
        while i < self.token_types.len()
            invariant
                i <= self.token_types@.len(),
                self.rules().len() == self.token_types@.len(),
                best_from(self.rules(), code@, 0, None) == best_from(self.rules(), code@, i as nat, match best {
                    Some(f) => Some(found_view(f)),
                    None => None,
                }),
                best matches Some(f) ==> f.lexeme@.len() == best_len && best_len > 0 && f.lexeme@.len() <= code@.len()
                    && code@.subrange(0, f.lexeme@.len() as int) == f.lexeme@,
            decreases self.token_types@.len() - i,
        {
            let rule = &self.token_types[i];
            assert(self.rules()[i as int] == rule_view(*rule));
            match find_first(rule.pattern.as_str(), code) {
                Some((start, m)) => {
                    let len = m.as_str().unicode_len();
                    if start == 0 && len > 0 && (best.is_none() || len > best_len) {
                        match derive_token(rule.derivation, m.as_str()) {
                            Some((tt, v)) => {
                                best = Some(FoundToken { token_type: tt, lexeme: m, skip: rule.skip, value: v });
                                best_len = len;
                            },
                            None => {},
                        }
                    }
                },
                None => {},
            }
            i = i + 1;
        }
        best
    }

    /// Whether the lexer has its rules and keywords (as `new` makes it).
    pub closed spec fn wf(&self) -> bool {
        self.rules() == lexer_rules() && self.keywords() == keyword_map()
    }

    /// The line and column after `s`.
    fn advance_position(lexeme: &str, line: usize, column: usize) -> (r: (usize, usize))
        requires
            line + column + lexeme@.len() <= usize::MAX,
            column >= 1,
        ensures
            (r.0 as nat, r.1 as nat) == advance(lexeme@, line as nat, column as nat),
            r.0 + r.1 <= line + column + lexeme@.len(),
            r.1 >= 1,
    {
        let n = lexeme.unicode_len();
        let mut l = line;
        let mut c = column;
        let mut i: usize = 0;
        assert(lexeme@.subrange(0, 0) =~= Seq::<char>::empty());
        while i < n
            invariant
                n == lexeme@.len(),
                i <= n,
                line + column + n <= usize::MAX,
                c >= 1,
                l + c <= line + column + i,
                (l as nat, c as nat) == advance(lexeme@.subrange(0, i as int), line as nat, column as nat),
            decreases n - i,
        {
            let ch = lexeme.get_char(i);
            let ghost p = lexeme@.subrange(0, i as int + 1);
            assert(p.drop_last() =~= lexeme@.subrange(0, i as int));
            assert(p.last() == ch);
            if ch == '\n' {
                l = l + 1;
                c = 1;
            } else {
                c = c + 1;
            }
            i = i + 1;
        }
        assert(lexeme@.subrange(0, n as int) =~= lexeme@);
        (l, c)
    }

    /// The index at which the first `*/` starts.
    fn find_comment_end(s: &str) -> (r: Option<usize>)
        ensures
            match r {
                Some(e) => comment_end(s@, 0) == Some(e as nat),
                None => comment_end(s@, 0) is None,
            },
    {
        let n = s.unicode_len();
        let mut i: usize = 0;
        while i < n && i + 1 < n
            invariant
                n == s@.len(),
                i <= n,
                comment_end(s@, 0) == comment_end(s@, i as nat),
            decreases n - i,
        {
            if s.get_char(i) == '*' && s.get_char(i + 1) == '/' {
                return Some(i);
            }
            i = i + 1;
        }
        None
    }

    /// Drops a block comment at the start of `remaining` and gives the position after it.
    fn remove_block_comment(&self, line: usize, column: usize, remaining: &mut String) -> (r: (usize, usize))
        requires
            line + column + old(remaining)@.len() <= usize::MAX,
            column >= 1,
        ensures
            (final(remaining)@, r.0 as nat, r.1 as nat) == strip_comment(old(remaining)@, line as nat, column as nat),
            r.0 + r.1 + final(remaining)@.len() <= line + column + old(remaining)@.len(),
            final(remaining)@.len() <= old(remaining)@.len(),
            r.1 >= 1,
    {
        let n = remaining.as_str().unicode_len();
        if !(n >= 2 && remaining.as_str().get_char(0) == '/' && remaining.as_str().get_char(1) == '*') {
            return (line, column);
        }
        match Self::find_comment_end(remaining.as_str()) {
            Some(e) => {
                proof {
                    lemma_comment_end_bound(old(remaining)@, 0);
                }
                let rest = string_of(remaining.as_str().substring_char(e + 2, n));
                let (l, c) = Self::advance_position(remaining.as_str().substring_char(0, e + 2), line, column);
                *remaining = rest;
                (l, c)
            },
            None => {
                let (l, c) = Self::advance_position(remaining.as_str(), line, column);
                *remaining = String::new();
                (l, c)
            },
        }
    }

    /// The tokens of a source text (see `scan`), or the error for the first text that no rule
    /// matches.
    pub fn scan_tokens(&self, code: &str) -> (r: Result<Vec<Token>, String>)
        requires
            self.wf(),
            code@.len() + 2 <= usize::MAX,
        ensures
            match scan(code@) {
                Ok(ts) => r matches Ok(v) && v@.map_values(|t: Token| token_view(t)) == ts,
                Err(m) => r matches Err(e) && e@ == m,
            },
    {
        let mut tokens: Vec<Token> = Vec::new();
        let mut line: usize = 1;
        let mut column: usize = 1;
        let mut remaining = string_of(code);
        assert(tokens@.map_values(|t: Token| token_view(t)) =~= Seq::<TokenView>::empty());
        while remaining.as_str().unicode_len() > 0
            invariant
                self.wf(),
                code@.len() + 2 <= usize::MAX,
                column >= 1,
                line + column + remaining@.len() <= code@.len() + 2,
                scan(code@) == scan_from(remaining@, line as nat, column as nat, tokens@.map_values(|t: Token| token_view(t))),
            decreases remaining@.len(),
        {
            let ghost rest0 = remaining@;
            let ghost acc = tokens@.map_values(|t: Token| token_view(t));
            let ghost (gl, gc) = (line as nat, column as nat);
            let (l2, c2) = self.remove_block_comment(line, column, &mut remaining);
            line = l2;
            column = c2;
            let n = remaining.as_str().unicode_len();
            if n == 0 {
                return Ok(tokens);
            }
            match self.find_max_match(remaining.as_str()) {
                None => {
                    let mut m = string_of("Unexpected token at line ");
                    append_decimal(&mut m, line as u64);
                    append_str(&mut m, ", column ");
                    append_decimal(&mut m, column as u64);
                    append_str(&mut m, ": '");
                    push_char(&mut m, remaining.as_str().get_char(0));
                    append_str(&mut m, "'");
                    proof {
                        assert(seq![remaining@[0]] =~= seq![remaining@[0]]);
                    }
                    return Err(m);
                },
                Some(found) => {
                    let curr_line = line;
                    let curr_column = column;
                    let k = found.lexeme.as_str().unicode_len();
                    let (l3, c3) = Self::advance_position(found.lexeme.as_str(), line, column);
                    let next = string_of(remaining.as_str().substring_char(k, n));
                    remaining = next;
                    line = l3;
                    column = c3;
                    if !found.skip {
                        let tt = if found.token_type == TokenType::Identifier {
                            match self.keywords.get_entry(found.lexeme.as_str()) {
                                Some(t) => *t,
                                None => TokenType::Identifier,
                            }
                        } else {
                            found.token_type
                        };
                        let token = Token::new(tt, found.value, found.lexeme, curr_line, curr_column);
                        proof {
                            assert(tokens@.push(token).map_values(|t: Token| token_view(t)) =~= acc.push(token_view(token)));
                        }
                        tokens.push(token);
                    }
                },
            }
        }
        Ok(tokens)
    }
}

} // verus!
