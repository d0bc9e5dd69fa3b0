use tbcc::lexer::Lexer;
use tbcc::parser::specifier_parser::{make_specifier_parser, make_type_specifier_parser};
use tbcc::token::{TokenStream, TokenType};

fn make_token_stream(code: &str) -> TokenStream {
    let lexer = Lexer::new();
    let tokens = lexer.scan_tokens(code).unwrap();
    TokenStream::new(tokens)
}

#[test]
fn test_specifier_parser_unsigned_int() {
    let code = r"static unsigned int";
    let mut stream = make_token_stream(code);

    let parser = make_specifier_parser();

    let specifiers = parser.parse(&mut stream).unwrap();

    assert!(specifiers.contains(&TokenType::Unsigned));
    assert!(specifiers.contains(&TokenType::Int));
}

#[test]
fn test_specifier_parser_static_double() {
    let code = r"static double";
    let mut stream = make_token_stream(code);

    let parser = make_specifier_parser();

    let specifiers = parser.parse(&mut stream).unwrap();

    assert!(specifiers.contains(&TokenType::Static));
    assert!(specifiers.contains(&TokenType::Double));
}

#[test]
fn test_specifier_parser_double_int_error() {
    let code = r"double int";
    let mut stream = make_token_stream(code);

    let parser = make_specifier_parser();

    parser
        .parse(&mut stream)
        .expect_err("Expected specifier error");
}

#[test]
fn test_specifier_parser_extern_static_error() {
    let code = r"extern static";
    let mut stream = make_token_stream(code);

    let parser = make_specifier_parser();

    parser
        .parse(&mut stream)
        .expect_err("Expected specifier error");
}

#[test]
fn no_types_error() {
    let code = r"static";
    let mut stream = make_token_stream(code);

    let parser = make_specifier_parser();

    parser
        .parse(&mut stream)
        .expect_err("Expected specifier error");
}

#[test]
fn duplicate_specifier_is_reported_with_its_lexeme() {
    let mut stream = make_token_stream("int long int");
    let err = make_specifier_parser().parse(&mut stream).unwrap_err();
    assert_eq!(err, "duplicate specifier int");
}

#[test]
fn constraint_messages_are_exact() {
    let mut stream = make_token_stream("double long");
    let err = make_specifier_parser().parse(&mut stream).unwrap_err();
    assert_eq!(err, "double cannot be combined with int, long, signed or unsigned");

    let mut stream = make_token_stream("signed unsigned");
    let err = make_specifier_parser().parse(&mut stream).unwrap_err();
    assert_eq!(err, "signed cannot be combined with unsigned");

    let mut stream = make_token_stream("extern static int");
    let err = make_specifier_parser().parse(&mut stream).unwrap_err();
    assert_eq!(err, "static cannot be combined with extern");

    let mut stream = make_token_stream("static x");
    let err = make_specifier_parser().parse(&mut stream).unwrap_err();
    assert_eq!(err, "at least one type specifier is required");
}

#[test]
fn reading_stops_at_first_non_specifier() {
    let mut stream = make_token_stream("unsigned long x = 1;");
    let specifiers = make_specifier_parser().parse(&mut stream).unwrap();
    assert_eq!(specifiers, vec![TokenType::Unsigned, TokenType::Long]);
    assert_eq!(stream.peek().unwrap().token_type, TokenType::Identifier);
}

#[test]
fn no_specifiers_is_not_an_error() {
    let mut stream = make_token_stream("x = 1;");
    let specifiers = make_specifier_parser().parse(&mut stream).unwrap();
    assert!(specifiers.is_empty());
}

#[test]
fn type_specifier_parser_stops_at_storage_class() {
    let mut stream = make_token_stream("int static");
    let specifiers = make_type_specifier_parser().parse(&mut stream).unwrap();
    assert_eq!(specifiers, vec![TokenType::Int]);
    assert_eq!(stream.peek().unwrap().token_type, TokenType::Static);
}

#[test]
fn accepted_and_refused_specifier_sets() {
    let accepts = |code: &str| make_specifier_parser().parse(&mut make_token_stream(code)).is_ok();
    assert!(accepts("long signed x"));
    assert!(accepts("static long int x"));
    assert!(accepts("double x"));
    assert!(accepts("extern unsigned long x"));
    assert!(!accepts("unsigned signed x"));
    assert!(!accepts("double long x"));
    assert!(!accepts("static extern int x"));
    assert!(!accepts("extern x"));
}

#[test]
fn specifier_parser_past_the_end_gives_no_specifiers() {
    let mut stream = make_token_stream(r"int");
    while stream.advance().is_some() {}
    stream.advance();

    let parser = make_specifier_parser();
    let specifiers = parser.parse(&mut stream).unwrap();

    assert!(specifiers.is_empty());
}
