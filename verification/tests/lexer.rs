use tbcc::lexer::Lexer;
use tbcc::token::{TokenType, TokenValue};

    #[test]
    fn scan_tokens() {
        let lexer = Lexer::new();
        let code = r#"
            answer
            42
        "#;

        let tokens = lexer.scan_tokens(code).unwrap();

        assert_eq!(tokens.len(), 2);

        assert_eq!(tokens[0].token_type, TokenType::Identifier);
        assert_eq!(tokens[0].lexeme, "answer");
        assert_eq!(tokens[0].line, 2);
        assert_eq!(tokens[0].column, 13);

        assert_eq!(tokens[1].token_type, TokenType::IntegerConstant);
        assert_eq!(tokens[1].value, Some(TokenValue::Integer(42)));
        assert_eq!(tokens[1].lexeme, "42");
        assert_eq!(tokens[1].line, 3);
        assert_eq!(tokens[1].column, 13);
    }

    #[test]
    fn scan_number_constants() {
        let lexer = Lexer::new();
        let code = r#"
           42
           42l
           42L
           42u
           42U
           42ul
           42uL
           42Ul
           42UL
           42lu
           42lU
           42Lu
           42LU
           4.2E1
        "#;

        let tokens = lexer.scan_tokens(code).unwrap();
        assert_eq!(tokens.len(), 14);

        assert_eq!(tokens[0].token_type, TokenType::IntegerConstant);
        assert_eq!(tokens[0].value, Some(TokenValue::Integer(42)));

        for i in 1..=2 {
            assert_eq!(tokens[i].token_type, TokenType::LongConstant);
            assert_eq!(tokens[i].value, Some(TokenValue::Long(42)));
        }

        for i in 3..=4 {
            assert_eq!(tokens[i].token_type, TokenType::UnsignedIntegerConstant);
            assert_eq!(tokens[i].value, Some(TokenValue::UnsignedInteger(42)));
        }

        for i in 5..=12 {
            assert_eq!(tokens[i].token_type, TokenType::UnsignedLongConstant);
            assert_eq!(tokens[i].value, Some(TokenValue::UnsignedLong(42)));
        }

        assert_eq!(tokens[13].token_type, TokenType::DoubleConstant);
    }

    #[test]
    fn scan_main_function() {
        let lexer = Lexer::new();
        let code = r#"
        int main(void) {
            return 42;
        }
        "#;

        let tokens = lexer.scan_tokens(code).unwrap();
        assert_eq!(tokens.len(), 10);

        //dbg!(tokens);
    }

    #[test]
    fn scan_tilde_decrement() {
        let lexer = Lexer::new();
        let code = r#"
        ~a--;
        "#;

        let tokens = lexer.scan_tokens(code).unwrap();
        assert_eq!(tokens.len(), 4);
        assert_eq!(tokens[0].token_type, TokenType::Tilde);
        assert_eq!(tokens[0].lexeme, "~");
        assert_eq!(tokens[0].line, 2);
        assert_eq!(tokens[0].column, 9);

        assert_eq!(tokens[1].token_type, TokenType::Identifier);
        assert_eq!(tokens[1].lexeme, "a");
        assert_eq!(tokens[1].line, 2);
        assert_eq!(tokens[1].column, 10);

        assert_eq!(tokens[2].token_type, TokenType::DecrementPostfix);
        assert_eq!(tokens[2].lexeme, "--");
        assert_eq!(tokens[2].line, 2);
        assert_eq!(tokens[2].column, 11);

        assert_eq!(tokens[3].token_type, TokenType::Semicolon);
        assert_eq!(tokens[3].lexeme, ";");
        assert_eq!(tokens[3].line, 2);
        assert_eq!(tokens[3].column, 13);
    }

    #[test]
    fn scan_binary_operators() {
        let lexer = Lexer::new();
        let code = "a + b - c*d /e % f";

        let tokens = lexer.scan_tokens(code).unwrap();

        assert_eq!(tokens.len(), 11);
        assert_eq!(tokens[0].token_type, TokenType::Identifier);
        assert_eq!(tokens[0].lexeme, "a");
        assert_eq!(tokens[1].token_type, TokenType::Plus);
        assert_eq!(tokens[1].lexeme, "+");
        assert_eq!(tokens[2].token_type, TokenType::Identifier);
        assert_eq!(tokens[2].lexeme, "b");
        assert_eq!(tokens[3].token_type, TokenType::Minus);
        assert_eq!(tokens[3].lexeme, "-");
        assert_eq!(tokens[4].token_type, TokenType::Identifier);
        assert_eq!(tokens[4].lexeme, "c");
        assert_eq!(tokens[5].token_type, TokenType::Asterisk);
        assert_eq!(tokens[5].lexeme, "*");
        assert_eq!(tokens[6].token_type, TokenType::Identifier);
        assert_eq!(tokens[6].lexeme, "d");
        assert_eq!(tokens[7].token_type, TokenType::Slash);
        assert_eq!(tokens[7].lexeme, "/");
        assert_eq!(tokens[8].token_type, TokenType::Identifier);
        assert_eq!(tokens[8].lexeme, "e");
        assert_eq!(tokens[9].token_type, TokenType::Percent);
        assert_eq!(tokens[9].lexeme, "%");
        assert_eq!(tokens[10].token_type, TokenType::Identifier);
        assert_eq!(tokens[10].lexeme, "f");
    }

    #[test]
    fn scan_bitwise_operators() {
        let lexer = Lexer::new();
        let code = "a & b | c ^ d << e >> f";

        let tokens = lexer.scan_tokens(code).unwrap();

        assert_eq!(tokens.len(), 11);
        assert_eq!(tokens[0].token_type, TokenType::Identifier);
        assert_eq!(tokens[0].lexeme, "a");
        assert_eq!(tokens[1].token_type, TokenType::BitAnd);
        assert_eq!(tokens[1].lexeme, "&");
        assert_eq!(tokens[2].token_type, TokenType::Identifier);
        assert_eq!(tokens[2].lexeme, "b");
        assert_eq!(tokens[3].token_type, TokenType::BitOr);
        assert_eq!(tokens[3].lexeme, "|");
        assert_eq!(tokens[4].token_type, TokenType::Identifier);
        assert_eq!(tokens[4].lexeme, "c");
        assert_eq!(tokens[5].token_type, TokenType::BitXor);
        assert_eq!(tokens[5].lexeme, "^");
        assert_eq!(tokens[6].token_type, TokenType::Identifier);
        assert_eq!(tokens[6].lexeme, "d");
        assert_eq!(tokens[7].token_type, TokenType::ShiftLeft);
        assert_eq!(tokens[7].lexeme, "<<");
        assert_eq!(tokens[8].token_type, TokenType::Identifier);
        assert_eq!(tokens[8].lexeme, "e");
        assert_eq!(tokens[9].token_type, TokenType::ShiftRight);
        assert_eq!(tokens[9].lexeme, ">>");
        assert_eq!(tokens[10].token_type, TokenType::Identifier);
        assert_eq!(tokens[10].lexeme, "f");
    }

    #[test]
    fn scan_logical_operators() {
        let lexer = Lexer::new();
        let code = "a && b || !c";

        let tokens = lexer.scan_tokens(code).unwrap();

        assert_eq!(tokens.len(), 6);
        assert_eq!(tokens[0].token_type, TokenType::Identifier);
        assert_eq!(tokens[0].lexeme, "a");
        assert_eq!(tokens[1].token_type, TokenType::LogicalAnd);
        assert_eq!(tokens[1].lexeme, "&&");
        assert_eq!(tokens[2].token_type, TokenType::Identifier);
        assert_eq!(tokens[2].lexeme, "b");
        assert_eq!(tokens[3].token_type, TokenType::LogicalOr);
        assert_eq!(tokens[3].lexeme, "||");
        assert_eq!(tokens[4].token_type, TokenType::LogicalNot);
        assert_eq!(tokens[4].lexeme, "!");
        assert_eq!(tokens[5].token_type, TokenType::Identifier);
        assert_eq!(tokens[5].lexeme, "c");
    }

    #[test]
    fn scan_assignment() {
        let lexer = Lexer::new();
        let code = "a = b";

        let tokens = lexer.scan_tokens(code).unwrap();
        assert_eq!(tokens.len(), 3);

        assert_eq!(tokens[0].token_type, TokenType::Identifier);
        assert_eq!(tokens[0].lexeme, "a");
        assert_eq!(tokens[1].token_type, TokenType::Assign);
        assert_eq!(tokens[1].lexeme, "=");
        assert_eq!(tokens[2].token_type, TokenType::Identifier);
        assert_eq!(tokens[2].lexeme, "b");
    }

    #[test]
    fn scan_increment_decrement() {
        let lexer = Lexer::new();
        let code = "++a; a++; --b; b--;";

        let tokens = lexer.scan_tokens(code).unwrap();
        assert_eq!(tokens.len(), 12);

        assert_eq!(tokens[0].token_type, TokenType::IncrementPrefix);
        assert_eq!(tokens[0].lexeme, "++");
        assert_eq!(tokens[1].token_type, TokenType::Identifier);
        assert_eq!(tokens[1].lexeme, "a");
        assert_eq!(tokens[2].token_type, TokenType::Semicolon);
        assert_eq!(tokens[2].lexeme, ";");

        assert_eq!(tokens[3].token_type, TokenType::Identifier);
        assert_eq!(tokens[3].lexeme, "a");
        assert_eq!(tokens[4].token_type, TokenType::IncrementPostfix);
        assert_eq!(tokens[4].lexeme, "++");
        assert_eq!(tokens[5].token_type, TokenType::Semicolon);
        assert_eq!(tokens[5].lexeme, ";");

        assert_eq!(tokens[6].token_type, TokenType::DecrementPrefix);
        assert_eq!(tokens[6].lexeme, "--");
        assert_eq!(tokens[7].token_type, TokenType::Identifier);
        assert_eq!(tokens[7].lexeme, "b");
        assert_eq!(tokens[8].token_type, TokenType::Semicolon);
        assert_eq!(tokens[8].lexeme, ";");

        assert_eq!(tokens[9].token_type, TokenType::Identifier);
        assert_eq!(tokens[9].lexeme, "b");
        assert_eq!(tokens[10].token_type, TokenType::DecrementPostfix);
        assert_eq!(tokens[10].lexeme, "--");
        assert_eq!(tokens[11].token_type, TokenType::Semicolon);
        assert_eq!(tokens[11].lexeme, ";");
    }

    #[test]
    fn scan_compound_assignments() {
        let lexer = Lexer::new();
        let code =
            "a += b; c -= d; e *= f; g /= h; i %= j; k &= l; m |= n; o ^= p; q <<= r; s >>= t;";

        let tokens = lexer.scan_tokens(code).unwrap();

        // Count assignment operators: 10 assignments, each with 3 tokens (identifier, operator, identifier) plus semicolons = 30 tokens
        assert_eq!(tokens.len(), 40);

        // Test += (plus equals)
        assert_eq!(tokens[1].token_type, TokenType::AssignAdd);
        assert_eq!(tokens[1].lexeme, "+=");

        // Test -= (minus equals)
        assert_eq!(tokens[5].token_type, TokenType::AssignSub);
        assert_eq!(tokens[5].lexeme, "-=");

        // Test *= (multiply equals)
        assert_eq!(tokens[9].token_type, TokenType::AssignMul);
        assert_eq!(tokens[9].lexeme, "*=");

        // Test /= (divide equals)
        assert_eq!(tokens[13].token_type, TokenType::AssignDiv);
        assert_eq!(tokens[13].lexeme, "/=");

        // Test %= (remainder equals)
        assert_eq!(tokens[17].token_type, TokenType::AssignRemainder);
        assert_eq!(tokens[17].lexeme, "%=");

        // Test &= (bitwise and equals)
        assert_eq!(tokens[21].token_type, TokenType::AssignBitAnd);
        assert_eq!(tokens[21].lexeme, "&=");

        // Test |= (bitwise or equals)
        assert_eq!(tokens[25].token_type, TokenType::AssignBitOr);
        assert_eq!(tokens[25].lexeme, "|=");

        // Test ^= (bitwise xor equals)
        assert_eq!(tokens[29].token_type, TokenType::AssignBitXor);
        assert_eq!(tokens[29].lexeme, "^=");

        // Test <<= (shift left equals)
        assert_eq!(tokens[33].token_type, TokenType::AssignShiftLeft);
        assert_eq!(tokens[33].lexeme, "<<=");

        // Test >>= (shift right equals)
        assert_eq!(tokens[37].token_type, TokenType::AssignShiftRight);
        assert_eq!(tokens[37].lexeme, ">>=");
    }

    #[test]
    fn scan_if_else_question_mark_colon() {
        let lexer = Lexer::new();
        let code = "if else ?:";

        let tokens = lexer.scan_tokens(code).unwrap();

        assert_eq!(tokens.len(), 4);
        assert_eq!(tokens[0].token_type, TokenType::If);
        assert_eq!(tokens[1].token_type, TokenType::Else);
        assert_eq!(tokens[2].token_type, TokenType::QuestionMark);
        assert_eq!(tokens[3].token_type, TokenType::Colon);
    }

    #[test]
    fn scan_goto_and_label() {
        let lexer = Lexer::new();
        let code = "goto end; end: return 42;";

        let tokens = lexer.scan_tokens(code).unwrap();
        assert_eq!(tokens.len(), 8);
        assert_eq!(tokens[0].token_type, TokenType::Goto);
        assert_eq!(tokens[0].lexeme, "goto");
        assert_eq!(tokens[1].token_type, TokenType::Identifier);
        assert_eq!(tokens[1].lexeme, "end");
        assert_eq!(tokens[2].token_type, TokenType::Semicolon);
        assert_eq!(tokens[3].token_type, TokenType::Identifier);
        assert_eq!(tokens[3].lexeme, "end");
        assert_eq!(tokens[4].token_type, TokenType::Colon);
        assert_eq!(tokens[5].token_type, TokenType::Return);
        assert_eq!(tokens[5].lexeme, "return");
        assert_eq!(tokens[6].token_type, TokenType::IntegerConstant);
        assert_eq!(tokens[6].value, Some(TokenValue::Integer(42)));
        assert_eq!(tokens[6].lexeme, "42");
        assert_eq!(tokens[7].token_type, TokenType::Semicolon);
    }

    #[test]
    fn scan_switch_statement() {
        let lexer = Lexer::new();
        let code = "switch (x) { case 1: break; default: return 0; }";

        let tokens = lexer.scan_tokens(code).unwrap();

        assert_eq!(tokens.len(), 16);

        assert_eq!(tokens[0].token_type, TokenType::Switch);
        assert_eq!(tokens[0].lexeme, "switch");
        assert_eq!(tokens[1].token_type, TokenType::LeftParen);
        assert_eq!(tokens[2].token_type, TokenType::Identifier);
        assert_eq!(tokens[2].lexeme, "x");
        assert_eq!(tokens[3].token_type, TokenType::RightParen);
        assert_eq!(tokens[4].token_type, TokenType::LeftBrace);
        assert_eq!(tokens[5].token_type, TokenType::Case);
        assert_eq!(tokens[6].token_type, TokenType::IntegerConstant);
        assert_eq!(tokens[6].value, Some(TokenValue::Integer(1)));
        assert_eq!(tokens[7].token_type, TokenType::Colon);
        assert_eq!(tokens[8].token_type, TokenType::Break);
        assert_eq!(tokens[9].token_type, TokenType::Semicolon);
        assert_eq!(tokens[10].token_type, TokenType::Default);
        assert_eq!(tokens[11].token_type, TokenType::Colon);
        assert_eq!(tokens[12].token_type, TokenType::Return);
        assert_eq!(tokens[13].token_type, TokenType::IntegerConstant);
        assert_eq!(tokens[13].value, Some(TokenValue::Integer(0)));
        assert_eq!(tokens[14].token_type, TokenType::Semicolon);
        assert_eq!(tokens[15].token_type, TokenType::RightBrace);
    }

    #[test]
    fn scan_long() {
        let lexer = Lexer::new();
        let code = "long answer = 42L;";

        let tokens = lexer.scan_tokens(code).unwrap();
        assert_eq!(tokens.len(), 5);
        assert_eq!(tokens[0].token_type, TokenType::Long);
        assert_eq!(tokens[1].token_type, TokenType::Identifier);
        assert_eq!(tokens[1].lexeme, "answer");
        assert_eq!(tokens[2].token_type, TokenType::Assign);
        assert_eq!(tokens[3].token_type, TokenType::LongConstant);
        assert_eq!(tokens[3].value, Some(TokenValue::Long(42)));
        assert_eq!(tokens[3].lexeme, "42L");
        assert_eq!(tokens[4].token_type, TokenType::Semicolon);
    }

    #[test]
    fn scan_promote_constants() {
        let lexer = Lexer::new();

        let code = r#"
        long negative_one = 1l; // can't use negative static initializers; negate this in main

        int main(void) {

            negative_one = -negative_one;
            if (68719476736u >= negative_one) {
                return 1;
            }

            return 0;
        }
        "#;

        let tokens = lexer.scan_tokens(code).unwrap();
        assert_eq!(tokens.len(), 31);
    }

    #[test]
    fn scan_double_to_unsigned_integer() {
        let lexer = Lexer::new();

        let code = r#"
        int main(void) {

            if (double_to_uint(2147483750.5) != 2147483750) {
                return 2;
            }

            return 0;
        }
        "#;

        let tokens = lexer.scan_tokens(code).unwrap();
        assert!(tokens.len() > 0);
    }
