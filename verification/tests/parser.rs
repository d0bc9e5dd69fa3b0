use tbcc::lexer::Lexer;
use tbcc::parser::Parser;

    #[test]
    fn parses_with_success() {
        let code = "int main(void) { return 42; }";
        parse_code(code, true);
    }

    #[test]
    fn parse_with_negation_and_complement() {
        let code = "int main(void) { return -(-(~42)); }";
        parse_code(code, true);
    }

    #[test]
    fn parse_complement() {
        let code = r#"
        int main(void) {
            return ~12;
        }
        "#;
        parse_code(code, true);
    }

    #[test]
    fn parse_binary() {
        let code = r#"
        int main(void) {
            return 1 + 2 * 3;
        }"#;
        parse_code(code, true);
    }

    #[test]
    fn parse_bitwise() {
        let code = r#"
        int main(void) {
            return 1 | 2 & 3 ^ 4 << 1 >> 2;
        }"#;
        parse_code(code, true);
    }

    #[test]
    fn parse_variable() {
        let code = r#"
        int main(void) {
            int x = 1;
            int y = 2;
            int z;
            z = 3;
            42;;
            return x + y + z;
        }"#;
        parse_code(code, true);
    }

    #[test]
    fn parse_inc_dec() {
        let code = r#"
        int main(void) {
            int a = 1;
            int b = 2;
            int c = -++(a);
            int d = !(b)--;
            return (a == 2 && b == 1 && c == -2 && d == 0);
        }
        "#;
        parse_code(code, true);
    }

    #[test]
    fn parse_compound_assignments() {
        let code = r#"
        int main(void) {
            int a = 8;
            int b = 3;
            a += b;
            a -= b;
            a *= b;
            a /= b;
            a &= b;
            a |= b;
            a ^= b;
            a <<= 1;
            a >>= 1;
            return a;
        }
        "#;
        parse_code(code, true);
    }

    #[test]
    fn parse_compound_chained() {
        let code = r#"
        int main(void) {
            int a = 250;
            int b = 200;
            int c = 100;
            int d = 75;
            int e = -25;
            int f = 0;
            int x = 0;
            x = a += b -= c *= d /= e %= f = -7;
            return a == 2250 && b == 2000 && c == -1800 && d == -18 && e == -4 &&
                   f == -7 && x == 2250;
        }
        "#;
        parse_code(code, true);
    }

    #[test]
    fn parse_if() {
        let code = r#"
        int main(void) {
            int everything = 1;
            if (everything)
                return 42;
        }
        "#;
        parse_code(code, true);
    }

    #[test]
    fn parse_if_else() {
        let code = r#"
        int main(void) {
            int everything = 0;
            if (everything)
                return 42;
            else
                return 23;
        }
        "#;
        parse_code(code, true);
    }

    #[test]
    fn parse_conditional() {
        let code = r#"
        int main(void) {
            int everything = 1;
            int beast = 0;
            int answer = !everything ? beast ? 666 : 23 : 42;
            return answer;
        }
        "#;
        parse_code(code, true);
    }

    #[test]
    fn parse_goto() {
        let code = r#"
        int main(void) {
            goto everything;
            return 666;
        everything:
            return 42;
        }
        "#;
        parse_code(code, true);
    }

    #[test]
    fn parse_for_loop() {
        let code = r#"
        int main(void)
        {
            for (i = 0; i < 1; i = i + 1)
            {
                return 0;
            }
        }
        "#;
        parse_code(code, true);
    }

    #[test]
    fn parse_switch() {
        let code = r#"
        int main(void)
        {
            int answer = 42;

            switch (answer) {
            case 42:
                break;
            default:
                return 0;
            }

            return 1;
        }
        "#;
        parse_code(code, true);
    }

    #[test]
    fn parse_duffs_device() {
        let code = r#"
        // A fun use of fallthrough - see https://en.wikipedia.org/wiki/Duff%27s_device
        int main(void) {
            int count = 37;
            int iterations = (count + 4) / 5;
            switch (count % 5) {
                case 0:
                    do {
                        count = count - 1;
                        case 4:
                            count = count - 1;
                        case 3:
                            count = count - 1;
                        case 2:
                            count = count - 1;
                        case 1:
                            count = count - 1;
                    } while ((iterations = iterations - 1) > 0);
            }
            return (count == 0 && iterations == 0);
        }
        "#;
        parse_code(code, true);
    }

    #[test]
    fn parse_functions() {
        let code = r#"
        int do_something(int a);
        int do_two_things(int a, int b) {
            return
                do_something(a) +
                do_something(b);
        }

        int main(void)
        {
            for (i = 0; i < 1; i = i + 1)
            {
                return 0;
            }
        }
        "#;
        parse_code(code, true);
    }

    #[test]
    fn parse_functions_and_variables() {
        let code = r#"
        extern int answer = 42;
        int do_something(int a);
        int do_two_things(int a, int b) {
            static int counter = 0;
            counter++;
            return
                do_something(a) +
                do_something(b);
        }

        int main(void)
        {
            for (i = 0; i < 1; i = i + 1)
            {
                return 0;
            }
        }
        "#;
        parse_code(code, true);
    }

    #[test]
    fn parse_missing_type_specifier() {
        let code = r#"
        static answer = 42;

        int main(void)
        {
            return answer;
        }
        "#;
        parse_code(code, false);
    }

fn parse_code(code: &str, expect_success: bool) {
    let parser = Parser::new();
    let lexer = Lexer::new();

    let tokens = lexer.scan_tokens(code).expect("Failed to scan tokens");
    let result = parser.parse(tokens);

    match result {
        Ok(program) => {
            if expect_success {
                println!("{:#?}", program);
            } else {
                panic!("Expected parsing to fail but it succeeded");
            }
        }
        Err(err) => {
            if expect_success {
                panic!("{}", err);
            }
        }
    }
}
