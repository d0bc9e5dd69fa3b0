use tbcc::ast::{BlockItem, Declaration, Expression, ForInit, Label, Program, Statement, TypedExpression};
use tbcc::common::symbol_table_generic::SymbolTable;
use tbcc::lexer::Lexer;
use tbcc::parser::Parser;
use tbcc::semantic::label_resolver::LabelResolver;
use tbcc::semantic::loop_labeler::LoopLabeler;
use tbcc::semantic::scope::{Linkage, Scope};
use tbcc::semantic::type_checker::TypeChecker;
use tbcc::semantic::{make_label_name_generator, make_var_name_generator, IdentifierResolver};

fn parse_code(code: &str) -> Result<Program, String> {
    let parser = Parser::new();
    let lexer = Lexer::new();

    let tokens = lexer.scan_tokens(code).expect("Failed to scan tokens");
    parser.parse(tokens)
}

fn resolve_code(code: &str) -> Result<Program, String> {
    let lexer = Lexer::new();
    let parser = Parser::new();
    let tokens = lexer.scan_tokens(code)?;
    let mut program = parser.parse(tokens)?;

    let var_name_generator = make_var_name_generator();
    let mut resolver = IdentifierResolver::new(var_name_generator);
    resolver.resolve(&mut program)?;

    Ok(program)
}

fn resolve_labels(code: &str) -> Result<Program, String> {
    let lexer = Lexer::new();
    let parser = Parser::new();
    let tokens = lexer.scan_tokens(code)?;
    let mut program = parser.parse(tokens)?;

    let label_name_generator = make_label_name_generator();
    let mut resolver = LabelResolver::new(label_name_generator);
    resolver.resolve(&mut program)?;

    Ok(program)
}

fn check_code(code: &str) -> Result<Program, String> {
    let lexer = Lexer::new();
    let parser = Parser::new();
    let tokens = lexer.scan_tokens(code)?;
    let mut program = parser.parse(tokens)?;

    let var_name_generator = make_var_name_generator();
    let mut resolver = IdentifierResolver::new(var_name_generator);
    resolver.resolve(&mut program)?;

    let mut type_checker = TypeChecker::new(SymbolTable::new());
    type_checker.check(&mut program)?;

    Ok(program)
}

fn main_body(program: &Program) -> &Vec<BlockItem> {
    match program.decls.get(0).expect("Expected main function to be present") {
        Declaration::FunctionDecl(f) => &f.body.as_ref().expect("Expected main function body to be present").items,
        _ => panic!("Expected main function to be present"),
    }
}

#[test]
fn identifier_resolver_resolves_variable_names_in_declarations_and_usages() {
    let program = resolve_code(
        r#"
            int main(void) {
                int x = 1;
                int y = x;
                x = y;
                return x;
            }
            "#,
    )
    .expect("Expected variable resolver to succeed");

    let body = main_body(&program);

    match &body[0] {
        BlockItem::VarDeclaration(decl) => assert_eq!(decl.name, "var.x.0"),
        _ => panic!("Expected first item to be declaration"),
    }

    match &body[1] {
        BlockItem::VarDeclaration(decl) => {
            assert_eq!(decl.name, "var.y.0");
            match decl.init_expr.as_ref() {
                Some(TypedExpression(Expression::Var(name), _)) => assert_eq!(name, "var.x.0"),
                _ => panic!("Expected initializer to be variable expression"),
            }
        }
        _ => panic!("Expected second item to be declaration"),
    }

    match &body[2] {
        BlockItem::Statement(Statement::Expression(TypedExpression(Expression::Assignment { left, right, is_postfix: _ }, _))) => {
            match &left.0 {
                Expression::Var(name) => assert_eq!(name, "var.x.0"),
                _ => panic!("Expected assignment left side to be variable"),
            }
            match &right.0 {
                Expression::Var(name) => assert_eq!(name, "var.y.0"),
                _ => panic!("Expected assignment right side to be variable"),
            }
        }
        _ => panic!("Expected third item to be assignment expression statement"),
    }

    match &body[3] {
        BlockItem::Statement(Statement::Return(TypedExpression(Expression::Var(name), _))) => {
            assert_eq!(name, "var.x.0")
        }
        _ => panic!("Expected fourth item to be return variable statement"),
    }
}

#[test]
fn identifier_resolver_fails_on_undefined_variable() {
    let result = resolve_code(
        r#"
            int main(void) {
                return 0 && x;
            }
            "#,
    );

    let err = result.expect_err("Expected undefined variable error");
    assert!(err.to_string().contains("Variable `x` is not defined"));
}

#[test]
fn identifier_resolver_fails_on_invalid_assignment_lhs() {
    let result = resolve_code(
        r#"
            int main(void) {
                int x = 1;
                1 = x;
                return x;
            }
            "#,
    );

    let err = result.expect_err("Expected invalid assignment error");
    assert!(err.to_string().contains("Left-hand side of assignment must be a variable"));
}

#[test]
fn identifier_resolver_fails_on_duplicate_variable_declaration() {
    let result = resolve_code(
        r#"
            int main(void) {
                {
                    int x = 1;
                    int x = 2;
                }
                return 1;
            }
            "#,
    );

    let err = result.expect_err("Expected duplicate declaration error");
    assert!(err.to_string().contains("'x' already exists in current scope"));
}

#[test]
fn identifier_resolver_fails_on_postfix_inc_of_non_lvalue() {
    let result = resolve_code(
        r#"
            int main(void) {
                int a = 0;
                (a = 4)++;
            }
            "#,
    );

    let err = result.expect_err("Expected non-lvalue expression error");
    assert!(err.to_string().contains("Left-hand side of assignment must be a variable"));
}

#[test]
fn fails_on_duplicate_parameters_in_function_declaration() {
    let result = resolve_code(
        r#"
            int foo(int a, int b, int a);
            "#,
    );

    result.expect_err("Expected duplicate parameter error");
}

#[test]
fn fails_on_redefinition_of_parameters_in_body() {
    let result = resolve_code(
        r#"
            int foo(int a) {
                int a = 5;
                return a;
            }
            "#,
    );

    result.expect_err("Expected duplicate parameter error");
}

#[test]
fn variable_shadows_function_ok() {
    let result = resolve_code(
        r#"
            int main(void) {
                int doit();
                if (1) {
                    int doit = 5;
                    return doit;
                }
            }

            int doit(void) {
                return 42;
            }
            "#,
    );

    result.expect("Expected variable shadowing function to be allowed");
}

#[test]
fn parameter_shadows_var_ok() {
    let result = resolve_code(
        r#"
            int main(void) {
                int x = 5;
                int foo(int x);
                return foo(x);
            }

            int foo(int i) {
                return i + 1;
            }
            "#,
    );

    result.expect("Expected parameter shadowing variable to be allowed");
}

#[test]
fn resolves_label_used_after_if_branch_declaration() {
    let program = resolve_labels(
        r#"
            int main(void) {
                if (0)
                label:
                    return 5;
                goto label;
                return 0;
            }
            "#,
    )
    .expect("Expected label resolver to succeed for label declared in if branch");

    let body = main_body(&program);

    let resolved_label = match &body[0] {
        BlockItem::Statement(Statement::IfStatement { condition: _, then_branch, else_branch }) => {
            assert!(else_branch.is_none(), "Expected if statement without else branch");
            match then_branch.as_ref() {
                Statement::LabeledStatement { label: Label::Label(label), statement } => {
                    match statement.as_ref() {
                        Statement::Return(TypedExpression(Expression::IntegerConstant(5), _)) => {}
                        _ => panic!("Expected labeled statement to wrap 'return 5'"),
                    }
                    label.clone()
                }
                _ => panic!("Expected then-branch to be a labeled statement"),
            }
        }
        _ => panic!("Expected first body item to be an if statement"),
    };

    assert_eq!(resolved_label, "label_0");

    match &body[1] {
        BlockItem::Statement(Statement::GotoStatement(label)) => {
            assert_eq!(label, &resolved_label);
        }
        _ => panic!("Expected second body item to be a goto statement"),
    }

    match &body[2] {
        BlockItem::Statement(Statement::Return(TypedExpression(Expression::IntegerConstant(0), _))) => {}
        _ => panic!("Expected third body item to be 'return 0'"),
    }
}

#[test]
fn check_ok() {
    let code = r#"
        int add(int a, int b) {
            return a + b;
        }
        "#;

    check_code(code).expect("Expected code to type check successfully");
}

#[test]
fn check_extern_block_scope_ok() {
    let code = r#"
        int main(void) {
            int outer = 1;
            int foo = 0;
            if (outer) {
                /* You can declare a variable with linkage
                * multiple times in the same block;
                * these both refer to the 'foo' variable defined below
                */
                extern int foo;
                extern int foo;
                return foo;
            }
            return 0;
        }

        int foo = 3;
        "#;

    check_code(code).expect("Expected code to type check successfully");
}

#[test]
fn switch_nested_switch() {
    let code = r#"
        int main(void){
            switch(3) {
                case 0:
                    return 0;
                case 3: {
                    switch(4) {
                        case 3: return 0;
                        case 4: return 1;
                        default: return 0;
                    }
                }
                case 4: return 0;
                default: return 0;
            }
        }
        "#;

    let mut program = parse_code(code).expect("Expected code to parse");
    let mut labeler = LoopLabeler::new();
    labeler.label_loops(&mut program).expect("Expected loop labeling to succeed");
}

#[test]
fn finds_duplicate_label() {
    let code = r#"
        int main(void) {
            switch(4) {
                case 5: return 0;
                case 4: return 1;
                case 5: return 0; // duplicate of previous case 5
                default: return 2;
            }
        }
        "#;

    let mut program = parse_code(code).expect("Expected code to parse");
    let mut labeler = LoopLabeler::new();
    match labeler.label_loops(&mut program) {
        Ok(_) => panic!("Expected label loops to fail"),
        Err(_) => {}
    }
}

#[test]
fn goto_reaches_label_declared_later_in_nested_loop() {
    let program = resolve_labels(
        r#"
            int main(void) {
                goto inner;
                while (1) {
                    inner:
                        return 3;
                }
                return 0;
            }
            "#,
    )
    .expect("Expected label resolver to succeed");
    let body = main_body(&program);
    let target = match &body[0] {
        BlockItem::Statement(Statement::GotoStatement(label)) => label.clone(),
        _ => panic!("Expected first body item to be a goto statement"),
    };
    assert_eq!(target, "inner_0");
    match &body[1] {
        BlockItem::Statement(Statement::While { body: loop_body, .. }) => match loop_body.as_ref() {
            Statement::CompoundStatement(block) => match &block.items[0] {
                BlockItem::Statement(Statement::LabeledStatement { label: Label::Label(label), .. }) => {
                    assert_eq!(label, &target);
                }
                _ => panic!("Expected a labeled statement in the loop body"),
            },
            _ => panic!("Expected a compound loop body"),
        },
        _ => panic!("Expected second body item to be a while statement"),
    }
}

#[test]
fn goto_to_undeclared_label_fails() {
    let result = resolve_labels(
        r#"
            int main(void) {
                goto nowhere;
                return 0;
            }
            "#,
    );
    assert_eq!(result.err(), Some("Label 'nowhere' is used but not declared".to_string()));
}

#[test]
fn label_declared_twice_fails() {
    let result = resolve_labels(
        r#"
            int main(void) {
                here: ;
                here: return 0;
            }
            "#,
    );
    assert_eq!(result.err(), Some("Duplicate declaration for label here".to_string()));
}

#[test]
fn inner_declaration_shadows_and_closing_the_scope_restores() {
    let mut gen = make_var_name_generator();
    let mut scope: Scope<Linkage> = Scope::new();
    let outer = scope.add("x", Linkage::NoLinkage, &mut gen).unwrap();
    assert_eq!(outer, "var.x.0");
    assert_eq!(scope.get_unique_name("x"), Some("var.x.0".to_string()));
    scope.new_child();
    let inner = scope.add("x", Linkage::NoLinkage, &mut gen).unwrap();
    assert_eq!(inner, "var.x.1");
    assert_eq!(scope.get_unique_name("x"), Some("var.x.1".to_string()));
    assert_eq!(scope.get_unique_name("y"), None);
    assert!(scope.get_parent());
    assert_eq!(scope.get_unique_name("x"), Some("var.x.0".to_string()));
    assert_eq!(
        scope.add("x", Linkage::NoLinkage, &mut gen),
        Err("'x' already exists in current scope".to_string())
    );
    assert_eq!(scope.add("f", Linkage::External, &mut gen), Ok("f".to_string()));
    assert_eq!(scope.add("f", Linkage::External, &mut gen), Ok("f".to_string()));
}

fn collect_jumps(s: &Statement, gotos: &mut Vec<String>, labels: &mut Vec<String>) {
    match s {
        Statement::GotoStatement(l) => gotos.push(l.clone()),
        Statement::LabeledStatement { label, statement } => {
            if let Label::Label(n) = label {
                labels.push(n.clone());
            }
            collect_jumps(statement, gotos, labels);
        }
        Statement::While { body, .. } | Statement::DoWhile { body, .. } | Statement::For { body, .. } => {
            collect_jumps(body, gotos, labels)
        }
        Statement::SwitchStatement { body, .. } => collect_jumps(body, gotos, labels),
        Statement::IfStatement { then_branch, else_branch, .. } => {
            collect_jumps(then_branch, gotos, labels);
            if let Some(e) = else_branch {
                collect_jumps(e, gotos, labels);
            }
        }
        Statement::CompoundStatement(block) => {
            for item in &block.items {
                if let BlockItem::Statement(s) = item {
                    collect_jumps(s, gotos, labels);
                }
            }
        }
        _ => {}
    }
}

#[test]
fn validated_gotos_land_on_distinct_labels() {
    let code = r#"
        int main(void) {
            int i = 0;
            goto start;
            while (i < 10) {
                start:
                i = i + 1;
                switch (i) {
                    case 3: goto done;
                    default: break;
                }
                if (i > 5) goto again; else goto start;
                again: ;
            }
            done:
            return i;
        }
        "#;
    let tokens = Lexer::new().scan_tokens(code).unwrap();
    let mut program = Parser::new().parse(tokens).unwrap();
    tbcc::semantic::validate(make_var_name_generator(), make_label_name_generator(), SymbolTable::new(), &mut program)
        .expect("Expected validation to succeed");
    let mut gotos = vec![];
    let mut labels = vec![];
    for item in main_body(&program) {
        if let BlockItem::Statement(s) = item {
            collect_jumps(s, &mut gotos, &mut labels);
        }
    }
    assert_eq!(gotos, vec!["start_0", "done_0", "again_0", "start_0"]);
    assert_eq!(labels, vec!["start_0", "again_0", "done_0"]);
    for g in &gotos {
        assert!(labels.contains(g));
    }
}

fn collect_declared(items: &Vec<BlockItem>, names: &mut Vec<String>) {
    for item in items {
        match item {
            BlockItem::VarDeclaration(d) => names.push(d.name.clone()),
            BlockItem::Statement(s) => collect_declared_in(s, names),
            BlockItem::FunctionDeclaration(_) => {}
        }
    }
}

fn collect_declared_in(s: &Statement, names: &mut Vec<String>) {
    match s {
        Statement::CompoundStatement(block) => collect_declared(&block.items, names),
        Statement::For { init, body, .. } => {
            if let ForInit::InitDeclaration(d) = init {
                names.push(d.name.clone());
            }
            collect_declared_in(body, names);
        }
        Statement::While { body, .. } | Statement::DoWhile { body, .. } => collect_declared_in(body, names),
        Statement::IfStatement { then_branch, else_branch, .. } => {
            collect_declared_in(then_branch, names);
            if let Some(e) = else_branch {
                collect_declared_in(e, names);
            }
        }
        _ => {}
    }
}

#[test]
fn shadowing_declarations_get_distinct_names() {
    let program = resolve_code(
        r#"
        int main(void) {
            int x = 1;
            {
                int x = 2;
                {
                    int x = 3;
                }
            }
            for (int x = 0; x < 3; x = x + 1)
                ;
            return x;
        }
        "#,
    )
    .expect("Expected resolution to succeed");
    let mut names = vec![];
    collect_declared(main_body(&program), &mut names);
    assert_eq!(names, vec!["var.x.0", "var.x.1", "var.x.2", "var.x.3"]);
    match main_body(&program).last() {
        Some(BlockItem::Statement(Statement::Return(TypedExpression(Expression::Var(n), _)))) => {
            assert_eq!(n, "var.x.0")
        }
        _ => panic!("Expected the last item to return x"),
    }
}

fn collect_ids(s: &Statement, ids: &mut Vec<String>) {
    match s {
        Statement::Break { loop_id } | Statement::Continue { loop_id } => ids.push(loop_id.clone()),
        Statement::While { loop_id, body, .. } | Statement::DoWhile { loop_id, body, .. } | Statement::For { loop_id, body, .. } => {
            ids.push(loop_id.clone());
            collect_ids(body, ids);
        }
        Statement::SwitchStatement { switch_id, body, .. } => {
            ids.push(switch_id.clone());
            collect_ids(body, ids);
        }
        Statement::LabeledStatement { statement, .. } => collect_ids(statement, ids),
        Statement::IfStatement { then_branch, else_branch, .. } => {
            collect_ids(then_branch, ids);
            if let Some(e) = else_branch {
                collect_ids(e, ids);
            }
        }
        Statement::CompoundStatement(block) => {
            for item in &block.items {
                if let BlockItem::Statement(s) = item {
                    collect_ids(s, ids);
                }
            }
        }
        _ => {}
    }
}

#[test]
fn validated_loops_switches_and_jumps_have_ids() {
    let code = r#"
        int main(void) {
            int i = 0;
            while (i < 10) {
                i = i + 1;
                if (i == 2) continue;
                switch (i) {
                    case 5: break;
                    default: i = i + 0;
                }
                do { break; } while (1);
            }
            return i;
        }
        "#;
    let tokens = Lexer::new().scan_tokens(code).unwrap();
    let mut program = Parser::new().parse(tokens).unwrap();
    tbcc::semantic::validate(make_var_name_generator(), make_label_name_generator(), SymbolTable::new(), &mut program)
        .expect("Expected validation to succeed");
    let mut ids = vec![];
    for item in main_body(&program) {
        if let BlockItem::Statement(s) = item {
            collect_ids(s, &mut ids);
        }
    }
    assert_eq!(ids, vec!["loop.0", "loop.0", "switch.0", "switch.0", "loop.1", "loop.1"]);
    assert!(ids.iter().all(|id| !id.is_empty()));
}
