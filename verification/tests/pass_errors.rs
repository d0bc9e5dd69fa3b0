use tbcc::ast::{BlockItem, Declaration, Expression, Program, Statement, TypedExpression};
use tbcc::common::symbol_table_generic::SymbolTable;
use tbcc::lexer::Lexer;
use tbcc::parser::Parser;
use tbcc::semantic::label_resolver::LabelResolver;
use tbcc::semantic::loop_labeler::LoopLabeler;
use tbcc::semantic::type_checker::TypeChecker;
use tbcc::semantic::{make_label_name_generator, make_var_name_generator, IdentifierResolver};

fn parse(code: &str) -> Program {
    let tokens = Lexer::new().scan_tokens(code).expect("Failed to scan tokens");
    Parser::new().parse(tokens).expect("Failed to parse")
}

fn function_body(program: &Program, index: usize) -> &Vec<BlockItem> {
    match &program.decls[index] {
        Declaration::FunctionDecl(f) => &f.body.as_ref().expect("Expected a function body").items,
        _ => panic!("Expected a function declaration"),
    }
}

fn function_name(program: &Program, index: usize) -> &str {
    match &program.decls[index] {
        Declaration::FunctionDecl(f) => &f.name,
        _ => panic!("Expected a function declaration"),
    }
}

#[test]
fn resolver_error_keeps_resolved_and_unresolved_declarations() {
    let mut program = parse(
        r#"
        int first(void) { int x = 1; return x; }
        int second(void) { return y; }
        "#,
    );
    let mut resolver = IdentifierResolver::new(make_var_name_generator());
    let err = resolver.resolve(&mut program).expect_err("Expected undefined variable error");
    assert!(err.contains("Variable `y` is not defined"));

    assert_eq!(program.decls.len(), 2);
    match &function_body(&program, 0)[0] {
        BlockItem::VarDeclaration(decl) => assert_eq!(decl.name, "var.x.0"),
        _ => panic!("Expected the first function to start with a declaration"),
    }
    assert_eq!(function_name(&program, 1), "second");
    match &function_body(&program, 1)[0] {
        BlockItem::Statement(Statement::Return(TypedExpression(Expression::Var(name), _))) => assert_eq!(name, "y"),
        _ => panic!("Expected the second function to return a variable"),
    }
}

#[test]
fn type_checker_error_keeps_every_declaration() {
    let mut program = parse(
        r#"
        int f(int a) { return a; }
        int main(void) { return f(); }
        int last(void) { return 0; }
        "#,
    );
    let mut resolver = IdentifierResolver::new(make_var_name_generator());
    resolver.resolve(&mut program).expect("Expected resolution to succeed");

    let mut checker = TypeChecker::new(SymbolTable::new());
    let err = checker.check(&mut program).expect_err("Expected argument count error");
    assert!(err.contains("expects 1 arguments"));

    assert_eq!(program.decls.len(), 3);
    assert_eq!(function_name(&program, 0), "f");
    assert_eq!(function_name(&program, 1), "main");
    assert_eq!(function_name(&program, 2), "last");
}

#[test]
fn label_resolver_error_keeps_every_declaration() {
    let mut program = parse(
        r#"
        int first(void) { return 0; }
        int main(void) { goto nowhere; return 0; }
        "#,
    );
    let mut resolver = LabelResolver::new(make_label_name_generator());
    resolver.resolve(&mut program).expect_err("Expected undeclared label error");

    assert_eq!(program.decls.len(), 2);
    assert_eq!(function_name(&program, 0), "first");
    assert_eq!(function_name(&program, 1), "main");
    match &function_body(&program, 1)[0] {
        BlockItem::Statement(Statement::GotoStatement(label)) => assert_eq!(label, "nowhere"),
        _ => panic!("Expected the failing function to keep its goto"),
    }
}

#[test]
fn loop_labeler_error_keeps_labeled_and_failing_declarations() {
    let mut program = parse(
        r#"
        int first(void) { while (1) { break; } return 0; }
        int main(void) { break; return 0; }
        "#,
    );
    let mut labeler = LoopLabeler::new();
    let err = labeler.label_loops(&mut program).expect_err("Expected break outside loop error");
    assert!(err.contains("not inside"));

    assert_eq!(program.decls.len(), 2);
    match &function_body(&program, 0)[0] {
        BlockItem::Statement(Statement::While { loop_id, .. }) => assert!(!loop_id.is_empty()),
        _ => panic!("Expected the first function to start with a loop"),
    }
    match &function_body(&program, 1)[0] {
        BlockItem::Statement(Statement::Break { loop_id }) => assert!(loop_id.is_empty()),
        _ => panic!("Expected the failing function to keep its break"),
    }
}
