use tbcc::ast::{typed, Block, BlockItem, Declaration, Expression, FunctionDeclaration, Label, Program, Statement, Type};
use tbcc::semantic::loop_labeler::LoopLabeler;

fn program_with_statement(statement: Statement) -> Program {
    let mut program = Program::new();
    program.decls.push(Declaration::FunctionDecl(FunctionDeclaration::new(
        "main".to_string(),
        vec![],
        Some(Block::new(vec![BlockItem::Statement(statement)])),
        None,
        Type::Function { return_type: Box::new(Type::Int), param_types: vec![] },
    )));
    program
}

fn assert_outside_loop_error(result: Result<(), String>) {
    let err = result.expect_err("Expected loop labeler to reject statement outside loops");
    assert!(err.contains("not inside"));
}

fn main_body(program: &Program) -> &Block {
    match &program.decls[0] {
        Declaration::FunctionDecl(f) => f.body.as_ref().expect("Expected main function body to be present"),
        _ => panic!("Expected main function to be present"),
    }
}

#[test]
fn rejects_break_outside_loop() {
    let mut program = program_with_statement(Statement::Break { loop_id: String::new() });
    let mut labeler = LoopLabeler::new();
    assert_outside_loop_error(labeler.label_loops(&mut program));
}

#[test]
fn rejects_continue_outside_loop() {
    let mut program = program_with_statement(Statement::Continue { loop_id: String::new() });
    let mut labeler = LoopLabeler::new();
    assert_outside_loop_error(labeler.label_loops(&mut program));
}

#[test]
fn labels_break_and_continue_in_single_loop() {
    let mut program = program_with_statement(Statement::While {
        loop_id: String::new(),
        condition: typed(Expression::IntegerConstant(1)),
        body: Box::new(Statement::CompoundStatement(Block::new(vec![
            BlockItem::Statement(Statement::Break { loop_id: String::new() }),
            BlockItem::Statement(Statement::Continue { loop_id: String::new() }),
        ]))),
    });
    let mut labeler = LoopLabeler::new();
    labeler.label_loops(&mut program).expect("Expected loop labeler to succeed");
    let body = main_body(&program);
    match &body.items[0] {
        BlockItem::Statement(Statement::While { loop_id, body, .. }) => {
            assert_eq!(loop_id, "loop.0");
            match body.as_ref() {
                Statement::CompoundStatement(block) => {
                    match &block.items[0] {
                        BlockItem::Statement(Statement::Break { loop_id }) => assert_eq!(loop_id, "loop.0"),
                        _ => panic!("Expected first loop body item to be break"),
                    }
                    match &block.items[1] {
                        BlockItem::Statement(Statement::Continue { loop_id }) => assert_eq!(loop_id, "loop.0"),
                        _ => panic!("Expected second loop body item to be continue"),
                    }
                },
                _ => panic!("Expected while body to be a compound statement"),
            }
        },
        _ => panic!("Expected top-level statement to be while"),
    }
}

#[test]
fn labels_break_and_continue_in_nested_loops() {
    let mut program = program_with_statement(Statement::While {
        loop_id: String::new(),
        condition: typed(Expression::IntegerConstant(1)),
        body: Box::new(Statement::CompoundStatement(Block::new(vec![
            BlockItem::Statement(Statement::Continue { loop_id: String::new() }),
            BlockItem::Statement(Statement::While {
                loop_id: String::new(),
                condition: typed(Expression::IntegerConstant(1)),
                body: Box::new(Statement::CompoundStatement(Block::new(vec![
                    BlockItem::Statement(Statement::Break { loop_id: String::new() }),
                    BlockItem::Statement(Statement::Continue { loop_id: String::new() }),
                ]))),
            }),
            BlockItem::Statement(Statement::Break { loop_id: String::new() }),
        ]))),
    });
    let mut labeler = LoopLabeler::new();
    labeler.label_loops(&mut program).expect("Expected loop labeler to succeed");
    let body = main_body(&program);
    match &body.items[0] {
        BlockItem::Statement(Statement::While { loop_id, body, .. }) => {
            assert_eq!(loop_id, "loop.0");
            match body.as_ref() {
                Statement::CompoundStatement(outer_body) => {
                    match &outer_body.items[0] {
                        BlockItem::Statement(Statement::Continue { loop_id }) => assert_eq!(loop_id, "loop.0"),
                        _ => panic!("Expected first outer item to be continue"),
                    }
                    match &outer_body.items[1] {
                        BlockItem::Statement(Statement::While { loop_id, body, .. }) => {
                            assert_eq!(loop_id, "loop.1");
                            match body.as_ref() {
                                Statement::CompoundStatement(inner_body) => {
                                    match &inner_body.items[0] {
                                        BlockItem::Statement(Statement::Break { loop_id }) => assert_eq!(loop_id, "loop.1"),
                                        _ => panic!("Expected first inner item to be break"),
                                    }
                                    match &inner_body.items[1] {
                                        BlockItem::Statement(Statement::Continue { loop_id }) => assert_eq!(loop_id, "loop.1"),
                                        _ => panic!("Expected second inner item to be continue"),
                                    }
                                },
                                _ => panic!("Expected inner while body to be compound"),
                            }
                        },
                        _ => panic!("Expected second outer item to be inner while"),
                    }
                    match &outer_body.items[2] {
                        BlockItem::Statement(Statement::Break { loop_id }) => assert_eq!(loop_id, "loop.0"),
                        _ => panic!("Expected third outer item to be break"),
                    }
                },
                _ => panic!("Expected outer while body to be a compound statement"),
            }
        },
        _ => panic!("Expected top-level statement to be while"),
    }
}

fn case(value: i32, statement: Statement) -> BlockItem {
    BlockItem::Statement(Statement::LabeledStatement {
        label: Label::Case { case_id: String::new(), value: typed(Expression::IntegerConstant(value)) },
        statement: Box::new(statement),
    })
}

#[test]
fn labels_switch_statement_targets_and_arms() {
    let mut program = program_with_statement(Statement::SwitchStatement {
        switch_id: String::new(),
        condition: typed(Expression::Var("x".to_string())),
        body: Box::new(Statement::CompoundStatement(Block::new(vec![
            case(1, Statement::Break { loop_id: String::new() }),
            case(2, Statement::Null),
            BlockItem::Statement(Statement::LabeledStatement {
                label: Label::Default { default_id: String::new() },
                statement: Box::new(Statement::Break { loop_id: String::new() }),
            }),
        ]))),
        arms: Vec::new(),
    });
    let mut labeler = LoopLabeler::new();
    labeler.label_loops(&mut program).expect("Expected loop labeler to succeed");
    let body = main_body(&program);
    match &body.items[0] {
        BlockItem::Statement(Statement::SwitchStatement { switch_id, body, arms, .. }) => {
            assert_eq!(switch_id, "switch.0");
            assert_eq!(arms.len(), 3);
            assert_eq!(arms[0].0, "switch.0.case.1");
            assert_eq!(arms[2].0, "switch.0.default");
            assert!(arms[2].1.is_none());
            match body.as_ref() {
                Statement::CompoundStatement(block) => {
                    match &block.items[0] {
                        BlockItem::Statement(Statement::LabeledStatement { label, statement }) => {
                            match label {
                                Label::Case { case_id, .. } => assert_eq!(case_id, "switch.0.case.1"),
                                _ => panic!("Expected first switch arm to be case"),
                            }
                            match statement.as_ref() {
                                Statement::Break { loop_id } => assert_eq!(loop_id, "switch.0"),
                                _ => panic!("Expected first case statement to be break"),
                            }
                        },
                        _ => panic!("Expected first switch body item to be labeled statement"),
                    }
                    match &block.items[1] {
                        BlockItem::Statement(Statement::LabeledStatement { label, .. }) => match label {
                            Label::Case { case_id, .. } => assert_eq!(case_id, "switch.0.case.2"),
                            _ => panic!("Expected second switch arm to be case"),
                        },
                        _ => panic!("Expected second switch body item to be labeled statement"),
                    }
                    match &block.items[2] {
                        BlockItem::Statement(Statement::LabeledStatement { label, statement }) => {
                            match label {
                                Label::Default { default_id } => assert_eq!(default_id, "switch.0.default"),
                                _ => panic!("Expected third switch arm to be default"),
                            }
                            match statement.as_ref() {
                                Statement::Break { loop_id } => assert_eq!(loop_id, "switch.0"),
                                _ => panic!("Expected default statement to be break"),
                            }
                        },
                        _ => panic!("Expected third switch body item to be labeled statement"),
                    }
                },
                _ => panic!("Expected switch body to be a compound statement"),
            }
        },
        _ => panic!("Expected top-level statement to be switch"),
    }
}

#[test]
fn rejects_duplicate_case_values() {
    let mut program = program_with_statement(Statement::SwitchStatement {
        switch_id: String::new(),
        condition: typed(Expression::IntegerConstant(4)),
        body: Box::new(Statement::CompoundStatement(Block::new(vec![
            case(5, Statement::Null),
            case(4, Statement::Null),
            case(5, Statement::Null),
        ]))),
        arms: Vec::new(),
    });
    let mut labeler = LoopLabeler::new();
    assert_eq!(labeler.label_loops(&mut program), Err("case arm value is already used".to_string()));
}

#[test]
fn rejects_case_outside_switch() {
    let mut program = program_with_statement(Statement::LabeledStatement {
        label: Label::Default { default_id: String::new() },
        statement: Box::new(Statement::Null),
    });
    let mut labeler = LoopLabeler::new();
    assert_eq!(labeler.label_loops(&mut program), Err("not inside a switch statement".to_string()));
}
