use tbcc::ast::{typed, BinaryOp, Block, BlockItem, Expression, ForInit, Statement, UnaryOp};
use tbcc::common::symbol_table_generic::SymbolTable;
use tbcc::semantic::{make_label_name_generator, make_temp_var_name_generator};
use tbcc::tacky::ast::{BinaryOperator, Instruction, UnaryOperator, Value};
use tbcc::tacky::TackyEmitter;

fn make_emitter() -> TackyEmitter {
    TackyEmitter::new(make_label_name_generator(), make_temp_var_name_generator(), SymbolTable::new())
}

fn var(name: &str) -> Value {
    Value::Variable(name.to_string())
}

fn check(stmt: Statement, expected: Vec<Instruction>) {
    let mut emitter = make_emitter();
    let actual = emitter.emit_statement(&stmt).unwrap();
    assert_eq!(expected, actual);
}

fn return_case() {
    check(
        Statement::Return(typed(Expression::IntegerConstant(42))),
        vec![Instruction::Return(Value::IntegerConstant(42))],
    );
}

fn complex_return_case() {
    let stmt = Statement::Return(typed(Expression::UnaryExpr(
        UnaryOp::Negate,
        Box::new(typed(Expression::UnaryExpr(
            UnaryOp::Complement,
            Box::new(typed(Expression::UnaryExpr(
                UnaryOp::Negate,
                Box::new(typed(Expression::IntegerConstant(42))),
            ))),
        ))),
    )));
    check(
        stmt,
        vec![
            Instruction::Unary { op: UnaryOperator::Negate, src: Value::IntegerConstant(42), dst: var("tmp.0") },
            Instruction::Unary { op: UnaryOperator::Complement, src: var("tmp.0"), dst: var("tmp.1") },
            Instruction::Unary { op: UnaryOperator::Negate, src: var("tmp.1"), dst: var("tmp.2") },
            Instruction::Return(var("tmp.2")),
        ],
    );
}

fn binary_case() {
    let stmt = Statement::Return(typed(Expression::BinaryExpr(
        BinaryOp::Add,
        Box::new(typed(Expression::IntegerConstant(1))),
        Box::new(typed(Expression::BinaryExpr(
            BinaryOp::Multiply,
            Box::new(typed(Expression::IntegerConstant(2))),
            Box::new(typed(Expression::IntegerConstant(3))),
        ))),
    )));
    check(
        stmt,
        vec![
            Instruction::Binary {
                op: BinaryOperator::Multiply,
                src1: Value::IntegerConstant(2),
                src2: Value::IntegerConstant(3),
                dst: var("tmp.0"),
            },
            Instruction::Binary {
                op: BinaryOperator::Add,
                src1: Value::IntegerConstant(1),
                src2: var("tmp.0"),
                dst: var("tmp.1"),
            },
            Instruction::Return(var("tmp.1")),
        ],
    );
}

fn shift_case(op: BinaryOp, top: BinaryOperator, a: i32, b: i32) {
    let stmt = Statement::Return(typed(Expression::BinaryExpr(
        op,
        Box::new(typed(Expression::IntegerConstant(a))),
        Box::new(typed(Expression::IntegerConstant(b))),
    )));
    check(
        stmt,
        vec![
            Instruction::Binary {
                op: top,
                src1: Value::IntegerConstant(a),
                src2: Value::IntegerConstant(b),
                dst: var("tmp.0"),
            },
            Instruction::Return(var("tmp.0")),
        ],
    );
}

fn logical_and_case() {
    let stmt = Statement::Return(typed(Expression::BinaryExpr(
        BinaryOp::LogicalAnd,
        Box::new(typed(Expression::IntegerConstant(1))),
        Box::new(typed(Expression::IntegerConstant(0))),
    )));
    check(
        stmt,
        vec![
            Instruction::JumpIfZero { condition: Value::IntegerConstant(1), target: "and_false_0".to_string() },
            Instruction::JumpIfZero { condition: Value::IntegerConstant(0), target: "and_false_0".to_string() },
            Instruction::Copy { src: Value::IntegerConstant(1), dst: var("tmp.0") },
            Instruction::Jump { target: "and_end_0".to_string() },
            Instruction::Label("and_false_0".to_string()),
            Instruction::Copy { src: Value::IntegerConstant(0), dst: var("tmp.0") },
            Instruction::Label("and_end_0".to_string()),
            Instruction::Return(var("tmp.0")),
        ],
    );
}

fn logical_or_case() {
    let stmt = Statement::Return(typed(Expression::BinaryExpr(
        BinaryOp::LogicalOr,
        Box::new(typed(Expression::IntegerConstant(0))),
        Box::new(typed(Expression::IntegerConstant(1))),
    )));
    check(
        stmt,
        vec![
            Instruction::JumpIfNotZero { condition: Value::IntegerConstant(0), target: "or_true_0".to_string() },
            Instruction::JumpIfNotZero { condition: Value::IntegerConstant(1), target: "or_true_0".to_string() },
            Instruction::Copy { src: Value::IntegerConstant(0), dst: var("tmp.0") },
            Instruction::Jump { target: "or_end_0".to_string() },
            Instruction::Label("or_true_0".to_string()),
            Instruction::Copy { src: Value::IntegerConstant(1), dst: var("tmp.0") },
            Instruction::Label("or_end_0".to_string()),
            Instruction::Return(var("tmp.0")),
        ],
    );
}

fn increment_case(op: BinaryOp, top: BinaryOperator, is_postfix: bool) {
    let stmt = Statement::Return(typed(Expression::Assignment {
        left: Box::new(typed(Expression::Var("a".to_string()))),
        right: Box::new(typed(Expression::BinaryExpr(
            op,
            Box::new(typed(Expression::Var("a".to_string()))),
            Box::new(typed(Expression::IntegerConstant(1))),
        ))),
        is_postfix,
    }));
    let binary = Instruction::Binary { op: top, src1: var("a"), src2: Value::IntegerConstant(1), dst: var("tmp.0") };
    let expected = if is_postfix {
        vec![
            binary,
            Instruction::Copy { src: var("a"), dst: var("tmp.1") },
            Instruction::Copy { src: var("tmp.0"), dst: var("a") },
            Instruction::Return(var("tmp.1")),
        ]
    } else {
        vec![binary, Instruction::Copy { src: var("tmp.0"), dst: var("a") }, Instruction::Return(var("a"))]
    };
    check(stmt, expected);
}

#[test]
fn tacky_emit_return() {
    return_case();
}

#[test]
fn tacky_emitter_emit_return() {
    return_case();
}

#[test]
fn tacky_emit_complex_return() {
    complex_return_case();
}

#[test]
fn tacky_emitter_emit_complex_return() {
    complex_return_case();
}

#[test]
fn tacky_emit_binary_expr() {
    binary_case();
}

#[test]
fn tacky_emitter_emit_binary_expr() {
    binary_case();
}

#[test]
fn tacky_emit_shift_left_expr() {
    shift_case(BinaryOp::ShiftLeft, BinaryOperator::ShiftLeft, 8, 2);
}

#[test]
fn tacky_emitter_emit_shift_left_expr() {
    shift_case(BinaryOp::ShiftLeft, BinaryOperator::ShiftLeft, 8, 2);
}

#[test]
fn tacky_emit_shift_right_expr() {
    shift_case(BinaryOp::ShiftRight, BinaryOperator::ShiftRight, 16, 1);
}

#[test]
fn tacky_emitter_emit_shift_right_expr() {
    shift_case(BinaryOp::ShiftRight, BinaryOperator::ShiftRight, 16, 1);
}

#[test]
fn tacky_emit_logical_and_expr() {
    logical_and_case();
}

#[test]
fn tacky_emitter_emit_logical_and_expr() {
    logical_and_case();
}

#[test]
fn tacky_emit_logical_or_expr() {
    logical_or_case();
}

#[test]
fn tacky_emitter_emit_logical_or_expr() {
    logical_or_case();
}

#[test]
fn tacky_emit_prefix_increment_expr() {
    increment_case(BinaryOp::Add, BinaryOperator::Add, false);
}

#[test]
fn tacky_emitter_emit_prefix_increment_expr() {
    increment_case(BinaryOp::Add, BinaryOperator::Add, false);
}

#[test]
fn tacky_emit_postfix_increment_expr() {
    increment_case(BinaryOp::Add, BinaryOperator::Add, true);
}

#[test]
fn tacky_emitter_emit_postfix_increment_expr() {
    increment_case(BinaryOp::Add, BinaryOperator::Add, true);
}

#[test]
fn tacky_emit_prefix_decrement_expr() {
    increment_case(BinaryOp::Subtract, BinaryOperator::Subtract, false);
}

#[test]
fn tacky_emitter_emit_prefix_decrement_expr() {
    increment_case(BinaryOp::Subtract, BinaryOperator::Subtract, false);
}

#[test]
fn tacky_emit_postfix_decrement_expr() {
    increment_case(BinaryOp::Subtract, BinaryOperator::Subtract, true);
}

#[test]
fn tacky_emitter_emit_postfix_decrement_expr() {
    increment_case(BinaryOp::Subtract, BinaryOperator::Subtract, true);
}

#[test]
fn emit_if_statement_without_else() {
    let stmt = Statement::IfStatement {
        condition: typed(Expression::IntegerConstant(1)),
        then_branch: Box::new(Statement::Return(typed(Expression::IntegerConstant(42)))),
        else_branch: None,
    };
    check(
        stmt,
        vec![
            Instruction::JumpIfZero { condition: Value::IntegerConstant(1), target: "if_end_0".to_string() },
            Instruction::Return(Value::IntegerConstant(42)),
            Instruction::Label("if_end_0".to_string()),
        ],
    );
}

#[test]
fn emit_if_statement_with_else() {
    let stmt = Statement::IfStatement {
        condition: typed(Expression::IntegerConstant(1)),
        then_branch: Box::new(Statement::Return(typed(Expression::IntegerConstant(42)))),
        else_branch: Some(Box::new(Statement::Return(typed(Expression::IntegerConstant(0))))),
    };
    check(
        stmt,
        vec![
            Instruction::JumpIfZero { condition: Value::IntegerConstant(1), target: "if_else_0".to_string() },
            Instruction::Return(Value::IntegerConstant(42)),
            Instruction::Jump { target: "if_end_0".to_string() },
            Instruction::Label("if_else_0".to_string()),
            Instruction::Return(Value::IntegerConstant(0)),
            Instruction::Label("if_end_0".to_string()),
        ],
    );
}

#[test]
fn emit_conditional_expression_simple() {
    let stmt = Statement::Return(typed(Expression::ConditionalExpr {
        condition: Box::new(typed(Expression::IntegerConstant(1))),
        then_expr: Box::new(typed(Expression::IntegerConstant(42))),
        else_expr: Box::new(typed(Expression::IntegerConstant(0))),
    }));
    check(
        stmt,
        vec![
            Instruction::JumpIfZero { condition: Value::IntegerConstant(1), target: "cond_else_0".to_string() },
            Instruction::Copy { src: Value::IntegerConstant(42), dst: var("tmp.0") },
            Instruction::Jump { target: "cond_end_0".to_string() },
            Instruction::Label("cond_else_0".to_string()),
            Instruction::Copy { src: Value::IntegerConstant(0), dst: var("tmp.0") },
            Instruction::Label("cond_end_0".to_string()),
            Instruction::Return(var("tmp.0")),
        ],
    );
}

#[test]
fn emit_nested_if_dangling_else_binds_to_inner_if() {
    let stmt = Statement::IfStatement {
        condition: typed(Expression::Var("a".to_string())),
        then_branch: Box::new(Statement::IfStatement {
            condition: typed(Expression::Var("b".to_string())),
            then_branch: Box::new(Statement::Return(typed(Expression::IntegerConstant(1)))),
            else_branch: Some(Box::new(Statement::Return(typed(Expression::IntegerConstant(2))))),
        }),
        else_branch: None,
    };
    check(
        stmt,
        vec![
            Instruction::JumpIfZero { condition: var("a"), target: "if_end_0".to_string() },
            Instruction::JumpIfZero { condition: var("b"), target: "if_else_0".to_string() },
            Instruction::Return(Value::IntegerConstant(1)),
            Instruction::Jump { target: "if_end_1".to_string() },
            Instruction::Label("if_else_0".to_string()),
            Instruction::Return(Value::IntegerConstant(2)),
            Instruction::Label("if_end_1".to_string()),
            Instruction::Label("if_end_0".to_string()),
        ],
    );
}

fn break_continue_body(id: &str) -> Box<Statement> {
    Box::new(Statement::CompoundStatement(Block::new(vec![
        BlockItem::Statement(Statement::Break { loop_id: id.to_string() }),
        BlockItem::Statement(Statement::Continue { loop_id: id.to_string() }),
    ])))
}

#[test]
fn emit_while_with_break_and_continue() {
    let stmt = Statement::While {
        loop_id: "loop.0".to_string(),
        condition: typed(Expression::IntegerConstant(1)),
        body: break_continue_body("loop.0"),
    };
    check(
        stmt,
        vec![
            Instruction::Label("continue.loop.0".to_string()),
            Instruction::JumpIfZero { condition: Value::IntegerConstant(1), target: "break.loop.0".to_string() },
            Instruction::Jump { target: "break.loop.0".to_string() },
            Instruction::Jump { target: "continue.loop.0".to_string() },
            Instruction::Jump { target: "continue.loop.0".to_string() },
            Instruction::Label("break.loop.0".to_string()),
        ],
    );
}

#[test]
fn emit_do_while_with_break_and_continue() {
    let stmt = Statement::DoWhile {
        loop_id: "loop.1".to_string(),
        condition: typed(Expression::IntegerConstant(1)),
        body: break_continue_body("loop.1"),
    };
    check(
        stmt,
        vec![
            Instruction::Label("start.loop.1".to_string()),
            Instruction::Jump { target: "break.loop.1".to_string() },
            Instruction::Jump { target: "continue.loop.1".to_string() },
            Instruction::Label("continue.loop.1".to_string()),
            Instruction::JumpIfNotZero { condition: Value::IntegerConstant(1), target: "start.loop.1".to_string() },
            Instruction::Label("break.loop.1".to_string()),
        ],
    );
}

#[test]
fn emit_func_call_no_args() {
    let stmt = Statement::Return(typed(Expression::FuncCall { name: "foo".to_string(), args: vec![] }));
    check(
        stmt,
        vec![
            Instruction::FunctionCall { name: "foo".to_string(), arguments: vec![], dst: var("tmp.0") },
            Instruction::Return(var("tmp.0")),
        ],
    );
}

#[test]
fn emit_func_call_with_args() {
    let stmt = Statement::Return(typed(Expression::FuncCall {
        name: "bar".to_string(),
        args: vec![
            typed(Expression::IntegerConstant(1)),
            typed(Expression::BinaryExpr(
                BinaryOp::Add,
                Box::new(typed(Expression::IntegerConstant(2))),
                Box::new(typed(Expression::IntegerConstant(3))),
            )),
        ],
    }));
    check(
        stmt,
        vec![
            Instruction::Binary {
                op: BinaryOperator::Add,
                src1: Value::IntegerConstant(2),
                src2: Value::IntegerConstant(3),
                dst: var("tmp.0"),
            },
            Instruction::FunctionCall {
                name: "bar".to_string(),
                arguments: vec![Value::IntegerConstant(1), var("tmp.0")],
                dst: var("tmp.1"),
            },
            Instruction::Return(var("tmp.1")),
        ],
    );
}

#[test]
fn emit_for_with_break_and_continue() {
    let stmt = Statement::For {
        loop_id: "loop.2".to_string(),
        init: ForInit::InitExpression(None),
        condition: Some(typed(Expression::IntegerConstant(1))),
        post: None,
        body: break_continue_body("loop.2"),
    };
    check(
        stmt,
        vec![
            Instruction::Label("start.loop.2".to_string()),
            Instruction::JumpIfZero { condition: Value::IntegerConstant(1), target: "break.loop.2".to_string() },
            Instruction::Jump { target: "break.loop.2".to_string() },
            Instruction::Jump { target: "continue.loop.2".to_string() },
            Instruction::Label("continue.loop.2".to_string()),
            Instruction::Jump { target: "start.loop.2".to_string() },
            Instruction::Label("break.loop.2".to_string()),
        ],
    );
}
