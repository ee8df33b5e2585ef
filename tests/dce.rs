use leo_passes::ast::{
    AssertVariant, BinaryOperation, Block, CallExpression, Expression, Statement, StructExpression,
    StructVariableInitializer,
};
use leo_passes::dce::{DceError, DeadCodeEliminator};

fn s(text: &str) -> String {
    text.to_string()
}

fn ident(name: &str) -> Expression {
    Expression::Identifier(s(name))
}

fn lit(text: &str) -> Expression {
    Expression::Literal(s(text))
}

fn binary(left: Expression, op: BinaryOperation, right: Expression) -> Expression {
    Expression::Binary { left: Box::new(left), op, right: Box::new(right) }
}

fn assign(name: &str, value: Expression) -> Statement {
    Statement::Assign { place: ident(name), value }
}

fn ret(e: Expression) -> Statement {
    Statement::Return { expression: e, finalize_arguments: None }
}

fn body(statements: Vec<Statement>) -> Block {
    Block { statements }
}

fn is_dummy(s: &Statement) -> bool {
    matches!(s, Statement::Block(b) if b.statements.is_empty())
}

#[test]
fn unused_chain_is_removed() {
    let input = body(vec![
        assign("x", binary(ident("a"), BinaryOperation::Add, ident("b"))),
        assign("y", binary(ident("x"), BinaryOperation::Mul, ident("x"))),
        ret(ident("a")),
    ]);
    let out = DeadCodeEliminator::do_pass(input).unwrap();
    assert_eq!(out.statements.len(), 3);
    assert!(is_dummy(&out.statements[0]));
    assert!(is_dummy(&out.statements[1]));
    assert_eq!(out.statements[2], ret(ident("a")));
}

fn flattened_example() -> Block {
    body(vec![
        assign("$var$0", binary(ident("flag"), BinaryOperation::Eq, lit("0u8"))),
        assign("$var$4$5", binary(ident("value"), BinaryOperation::Mul, ident("value"))),
        assign("$var$1", ident("$var$4$5")),
        assign("value$2", ident("$var$1")),
        assign(
            "value$3",
            Expression::Ternary {
                condition: Box::new(ident("$var$0")),
                if_true: Box::new(ident("value$2")),
                if_false: Box::new(ident("value")),
            },
        ),
        assign("value$6", binary(ident("$var$1"), BinaryOperation::Mul, ident("$var$1"))),
        ret(ident("value$3")),
    ])
}

#[test]
fn flattened_function_keeps_what_return_needs() {
    let expected = flattened_example();
    let out = DeadCodeEliminator::do_pass(flattened_example()).unwrap();
    assert_eq!(out.statements.len(), 7);
    for i in [0usize, 1, 2, 3, 4, 6] {
        assert_eq!(out.statements[i], expected.statements[i]);
    }
    assert!(is_dummy(&out.statements[5]));
}

#[test]
fn second_run_changes_nothing() {
    let once = DeadCodeEliminator::do_pass(flattened_example()).unwrap();
    let again = DeadCodeEliminator::do_pass(DeadCodeEliminator::do_pass(flattened_example()).unwrap()).unwrap();
    assert_eq!(once, again);
}

#[test]
fn effects_are_always_kept() {
    let input = body(vec![
        assign("p", lit("1u8")),
        assign("q", lit("2u8")),
        assign("r", lit("3u8")),
        assign("t", lit("4u8")),
        Statement::Assert(AssertVariant::AssertEq(ident("p"), lit("1u8"))),
        Statement::Increment { mapping: s("balances"), index: ident("q"), amount: lit("1u64") },
        Statement::Decrement { mapping: s("balances"), index: ident("r"), amount: lit("1u64") },
        Statement::Expression(Expression::Call(CallExpression {
            function: s("log"),
            arguments: vec![ident("t")],
            external: None,
        })),
    ]);
    let out = DeadCodeEliminator::do_pass(input).unwrap();
    assert!(out.statements.iter().all(|st| !is_dummy(st)));
}

#[test]
fn tuple_assignment_kept_when_one_part_is_used() {
    let input = body(vec![
        Statement::Assign {
            place: Expression::Tuple(vec![ident("u"), ident("w")]),
            value: Expression::Tuple(vec![ident("a"), ident("b")]),
        },
        assign("unused", ident("u")),
        ret(ident("w")),
    ]);
    let out = DeadCodeEliminator::do_pass(input).unwrap();
    assert!(!is_dummy(&out.statements[0]));
    assert!(is_dummy(&out.statements[1]));
}

#[test]
fn return_finalize_arguments_are_live() {
    let input = body(vec![
        assign("k", lit("5u8")),
        Statement::Return { expression: lit("0u8"), finalize_arguments: Some(vec![ident("k")]) },
    ]);
    let out = DeadCodeEliminator::do_pass(input).unwrap();
    assert!(!is_dummy(&out.statements[0]));
}

#[test]
fn liveness_tracks_struct_members() {
    let mut dce = DeadCodeEliminator::new();
    dce.is_necessary = true;
    let e = Expression::Struct(StructExpression {
        name: s("Point"),
        members: vec![StructVariableInitializer { identifier: s("x"), expression: Some(ident("m")) }],
    });
    assert!(dce.reconstruct_expression(e).is_ok());
    assert!(dce.is_used(&s("m")));
    assert!(!dce.is_used(&s("x")));
}

#[test]
fn identifiers_outside_kept_statements_are_not_live() {
    let mut dce = DeadCodeEliminator::new();
    let e = dce.reconstruct_identifier(s("z"));
    assert_eq!(e, ident("z"));
    assert!(!dce.is_used(&s("z")));
    dce.is_necessary = true;
    dce.reconstruct_identifier(s("z"));
    assert!(dce.is_used(&s("z")));
}

#[test]
fn shorthand_member_in_kept_statement_fails() {
    let input = body(vec![ret(Expression::Struct(StructExpression {
        name: s("Point"),
        members: vec![StructVariableInitializer { identifier: s("x"), expression: None }],
    }))]);
    assert_eq!(DeadCodeEliminator::do_pass(input), Err(DceError::MissingMemberExpression));
    let mut dce = DeadCodeEliminator::new();
    let r = dce.reconstruct_struct_init(StructExpression {
        name: s("Point"),
        members: vec![StructVariableInitializer { identifier: s("x"), expression: None }],
    });
    assert_eq!(r, Err(DceError::MissingMemberExpression));
}

#[test]
fn phase_violations_fail() {
    let cond = Statement::Conditional {
        condition: lit("true"),
        consequent: body(vec![]),
        alternative: None,
    };
    assert_eq!(DeadCodeEliminator::do_pass(body(vec![cond])), Err(DceError::UnexpectedConditional));
    assert_eq!(
        DeadCodeEliminator::do_pass(body(vec![Statement::Console(lit("1u8"))])),
        Err(DceError::UnexpectedConsole)
    );
    let def = Statement::Definition { place: ident("d"), value: lit("1u8") };
    assert_eq!(DeadCodeEliminator::do_pass(body(vec![def])), Err(DceError::UnexpectedDefinition));
    let iter = Statement::Iteration { variable: s("i"), start: lit("0u8"), stop: lit("3u8"), block: body(vec![]) };
    assert_eq!(DeadCodeEliminator::do_pass(body(vec![iter])), Err(DceError::UnexpectedIteration));
    assert_eq!(
        DeadCodeEliminator::do_pass(body(vec![Statement::Expression(ident("a"))])),
        Err(DceError::NonCallExpressionStatement)
    );
    let bad_place = Statement::Assign { place: lit("1u8"), value: lit("2u8") };
    assert_eq!(DeadCodeEliminator::do_pass(body(vec![bad_place])), Err(DceError::InvalidAssignPlace));
}

#[test]
fn nested_blocks_share_liveness() {
    let input = body(vec![
        Statement::Block(body(vec![assign("n", lit("1u8")), assign("o", lit("2u8"))])),
        Statement::Assert(AssertVariant::Assert(ident("n"))),
    ]);
    let out = DeadCodeEliminator::do_pass(input).unwrap();
    match &out.statements[0] {
        Statement::Block(b) => {
            assert!(!is_dummy(&b.statements[0]));
            assert!(is_dummy(&b.statements[1]));
        }
        _ => panic!("expected a block"),
    }
}

#[test]
fn assertion_is_kept_whatever_the_flag() {
    let mut dce = DeadCodeEliminator::new();
    dce.is_necessary = true;
    let r = dce.reconstruct_assert(AssertVariant::AssertNeq(ident("e"), lit("0u8")));
    assert_eq!(r, Ok(Statement::Assert(AssertVariant::AssertNeq(ident("e"), lit("0u8")))));
    assert!(dce.is_used(&s("e")));
    assert!(!dce.is_necessary);
}
