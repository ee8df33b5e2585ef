use leo_passes::ast::{
    AccessExpression, BinaryOperation, CallExpression, CoreType, Expression, StructExpression,
    StructVariableInitializer, Type, UnaryOperation,
};
use leo_passes::codegen::{CodeGenerator, CodegenError, CompositeSymbol, Environment, FunctionSymbol};
use leo_passes::instruction::{decimal_string, join_with_spaces, register_name, render, Instruction};

fn s(text: &str) -> String {
    text.to_string()
}

fn ident(name: &str) -> Expression {
    Expression::Identifier(s(name))
}

fn lit(text: &str) -> Expression {
    Expression::Literal(s(text))
}

fn binary(left: Expression, op: BinaryOperation, right: Expression) -> Expression {
    Expression::Binary { left: Box::new(left), op, right: Box::new(right) }
}

fn call(function: &str, arguments: Vec<Expression>) -> Expression {
    Expression::Call(CallExpression { function: s(function), arguments, external: None })
}

fn function(name: &str, output_type: Type) -> FunctionSymbol {
    FunctionSymbol { name: s(name), output_type }
}

fn env() -> Environment {
    Environment {
        functions: vec![
            function("f", Type::Unit),
            function("g", Type::Identifier(s("u8"))),
            function("pair", Type::Tuple(vec![Type::Identifier(s("u8")), Type::Identifier(s("u8"))])),
            function("triple", Type::Tuple(vec![Type::Unit, Type::Unit, Type::Unit])),
            function("single", Type::Tuple(vec![Type::Identifier(s("u8"))])),
            function("transfer", Type::Identifier(s("token"))),
        ],
        composite_mapping: vec![
            CompositeSymbol { name: s("Point"), is_record: false, visibility: s("") },
            CompositeSymbol { name: s("token"), is_record: true, visibility: s("private") },
        ],
        variable_mapping: vec![
            (s("a"), s("r10")),
            (s("b"), s("r11")),
            (s("v"), s("v")),
            (s("x"), s("x")),
            (s("owner"), s("r12")),
        ],
    }
}

fn emit(e: &Expression) -> Result<(String, String), CodegenError> {
    let mut g = CodeGenerator::new(env());
    g.emit_expression(e)
}

#[test]
fn identifier_uses_its_storage() {
    assert_eq!(emit(&ident("a")), Ok((s("r10"), s(""))));
}

#[test]
fn literal_is_its_text() {
    assert_eq!(emit(&lit("1u8")), Ok((s("1u8"), s(""))));
}

#[test]
fn binary_add() {
    assert_eq!(
        emit(&binary(ident("a"), BinaryOperation::Add, ident("b"))),
        Ok((s("r0"), s("    add r10 r11 into r0;\n")))
    );
}

#[test]
fn binary_opcodes() {
    let cases = [
        (BinaryOperation::AddWrapped, "add.w"),
        (BinaryOperation::Eq, "is.eq"),
        (BinaryOperation::Neq, "is.neq"),
        (BinaryOperation::BitwiseAnd, "and"),
        (BinaryOperation::BitwiseOr, "or"),
        (BinaryOperation::ShrWrapped, "shr.w"),
        (BinaryOperation::Xor, "xor"),
    ];
    for (op, opcode) in cases {
        let (_, text) = emit(&binary(lit("1u8"), op, lit("2u8"))).unwrap();
        assert_eq!(text, format!("    {opcode} 1u8 2u8 into r0;\n"));
    }
}

#[test]
fn binary_evaluation_order() {
    // (a + b) * (a - b): left operand first, then right, then the product.
    let e = binary(
        binary(ident("a"), BinaryOperation::Add, ident("b")),
        BinaryOperation::Mul,
        binary(ident("a"), BinaryOperation::Sub, ident("b")),
    );
    assert_eq!(
        emit(&e),
        Ok((
            s("r2"),
            s("    add r10 r11 into r0;\n    sub r10 r11 into r1;\n    mul r0 r1 into r2;\n")
        ))
    );
}

#[test]
fn registers_increase_without_gaps() {
    let mut g = CodeGenerator::new(env());
    let e = binary(
        Expression::Unary { op: UnaryOperation::Negate, receiver: Box::new(ident("a")) },
        BinaryOperation::Add,
        Expression::Tuple(vec![ident("b")]),
    );
    let lowered = g.visit_expression(&e).unwrap();
    let mut dests = Vec::new();
    for i in &lowered.instructions {
        match i {
            Instruction::Binary { destination, .. } | Instruction::Unary { destination, .. } => {
                dests.push(*destination)
            }
            _ => panic!("unexpected instruction"),
        }
    }
    assert_eq!(dests, vec![0, 1]);
    assert_eq!(g.next_register, 2);
    // A second expression goes on from where the first stopped.
    let (value, _) = g.emit_expression(&binary(ident("a"), BinaryOperation::Add, ident("a"))).unwrap();
    assert_eq!(value, "r2");
}

#[test]
fn unary_abs() {
    let e = Expression::Unary { op: UnaryOperation::AbsWrapped, receiver: Box::new(ident("a")) };
    assert_eq!(emit(&e), Ok((s("r0"), s("    abs.w r10 into r0;\n"))));
    let e = Expression::Unary { op: UnaryOperation::SquareRoot, receiver: Box::new(ident("a")) };
    assert_eq!(emit(&e), Ok((s("r0"), s("    sqrt r10 into r0;\n"))));
}

#[test]
fn ternary_evaluates_all_three() {
    let e = Expression::Ternary {
        condition: Box::new(binary(ident("a"), BinaryOperation::Lt, ident("b"))),
        if_true: Box::new(ident("a")),
        if_false: Box::new(binary(ident("a"), BinaryOperation::Sub, ident("b"))),
    };
    assert_eq!(
        emit(&e),
        Ok((
            s("r2"),
            s("    lt r10 r11 into r0;\n    sub r10 r11 into r1;\n    ternary r0 r10 r1 into r2;\n")
        ))
    );
}

#[test]
fn struct_init_casts() {
    let e = Expression::Struct(StructExpression {
        name: s("Point"),
        members: vec![
            StructVariableInitializer { identifier: s("x"), expression: Some(lit("1u8")) },
            StructVariableInitializer { identifier: s("a"), expression: None },
        ],
    });
    assert_eq!(emit(&e), Ok((s("r0"), s("    cast 1u8 r10 into r0 as Point;\n"))));
}

#[test]
fn record_init_carries_visibility() {
    let e = Expression::Struct(StructExpression {
        name: s("token"),
        members: vec![
            StructVariableInitializer { identifier: s("owner"), expression: None },
            StructVariableInitializer {
                identifier: s("amount"),
                expression: Some(binary(ident("a"), BinaryOperation::Add, ident("b"))),
            },
        ],
    });
    assert_eq!(
        emit(&e),
        Ok((s("r1"), s("    add r10 r11 into r0;\n    cast r12 r0 into r1 as token.private;\n")))
    );
}

#[test]
fn unknown_composite_fails() {
    let e = Expression::Struct(StructExpression { name: s("Missing"), members: vec![] });
    assert_eq!(emit(&e), Err(CodegenError::UnknownComposite(s("Missing"))));
}

#[test]
fn member_access_is_text() {
    let e = Expression::Access(AccessExpression::Member { inner: Box::new(ident("owner")), name: s("amount") });
    assert_eq!(emit(&e), Ok((s("r12.amount"), s(""))));
}

#[test]
fn associated_function_bhp256() {
    let e = Expression::Access(AccessExpression::AssociatedFunction {
        ty: Type::Core(CoreType::BHP256),
        name: s("hash"),
        args: vec![ident("v")],
    });
    assert_eq!(emit(&e), Ok((s("r0"), s("    hash.bhp256 v into r0;\n"))));
}

#[test]
fn associated_function_opcodes() {
    let cases = [
        (CoreType::BHP1024, "bhp1024"),
        (CoreType::Pedersen64, "ped64"),
        (CoreType::Pedersen128, "ped128"),
        (CoreType::Poseidon2, "psd2"),
        (CoreType::Poseidon8, "psd8"),
    ];
    for (core, opcode) in cases {
        let e = Expression::Access(AccessExpression::AssociatedFunction {
            ty: Type::Core(core),
            name: s("commit"),
            args: vec![ident("a"), lit("1scalar")],
        });
        let (_, text) = emit(&e).unwrap();
        assert_eq!(text, format!("    commit.{opcode} r10 1scalar into r0;\n"));
    }
}

#[test]
fn associated_function_on_other_type_fails() {
    let e = Expression::Access(AccessExpression::AssociatedFunction {
        ty: Type::Identifier(s("Foo")),
        name: s("hash"),
        args: vec![],
    });
    assert_eq!(emit(&e), Err(CodegenError::UnknownCoreType));
}

#[test]
fn unsupported_access_fails() {
    let e = Expression::Access(AccessExpression::AssociatedConstant { ty: Type::Unit, name: s("MAX") });
    assert_eq!(emit(&e), Err(CodegenError::UnsupportedAccess));
    let e = Expression::Access(AccessExpression::Tuple { tuple: Box::new(ident("a")), index: 0 });
    assert_eq!(emit(&e), Err(CodegenError::UnsupportedAccess));
}

#[test]
fn unit_call_has_no_destination() {
    assert_eq!(emit(&call("f", vec![ident("x")])), Ok((s(""), s("    call f x;\n"))));
}

#[test]
fn call_with_one_output() {
    assert_eq!(emit(&call("g", vec![ident("a"), lit("3u8")])), Ok((s("r0"), s("    call g r10 3u8 into r0;\n"))));
}

#[test]
fn call_with_tuple_output() {
    assert_eq!(emit(&call("pair", vec![ident("a")])), Ok((s("r0 r1"), s("    call pair r10 into r0 r1;\n"))));
    assert_eq!(emit(&call("triple", vec![])), Ok((s("r0 r1 r2"), s("    call triple into r0 r1 r2;\n"))));
}

#[test]
fn external_call_is_qualified() {
    let e = Expression::Call(CallExpression {
        function: s("transfer"),
        arguments: vec![ident("a")],
        external: Some(s("token")),
    });
    assert_eq!(emit(&e), Ok((s("r0"), s("    call token.aleo/transfer r10 into r0;\n"))));
}

#[test]
fn call_errors() {
    assert_eq!(emit(&call("missing", vec![])), Err(CodegenError::UnknownFunction(s("missing"))));
    assert_eq!(emit(&call("single", vec![])), Err(CodegenError::ShortTupleType));
}

#[test]
fn tuple_joins_references() {
    let e = Expression::Tuple(vec![ident("a"), binary(ident("a"), BinaryOperation::Add, ident("b")), lit("1u8")]);
    assert_eq!(emit(&e), Ok((s("r10 r0 1u8"), s("    add r10 r11 into r0;\n"))));
}

#[test]
fn unmapped_variable_fails() {
    assert_eq!(emit(&ident("nope")), Err(CodegenError::UnmappedVariable(s("nope"))));
    let e = binary(ident("a"), BinaryOperation::Add, ident("nope"));
    assert_eq!(emit(&e), Err(CodegenError::UnmappedVariable(s("nope"))));
}

#[test]
fn unit_and_error_expressions_fail() {
    assert_eq!(emit(&Expression::Unit), Err(CodegenError::UnitExpression));
    assert_eq!(emit(&Expression::Error), Err(CodegenError::ErrorExpression));
}

#[test]
fn register_overflow_fails() {
    let mut g = CodeGenerator::new(env());
    g.next_register = u64::MAX;
    let r = g.emit_expression(&binary(ident("a"), BinaryOperation::Add, ident("b")));
    assert_eq!(r, Err(CodegenError::RegisterOverflow));
    let mut g = CodeGenerator::new(env());
    g.next_register = u64::MAX - 1;
    assert_eq!(g.emit_expression(&call("pair", vec![])), Err(CodegenError::RegisterOverflow));
}

#[test]
fn register_names_are_decimal() {
    assert_eq!(decimal_string(0), "0");
    assert_eq!(decimal_string(1234), "1234");
    assert_eq!(register_name(7), "r7");
    assert_eq!(register_name(u64::MAX), format!("r{}", u64::MAX));
}

#[test]
fn join_and_render() {
    assert_eq!(join_with_spaces(&vec![]), "");
    assert_eq!(join_with_spaces(&vec![s("a"), s("b"), s("c")]), "a b c");
    let instrs = vec![
        Instruction::Cast { operands: vec![], destination: 3, target_type: s("Empty") },
        Instruction::Call { callee: s("h"), args: vec![s("r3")], destinations: vec![4, 5] },
    ];
    assert_eq!(render(&instrs), "    cast into r3 as Empty;\n    call h r3 into r4 r5;\n");
}

#[test]
fn member_access_keeps_base_instructions() {
    let e = Expression::Access(AccessExpression::Member {
        inner: Box::new(call("g", vec![ident("a")])),
        name: s("amount"),
    });
    assert_eq!(emit(&e), Ok((s("r0.amount"), s("    call g r10 into r0;\n"))));
}
