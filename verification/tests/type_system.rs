use ijssel::parser::expression::{
    ArrayExpression, BinaryExpression, BlockExpression, CallExpression, Expression,
    FunctionExpression, NumberLiteralExpression, VariableExpression,
};
use ijssel::parser::number::Number;
use ijssel::parser::tokenizer::BinaryOperator;
use ijssel::type_system::{Type, TypeError};

#[test]
fn numeric_literal_type() {
    assert_eq!(
        NumberLiteralExpression::new(Number::from_u64(12)).infer_type(),
        Ok(Type::Int32)
    );
}

#[test]
fn binary_simple_numeric() {
    let expr = BinaryExpression::new(
        BinaryOperator::Mul,
        Expression::NumberLiteral(Box::new(NumberLiteralExpression::new(Number::from_u64(12)))),
        Expression::NumberLiteral(Box::new(NumberLiteralExpression::new(Number::from_u64(12)))),
    );

    assert_eq!(expr.infer_type(), Ok(Type::Int32));
}

#[test]
fn binary_nested_numeric() {
    let left_expr = BinaryExpression::new(
        BinaryOperator::Mul,
        Expression::NumberLiteral(Box::new(NumberLiteralExpression::new(Number::from_u64(12)))),
        Expression::NumberLiteral(Box::new(NumberLiteralExpression::new(Number::from_u64(20)))),
    );

    let expr = BinaryExpression::new(
        BinaryOperator::Add,
        Expression::Binary(Box::new(left_expr)),
        Expression::NumberLiteral(Box::new(NumberLiteralExpression::new(Number::from_u64(19)))),
    );

    assert_eq!(expr.infer_type(), Ok(Type::Int32));
}

fn literal(n: u64) -> Expression {
    Expression::NumberLiteral(Box::new(NumberLiteralExpression::new(Number::from_u64(n))))
}

fn typed_variable(name: &str, return_type: Type) -> Expression {
    Expression::Variable(Box::new(VariableExpression { binding: String::from(name), return_type }))
}

#[test]
fn addition_of_two_integers_is_an_integer() {
    let expr = Expression::Binary(Box::new(BinaryExpression::new(
        BinaryOperator::Add,
        literal(1),
        literal(2),
    )));
    assert_eq!(expr.infer_type(), Ok(Type::Int32));
}

#[test]
fn operands_of_different_types_are_an_error() {
    let expr = BinaryExpression::new(
        BinaryOperator::Add,
        literal(1),
        typed_variable("x", Type::User(String::from("Foo"))),
    );
    assert_eq!(expr.infer_type(), Err(TypeError::IncompatibleOperandTypes));
    let expr = BinaryExpression::new(
        BinaryOperator::Add,
        typed_variable("x", Type::User(String::from("Foo"))),
        literal(1),
    );
    assert_eq!(expr.infer_type(), Err(TypeError::IncompatibleOperandTypes));
}

#[test]
fn an_error_inside_an_operand_is_the_error_of_the_whole() {
    let wrong = Expression::Binary(Box::new(BinaryExpression::new(
        BinaryOperator::Mul,
        literal(1),
        typed_variable("x", Type::Void),
    )));
    let expr = Expression::Binary(Box::new(BinaryExpression::new(
        BinaryOperator::Add,
        literal(1),
        wrong,
    )));
    assert_eq!(expr.infer_type(), Err(TypeError::IncompatibleOperandTypes));
}

#[test]
fn operands_of_one_user_type_have_that_type() {
    let expr = BinaryExpression::new(
        BinaryOperator::Sub,
        typed_variable("x", Type::User(String::from("Foo"))),
        typed_variable("y", Type::User(String::from("Foo"))),
    );
    assert_eq!(expr.infer_type(), Ok(Type::User(String::from("Foo"))));
    let expr = BinaryExpression::new(
        BinaryOperator::Sub,
        typed_variable("x", Type::User(String::from("Foo"))),
        typed_variable("y", Type::User(String::from("Bar"))),
    );
    assert_eq!(expr.infer_type(), Err(TypeError::IncompatibleOperandTypes));
}

#[test]
fn a_literal_has_the_type_it_carries() {
    let literal = NumberLiteralExpression {
        number: Number::from_u64(1),
        return_type: Type::ListOf(Box::new(Type::Int32), 2),
    };
    assert_eq!(literal.infer_type(), Ok(Type::ListOf(Box::new(Type::Int32), 2)));
}

#[test]
fn what_is_not_inferred_is_unknown() {
    assert_eq!(typed_variable("x", Type::Unknown).infer_type(), Ok(Type::Unknown));
    assert_eq!(typed_variable("x", Type::Int32).infer_type(), Ok(Type::Int32));
    let call = Expression::Call(Box::new(CallExpression::new(String::from("f"), vec![])));
    assert_eq!(call.infer_type(), Ok(Type::Unknown));
    let array = Expression::Array(Box::new(ArrayExpression::new(vec![literal(1)])));
    assert_eq!(array.infer_type(), Ok(Type::Unknown));
    let function = Expression::Function(Box::new(FunctionExpression::new(
        "f",
        BlockExpression::new(vec![], Type::Int32),
        vec![],
    )));
    assert_eq!(function.infer_type(), Ok(Type::Unknown));
    // a call beside an integer: the types differ
    let expr = BinaryExpression::new(
        BinaryOperator::Add,
        literal(1),
        Expression::Call(Box::new(CallExpression::new(String::from("f"), vec![]))),
    );
    assert_eq!(expr.infer_type(), Err(TypeError::IncompatibleOperandTypes));
}
