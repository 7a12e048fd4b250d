use ijssel::modules::module::ModuleError;
use ijssel::modules::{Module, ModuleFunction};
use ijssel::parser::expression::{
    BlockExpression, Expression, ExternFunctionExpression, FunctionArgument, FunctionExpression,
    NumberLiteralExpression, VariableExpression,
};
use ijssel::parser::module::AstModule;
use ijssel::parser::number::Number;
use ijssel::parser::types::Type;

fn local(name: &str, statements: Vec<Expression>) -> FunctionExpression {
    FunctionExpression::new(name, BlockExpression::new(statements, Type::Unknown), vec![])
}

fn external(name: &str, return_type: Type) -> ExternFunctionExpression {
    ExternFunctionExpression::new(
        name,
        vec![FunctionArgument::new(String::from("a"), Type::Int32)],
        return_type,
    )
}

fn literal(n: u64) -> Expression {
    Expression::NumberLiteral(Box::new(NumberLiteralExpression::new(Number::from_u64(n))))
}

fn ast(expressions: Vec<Expression>) -> AstModule {
    AstModule { name: String::from("Main"), expressions }
}

#[test]
fn declarations_become_entries_in_order() {
    let module = Module::from_ast_module(ast(vec![
        Expression::ExternFunction(Box::new(external("add", Type::Int32))),
        Expression::Function(Box::new(local("main", vec![literal(1)]))),
    ]))
    .unwrap();
    assert_eq!(module.name, "Main");
    assert_eq!(
        module.functions,
        vec![
            ModuleFunction::External(external("add", Type::Int32)),
            ModuleFunction::Local(local("main", vec![literal(1)])),
        ]
    );
}

#[test]
fn the_later_of_two_declarations_of_one_name_is_kept() {
    let module = Module::from_ast_module(ast(vec![
        Expression::Function(Box::new(local("f", vec![literal(1)]))),
        Expression::Function(Box::new(local("f", vec![literal(2)]))),
    ]))
    .unwrap();
    assert_eq!(module.functions, vec![ModuleFunction::Local(local("f", vec![literal(2)]))]);
}

#[test]
fn a_later_declaration_takes_the_place_of_the_earlier() {
    let module = Module::from_ast_module(ast(vec![
        Expression::Function(Box::new(local("f", vec![literal(1)]))),
        Expression::Function(Box::new(local("g", vec![]))),
        Expression::ExternFunction(Box::new(external("f", Type::Void))),
        Expression::Function(Box::new(local("h", vec![]))),
        Expression::Function(Box::new(local("g", vec![literal(3)]))),
    ]))
    .unwrap();
    assert_eq!(
        module.functions,
        vec![
            ModuleFunction::External(external("f", Type::Void)),
            ModuleFunction::Local(local("g", vec![literal(3)])),
            ModuleFunction::Local(local("h", vec![])),
        ]
    );
    assert_eq!(module.position(&String::from("f")), Some(0));
    assert_eq!(module.position(&String::from("h")), Some(2));
    assert_eq!(module.position(&String::from("i")), None);
}

#[test]
fn the_module_keeps_the_name() {
    let module = Module::from_ast_module(AstModule {
        name: String::from("Other"),
        expressions: vec![],
    })
    .unwrap();
    assert_eq!(module.name, "Other");
    assert!(module.functions.is_empty());
}

#[test]
fn an_expression_that_is_no_declaration_is_an_error() {
    let built = Module::from_ast_module(ast(vec![
        Expression::Function(Box::new(local("f", vec![]))),
        literal(1),
        Expression::Variable(Box::new(VariableExpression::new(String::from("x")))),
    ]));
    assert_eq!(built, Err(ModuleError::InvalidTopLevelExpression(1)));
    let built = Module::from_ast_module(ast(vec![Expression::Variable(Box::new(
        VariableExpression::new(String::from("x")),
    ))]));
    assert_eq!(built, Err(ModuleError::InvalidTopLevelExpression(0)));
}

#[test]
fn module_function_from_an_expression() {
    assert_eq!(
        ModuleFunction::from(&Expression::Function(Box::new(local("f", vec![literal(1)])))),
        Some(ModuleFunction::Local(local("f", vec![literal(1)])))
    );
    assert_eq!(
        ModuleFunction::from(&Expression::ExternFunction(Box::new(external("g", Type::Void)))),
        Some(ModuleFunction::External(external("g", Type::Void)))
    );
    assert_eq!(ModuleFunction::from(&literal(1)), None);
    assert_eq!(ModuleFunction::Local(local("f", vec![])).name(), "f");
    assert_eq!(ModuleFunction::External(external("g", Type::Void)).name(), "g");
}
