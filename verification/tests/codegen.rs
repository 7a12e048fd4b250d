use ijssel::codegen::backend::{
    BackendBlock, BackendFunction, BackendModule, BackendType, Instruction, Linkage, Terminator,
    Value,
};
use ijssel::codegen::binary::compile_binary_expression_to_instruction;
use ijssel::codegen::block::{compile_block, BindingsHashMap, CodegenBlock};
use ijssel::codegen::array::{compile_array, element_type_of};
use ijssel::codegen::call::compile_call;
use ijssel::codegen::constants::compile_int64_constant;
use ijssel::codegen::function::{compile_extern_function, compile_function};
use ijssel::codegen::lowering::LoweringError;
use ijssel::codegen::module::compile_module;
use ijssel::codegen::variable::compile_variable_expression;
use ijssel::codegen::{compile_application, compile_expression_to_instruction};
use ijssel::modules::{Module, ModuleFunction};
use ijssel::parser::expression::{
    ArrayExpression, BinaryExpression, BlockExpression, CallExpression, Expression,
    ExternFunctionExpression, FunctionArgument, FunctionExpression, NumberLiteralExpression,
    VariableExpression,
};
use ijssel::parser::number::Number;
use ijssel::parser::parser::parse;
use ijssel::parser::tokenizer::{tokenize, BinaryOperator, Keyword, Token, TokenValue};
use ijssel::parser::types::Type;

fn literal(n: u64) -> Expression {
    Expression::NumberLiteral(Box::new(NumberLiteralExpression::new(Number::from_u64(n))))
}

fn variable(name: &str) -> Expression {
    Expression::Variable(Box::new(VariableExpression::new(String::from(name))))
}

fn constant(n: u64) -> Value {
    Value::Constant(BackendType::Int32, n)
}

fn parameter(index: usize) -> Value {
    Value::Parameter(index, BackendType::Int32)
}

fn result(index: usize) -> Value {
    Value::Instruction(index, BackendType::Int32)
}

fn arguments(names: &[&str]) -> Vec<FunctionArgument> {
    names.iter().map(|name| FunctionArgument::new(String::from(*name), Type::Int32)).collect()
}

fn declared(name: &str, parameters: usize) -> BackendFunction {
    BackendFunction {
        name: String::from(name),
        parameter_types: (0..parameters).map(|_| BackendType::Int32).collect(),
        parameter_names: vec![],
        return_type: BackendType::Int32,
        linkage: Linkage::External,
        body: None,
    }
}

fn module_with(functions: Vec<BackendFunction>) -> BackendModule {
    BackendModule { name: String::from("Main"), functions }
}

/// One token for each word of the text, the words being set apart by
/// spaces: a keyword, a symbol, a number, or else a name. A name may hold
/// digits, as the type `i32` does; the lexer would read that as the name `i`
/// and the number `32`, so token lists with such names are written out here.
fn words(text: &str) -> Vec<Token> {
    text.split_whitespace()
        .map(|word| match word {
            "fn" => Token::keyword(Keyword::Fn),
            "do" => Token::keyword(Keyword::Do),
            "end" => Token::keyword(Keyword::End),
            "defextern" => Token::keyword(Keyword::DefExtern),
            "+" => Token::new(TokenValue::Operator(BinaryOperator::Add)),
            "-" => Token::new(TokenValue::Operator(BinaryOperator::Sub)),
            "*" => Token::new(TokenValue::Operator(BinaryOperator::Mul)),
            "(" => Token::new(TokenValue::OpenParen),
            ")" => Token::new(TokenValue::CloseParen),
            "[" => Token::new(TokenValue::OpenSqBracket),
            "]" => Token::new(TokenValue::CloseSqBracket),
            "," => Token::new(TokenValue::Comma),
            ":" => Token::new(TokenValue::Colon),
            ";" => Token::new(TokenValue::SemiColon),
            "->" => Token::new(TokenValue::ReturnArrow),
            _ => match Number::parse(word) {
                Some(number) => Token::num_const(number),
                None => Token::identifier(String::from(word)),
            },
        })
        .collect()
}

/// Lexes, parses and lowers a source text.
fn lower(source: &str) -> Result<BackendModule, LoweringError> {
    lower_tokens(&tokenize(source).unwrap())
}

/// Parses and lowers a token list.
fn lower_tokens(tokens: &Vec<Token>) -> Result<BackendModule, LoweringError> {
    let ast = parse(tokens).unwrap();
    compile_application(Module::from_ast_module(ast).unwrap())
}

#[test]
fn call_of_an_external_function_from_its_tokens() {
    let module =
        lower_tokens(&words("defextern add ( a : i32 , b : i32 ) -> i32 fn main ( ) do add ( 1 , 2 ) end")).unwrap();
    assert_eq!(
        module,
        BackendModule {
            name: String::from("Main"),
            functions: vec![
                BackendFunction {
                    name: String::from("add"),
                    parameter_types: vec![BackendType::Int32, BackendType::Int32],
                    parameter_names: vec![],
                    return_type: BackendType::Int32,
                    linkage: Linkage::External,
                    body: None,
                },
                BackendFunction {
                    name: String::from("main"),
                    parameter_types: vec![],
                    parameter_names: vec![],
                    return_type: BackendType::Int32,
                    linkage: Linkage::Local,
                    body: Some(BackendBlock {
                        instructions: vec![Instruction::Call(0, vec![constant(1), constant(2)])],
                        terminator: Terminator::Return(result(0)),
                    }),
                },
            ],
        }
    );
}

#[test]
fn call_with_too_few_arguments_emits_nothing() {
    let module = module_with(vec![declared("add", 2)]);
    let mut block = CodegenBlock::new(&module, vec![], BindingsHashMap::new());
    let call = CallExpression::new(String::from("add"), vec![literal(1)]);
    assert_eq!(
        compile_call(&mut block, &call),
        Err(LoweringError::ArgumentCountMismatch {
            name: String::from("add"),
            expected: 2,
            got: 1,
        })
    );
    assert!(block.inner.is_empty());
}

#[test]
fn call_with_too_many_arguments_emits_nothing() {
    let module = module_with(vec![declared("f", 0)]);
    let kept = vec![Instruction::Add(constant(1), constant(2))];
    let mut block = CodegenBlock::new(
        &module,
        vec![Instruction::Add(constant(1), constant(2))],
        BindingsHashMap::new(),
    );
    // the argument is not even lowered: its variable is not bound
    let call = CallExpression::new(String::from("f"), vec![variable("unbound")]);
    assert_eq!(
        compile_call(&mut block, &call),
        Err(LoweringError::ArgumentCountMismatch { name: String::from("f"), expected: 0, got: 1 })
    );
    assert_eq!(block.inner, kept);
}

#[test]
fn argument_count_mismatch_yields_no_module() {
    assert_eq!(
        lower_tokens(&words("defextern add ( a : i32 , b : i32 ) -> i32 fn main ( ) do add ( 1 ) end")),
        Err(LoweringError::ArgumentCountMismatch {
            name: String::from("add"),
            expected: 2,
            got: 1,
        })
    );
}

#[test]
fn call_of_an_undeclared_function() {
    let module = module_with(vec![declared("add", 2)]);
    let mut block = CodegenBlock::new(&module, vec![], BindingsHashMap::new());
    let call = CallExpression::new(String::from("sub"), vec![literal(1), literal(2)]);
    assert_eq!(
        compile_call(&mut block, &call),
        Err(LoweringError::FunctionNotFound(String::from("sub")))
    );
    assert!(block.inner.is_empty());
    // a function is declared only from its own declaration on
    assert_eq!(
        lower("fn main() do later() end fn later() do end"),
        Err(LoweringError::FunctionNotFound(String::from("later")))
    );
}

#[test]
fn call_lowers_its_arguments_in_order() {
    let module = module_with(vec![declared("g", 1), declared("f", 2)]);
    let mut block = CodegenBlock::new(&module, vec![], BindingsHashMap::new());
    let first = Expression::Binary(Box::new(BinaryExpression::new(
        BinaryOperator::Add,
        literal(1),
        literal(2),
    )));
    let second = Expression::Call(Box::new(CallExpression::new(String::from("g"), vec![literal(3)])));
    let call = CallExpression::new(String::from("f"), vec![first, second]);
    assert_eq!(compile_call(&mut block, &call), Ok(result(2)));
    assert_eq!(
        block.inner,
        vec![
            Instruction::Add(constant(1), constant(2)),
            Instruction::Call(0, vec![constant(3)]),
            Instruction::Call(1, vec![result(0), result(1)]),
        ]
    );
}

#[test]
fn a_function_may_call_itself() {
    let module = lower_tokens(&words("fn f ( n : i32 ) do f ( n ) end")).unwrap();
    assert_eq!(
        module.functions[0].body,
        Some(BackendBlock {
            instructions: vec![Instruction::Call(0, vec![parameter(0)])],
            terminator: Terminator::Return(result(0)),
        })
    );
}

#[test]
fn binary_lowers_right_before_left() {
    let module = module_with(vec![declared("l", 0), declared("r", 0)]);
    let mut block = CodegenBlock::new(&module, vec![], BindingsHashMap::new());
    let left = Expression::Call(Box::new(CallExpression::new(String::from("l"), vec![])));
    let right = Expression::Call(Box::new(CallExpression::new(String::from("r"), vec![])));
    let expression = BinaryExpression::new(BinaryOperator::Sub, left, right);
    assert_eq!(
        compile_binary_expression_to_instruction(&mut block, &expression),
        Ok(result(2))
    );
    assert_eq!(
        block.inner,
        vec![
            Instruction::Call(1, vec![]),
            Instruction::Call(0, vec![]),
            Instruction::Sub(result(1), result(0)),
        ]
    );
}

#[test]
fn each_operator_has_its_instruction() {
    let module = module_with(vec![]);
    let mut block = CodegenBlock::new(&module, vec![], BindingsHashMap::new());
    for operator in [BinaryOperator::Add, BinaryOperator::Sub, BinaryOperator::Mul] {
        let expression = BinaryExpression::new(operator, literal(5), literal(7));
        compile_binary_expression_to_instruction(&mut block, &expression).unwrap();
    }
    assert_eq!(
        block.inner,
        vec![
            Instruction::Add(constant(5), constant(7)),
            Instruction::Sub(constant(5), constant(7)),
            Instruction::Mul(constant(5), constant(7)),
        ]
    );
}

#[test]
fn an_error_in_the_right_operand_comes_first() {
    let module = module_with(vec![]);
    let mut block = CodegenBlock::new(&module, vec![], BindingsHashMap::new());
    let expression = BinaryExpression::new(BinaryOperator::Add, variable("l"), variable("r"));
    assert_eq!(
        compile_binary_expression_to_instruction(&mut block, &expression),
        Err(LoweringError::UnknownVariable(String::from("r")))
    );
}

#[test]
fn constant_is_the_integer_part_of_the_literal() {
    assert_eq!(
        compile_int64_constant(&NumberLiteralExpression::new(Number::from_u64(42))),
        Ok(constant(42))
    );
    assert_eq!(
        compile_int64_constant(&NumberLiteralExpression::new(Number::parse("3.99").unwrap())),
        Ok(constant(3))
    );
    assert_eq!(
        compile_int64_constant(&NumberLiteralExpression::new(
            Number::parse("99999999999999999999").unwrap()
        )),
        Ok(constant(u64::MAX))
    );
}

#[test]
fn constant_of_a_type_that_is_no_integer() {
    let unknown = NumberLiteralExpression { number: Number::from_u64(1), return_type: Type::Unknown };
    assert_eq!(compile_int64_constant(&unknown), Err(LoweringError::CannotInferType));
    let user = NumberLiteralExpression {
        number: Number::from_u64(1),
        return_type: Type::User(String::from("Foo")),
    };
    assert_eq!(compile_int64_constant(&user), Err(LoweringError::UnsupportedType));
    let void = NumberLiteralExpression { number: Number::from_u64(1), return_type: Type::Void };
    assert_eq!(compile_int64_constant(&void), Err(LoweringError::UnsupportedType));
    let list = NumberLiteralExpression {
        number: Number::from_u64(1),
        return_type: Type::ListOf(Box::new(Type::Int32), 1),
    };
    assert_eq!(compile_int64_constant(&list), Err(LoweringError::UnsupportedType));
}

#[test]
fn variable_is_looked_up_in_the_bindings() {
    let module = module_with(vec![]);
    let mut bindings = BindingsHashMap::new();
    bindings.insert(String::from("x"), parameter(3));
    let block = CodegenBlock::new(&module, vec![], bindings);
    assert_eq!(
        compile_variable_expression(&block, &VariableExpression::new(String::from("x"))),
        Ok(parameter(3))
    );
    assert_eq!(
        compile_variable_expression(&block, &VariableExpression::new(String::from("y"))),
        Err(LoweringError::UnknownVariable(String::from("y")))
    );
}

#[test]
fn list_literal_lowers_its_items_in_order() {
    let module = module_with(vec![declared("f", 0)]);
    let mut block = CodegenBlock::new(&module, vec![], BindingsHashMap::new());
    let call = Expression::Call(Box::new(CallExpression::new(String::from("f"), vec![])));
    let array = ArrayExpression::new(vec![literal(1), call, literal(3)]);
    assert_eq!(
        compile_array(&mut block, &array),
        Ok(Value::Instruction(1, BackendType::Array(Box::new(BackendType::Int32), 3)))
    );
    assert_eq!(
        block.inner,
        vec![
            Instruction::Call(0, vec![]),
            Instruction::Array(
                BackendType::Int32,
                vec![constant(1), result(0), constant(3)],
            ),
        ]
    );
}

#[test]
fn a_declaration_has_no_value() {
    let module = module_with(vec![]);
    let mut block = CodegenBlock::new(&module, vec![], BindingsHashMap::new());
    let function = Expression::Function(Box::new(FunctionExpression::new(
        "f",
        BlockExpression::new(vec![], Type::Unknown),
        vec![],
    )));
    assert_eq!(
        compile_expression_to_instruction(&mut block, &function),
        Err(LoweringError::UnsupportedExpression)
    );
    let external = Expression::ExternFunction(Box::new(ExternFunctionExpression::new(
        "g",
        vec![],
        Type::Void,
    )));
    assert_eq!(
        compile_expression_to_instruction(&mut block, &external),
        Err(LoweringError::UnsupportedExpression)
    );
    assert_eq!(compile_expression_to_instruction(&mut block, &literal(9)), Ok(constant(9)));
    assert!(block.inner.is_empty());
}

#[test]
fn emit_returns_the_handle_of_the_instruction() {
    let module = module_with(vec![]);
    let mut block = CodegenBlock::new(&module, vec![], BindingsHashMap::new());
    assert_eq!(
        block.emit(Instruction::Add(constant(1), constant(2)), BackendType::Int32),
        result(0)
    );
    assert_eq!(
        block.emit(Instruction::Call(0, vec![]), BackendType::Void),
        Value::Instruction(1, BackendType::Void)
    );
    assert_eq!(block.inner.len(), 2);
}

#[test]
fn block_returns_the_value_of_its_last_statement() {
    let module = module_with(vec![]);
    let mut bindings = BindingsHashMap::new();
    bindings.insert(String::from("x"), parameter(0));
    let body = BlockExpression::new(
        vec![
            Expression::Binary(Box::new(BinaryExpression::new(
                BinaryOperator::Mul,
                variable("x"),
                literal(2),
            ))),
            variable("x"),
        ],
        Type::Unknown,
    );
    assert_eq!(
        compile_block(&module, &body, bindings),
        Ok(BackendBlock {
            instructions: vec![Instruction::Mul(parameter(0), constant(2))],
            terminator: Terminator::Return(parameter(0)),
        })
    );
}

#[test]
fn empty_block_returns_nothing() {
    let module = module_with(vec![]);
    let body = BlockExpression::new(vec![], Type::Unknown);
    assert_eq!(
        compile_block(&module, &body, BindingsHashMap::new()),
        Ok(BackendBlock { instructions: vec![], terminator: Terminator::ReturnVoid })
    );
}

#[test]
fn block_stops_at_the_first_error() {
    let module = module_with(vec![]);
    let body = BlockExpression::new(vec![literal(1), variable("a"), variable("b")], Type::Unknown);
    assert_eq!(
        compile_block(&module, &body, BindingsHashMap::new()),
        Err(LoweringError::UnknownVariable(String::from("a")))
    );
}

#[test]
fn function_binds_its_parameters() {
    let mut module = module_with(vec![]);
    let function = FunctionExpression::new(
        "sum",
        BlockExpression::new(
            vec![Expression::Binary(Box::new(BinaryExpression::new(
                BinaryOperator::Add,
                variable("a"),
                variable("b"),
            )))],
            Type::Int32,
        ),
        arguments(&["a", "b"]),
    );
    assert_eq!(compile_function(&mut module, &function), Ok(()));
    assert_eq!(
        module.functions,
        vec![BackendFunction {
            name: String::from("sum"),
            parameter_types: vec![BackendType::Int32, BackendType::Int32],
            parameter_names: vec![String::from("a"), String::from("b")],
            return_type: BackendType::Int32,
            linkage: Linkage::Local,
            body: Some(BackendBlock {
                instructions: vec![Instruction::Add(parameter(0), parameter(1))],
                terminator: Terminator::Return(result(0)),
            }),
        }]
    );
}

#[test]
fn a_later_parameter_takes_the_name_of_an_earlier() {
    let mut module = module_with(vec![]);
    let function = FunctionExpression::new(
        "f",
        BlockExpression::new(vec![variable("a")], Type::Unknown),
        arguments(&["a", "b", "a"]),
    );
    assert_eq!(compile_function(&mut module, &function), Ok(()));
    assert_eq!(
        module.functions[0].body,
        Some(BackendBlock { instructions: vec![], terminator: Terminator::Return(parameter(2)) })
    );
}

#[test]
fn function_that_fails_leaves_the_module_as_it_was() {
    let mut module = module_with(vec![declared("g", 0)]);
    let function = FunctionExpression::new(
        "f",
        BlockExpression::new(vec![variable("x")], Type::Unknown),
        vec![],
    );
    assert_eq!(
        compile_function(&mut module, &function),
        Err(LoweringError::UnknownVariable(String::from("x")))
    );
    assert_eq!(module, module_with(vec![declared("g", 0)]));
}

#[test]
fn declared_types_are_lowered() {
    let module = lower_tokens(&words("defextern f ( a : [ i32 ; 3 ] ) -> [ [ i32 ; 2 ] ; 4 ] defextern g fn h ( ) -> [ i32 ; 1 ] do end"))
        .unwrap();
    assert_eq!(
        module.functions[0].parameter_types,
        vec![BackendType::Array(Box::new(BackendType::Int32), 3)]
    );
    assert_eq!(
        module.functions[0].return_type,
        BackendType::Array(Box::new(BackendType::Array(Box::new(BackendType::Int32), 2)), 4)
    );
    assert_eq!(module.functions[1].return_type, BackendType::Void);
    assert_eq!(module.functions[1].linkage, Linkage::External);
    assert_eq!(module.functions[1].body, None);
    assert_eq!(
        module.functions[2].return_type,
        BackendType::Array(Box::new(BackendType::Int32), 1)
    );
    assert_eq!(
        module.functions[2].body,
        Some(BackendBlock { instructions: vec![], terminator: Terminator::ReturnVoid })
    );
}

#[test]
fn types_without_a_counterpart() {
    assert_eq!(BackendType::from(&Type::Int32), Ok(BackendType::Int32));
    assert_eq!(BackendType::from(&Type::Void), Ok(BackendType::Void));
    assert_eq!(BackendType::from(&Type::Unknown), Err(LoweringError::CannotInferType));
    assert_eq!(
        BackendType::from(&Type::User(String::from("Foo"))),
        Err(LoweringError::UnsupportedType)
    );
    assert_eq!(
        BackendType::from(&Type::ListOf(Box::new(Type::Unknown), 2)),
        Err(LoweringError::CannotInferType)
    );
    assert_eq!(lower("defextern f(a: Foo)"), Err(LoweringError::UnsupportedType));
    assert_eq!(lower_tokens(&words("fn f ( a : i32 ) -> Foo do end")), Err(LoweringError::UnsupportedType));
    assert_eq!(lower("defextern f -> [Foo; 2]"), Err(LoweringError::UnsupportedType));
    let mut module = module_with(vec![]);
    let unknown = ExternFunctionExpression::new("f", vec![], Type::Unknown);
    assert_eq!(
        compile_extern_function(&mut module, &unknown),
        Err(LoweringError::CannotInferType)
    );
    assert!(module.functions.is_empty());
}

#[test]
fn unknown_variable_yields_no_module() {
    assert_eq!(
        lower_tokens(&words("fn f ( a : i32 ) do a + b end")),
        Err(LoweringError::UnknownVariable(String::from("b")))
    );
}

#[test]
fn module_lowers_its_entries_in_order() {
    let module = Module {
        name: String::from("Unit"),
        functions: vec![
            ModuleFunction::External(ExternFunctionExpression::new("e", vec![], Type::Void)),
            ModuleFunction::Local(FunctionExpression::new(
                "f",
                BlockExpression::new(vec![], Type::Unknown),
                vec![],
            )),
        ],
    };
    let lowered = compile_module(&module).unwrap();
    assert_eq!(lowered.name, "Unit");
    assert_eq!(lowered.functions.len(), 2);
    assert_eq!(lowered.functions[0].name, "e");
    assert_eq!(lowered.functions[1].name, "f");
    assert_eq!(lowered.get_named_function(&String::from("f")), Some(1));
    assert_eq!(lowered.get_named_function(&String::from("g")), None);
    assert_eq!(lowered.count_params(0), 0);
}

#[test]
fn end_to_end_from_source_text() {
    let ast = parse(&tokenize("defextern tick \n fn main do tick() tick() end").unwrap()).unwrap();
    let module = compile_application(Module::from_ast_module(ast).unwrap()).unwrap();
    assert_eq!(
        module,
        BackendModule {
            name: String::from("Main"),
            functions: vec![
                BackendFunction {
                    name: String::from("tick"),
                    parameter_types: vec![],
                    parameter_names: vec![],
                    return_type: BackendType::Void,
                    linkage: Linkage::External,
                    body: None,
                },
                BackendFunction {
                    name: String::from("main"),
                    parameter_types: vec![],
                    parameter_names: vec![],
                    return_type: BackendType::Int32,
                    linkage: Linkage::Local,
                    body: Some(BackendBlock {
                        instructions: vec![Instruction::Call(0, vec![]), Instruction::Call(0, vec![])],
                        terminator: Terminator::Return(Value::Instruction(1, BackendType::Void)),
                    }),
                },
            ],
        }
    );
}

#[test]
fn straight_line_arithmetic_from_its_tokens() {
    let module = lower_tokens(&words("fn f ( a : i32 , b : i32 ) -> i32 do a + b * 2 - 1 end")).unwrap();
    assert_eq!(
        module.functions[0].body,
        Some(BackendBlock {
            instructions: vec![
                Instruction::Mul(parameter(1), constant(2)),
                Instruction::Add(parameter(0), result(0)),
                Instruction::Sub(result(1), constant(1)),
            ],
            terminator: Terminator::Return(result(2)),
        })
    );
}

fn in_scope(value: &Value, parameters: usize, results: usize) -> bool {
    match value {
        Value::Constant(_, _) => true,
        Value::Parameter(index, _) => *index < parameters,
        Value::Instruction(index, _) => *index < results,
    }
}

#[test]
fn lowered_modules_use_only_what_exists() {
    let module = lower_tokens(&words("defextern g ( a : i32 ) -> i32 fn f ( x : i32 , y : i32 ) do g ( x + y * 2 ) [ x , g ( y ) ] f ( 1 , g ( 2 ) ) end"))
    .unwrap();
    for (index, function) in module.functions.iter().enumerate() {
        let parameters = function.parameter_types.len();
        if let Some(body) = &function.body {
            for (position, instruction) in body.instructions.iter().enumerate() {
                match instruction {
                    Instruction::Add(left, right)
                    | Instruction::Sub(left, right)
                    | Instruction::Mul(left, right) => {
                        assert!(in_scope(left, parameters, position));
                        assert!(in_scope(right, parameters, position));
                    }
                    Instruction::Call(callee, arguments) => {
                        assert!(*callee <= index);
                        assert_eq!(arguments.len(), module.functions[*callee].parameter_types.len());
                        assert!(arguments.iter().all(|value| in_scope(value, parameters, position)));
                    }
                    Instruction::Array(_, items) => {
                        assert!(items.iter().all(|value| in_scope(value, parameters, position)));
                    }
                }
            }
            match &body.terminator {
                Terminator::Return(value) => {
                    assert!(in_scope(value, parameters, body.instructions.len()))
                }
                Terminator::ReturnVoid => {}
            }
        }
    }
    assert_eq!(
        module.functions[1].body.as_ref().unwrap().terminator,
        Terminator::Return(result(6))
    );
}

fn list_of(element: BackendType, length: u32) -> BackendType {
    BackendType::Array(Box::new(element), length)
}

#[test]
fn the_element_type_of_a_list_is_that_of_its_items() {
    let module = module_with(vec![]);
    let mut bindings = BindingsHashMap::new();
    bindings.insert(
        String::from("row"),
        Value::Parameter(0, list_of(BackendType::Int32, 2)),
    );
    let mut block = CodegenBlock::new(&module, vec![], bindings);
    // a list of two lists: a parameter and a literal of the same type
    let inner = Expression::Array(Box::new(ArrayExpression::new(vec![literal(1), literal(2)])));
    let outer = ArrayExpression::new(vec![variable("row"), inner]);
    let row = list_of(BackendType::Int32, 2);
    assert_eq!(
        compile_array(&mut block, &outer),
        Ok(Value::Instruction(1, list_of(list_of(BackendType::Int32, 2), 2)))
    );
    assert_eq!(
        block.inner,
        vec![
            Instruction::Array(BackendType::Int32, vec![constant(1), constant(2)]),
            Instruction::Array(
                list_of(BackendType::Int32, 2),
                vec![
                    Value::Parameter(0, list_of(BackendType::Int32, 2)),
                    Value::Instruction(0, row),
                ],
            ),
        ]
    );
}

#[test]
fn a_list_of_items_of_different_types_is_refused() {
    let module = module_with(vec![]);
    let mut block = CodegenBlock::new(&module, vec![], BindingsHashMap::new());
    let inner = Expression::Array(Box::new(ArrayExpression::new(vec![literal(2)])));
    let mixed = ArrayExpression::new(vec![literal(1), inner]);
    assert_eq!(compile_array(&mut block, &mixed), Err(LoweringError::UnsupportedType));
    // lists of different lengths are of different types
    let one = Expression::Array(Box::new(ArrayExpression::new(vec![literal(1)])));
    let two = Expression::Array(Box::new(ArrayExpression::new(vec![literal(1), literal(2)])));
    let mut block = CodegenBlock::new(&module, vec![], BindingsHashMap::new());
    assert_eq!(
        compile_array(&mut block, &ArrayExpression::new(vec![one, two])),
        Err(LoweringError::UnsupportedType)
    );
}

#[test]
fn a_list_without_items_has_no_type() {
    let module = module_with(vec![]);
    let mut block = CodegenBlock::new(&module, vec![], BindingsHashMap::new());
    assert_eq!(
        compile_array(&mut block, &ArrayExpression::new(vec![])),
        Err(LoweringError::CannotInferType)
    );
    assert!(block.inner.is_empty());
}

#[test]
fn a_list_of_items_without_a_value_is_refused() {
    let mut nothing = declared("nothing", 0);
    nothing.return_type = BackendType::Void;
    let module = module_with(vec![nothing]);
    let mut block = CodegenBlock::new(&module, vec![], BindingsHashMap::new());
    let call = Expression::Call(Box::new(CallExpression::new(String::from("nothing"), vec![])));
    assert_eq!(
        compile_array(&mut block, &ArrayExpression::new(vec![call])),
        Err(LoweringError::UnsupportedType)
    );
}

#[test]
fn element_type_of_values() {
    assert_eq!(element_type_of(&vec![]), Err(LoweringError::CannotInferType));
    assert_eq!(element_type_of(&vec![constant(1), parameter(0)]), Ok(BackendType::Int32));
    assert_eq!(
        element_type_of(&vec![Value::Instruction(0, list_of(BackendType::Int32, 1))]),
        Ok(list_of(BackendType::Int32, 1))
    );
    assert_eq!(
        element_type_of(&vec![constant(1), Value::Instruction(0, BackendType::Void)]),
        Err(LoweringError::UnsupportedType)
    );
    assert_eq!(
        element_type_of(&vec![Value::Instruction(0, BackendType::Void)]),
        Err(LoweringError::UnsupportedType)
    );
}

#[test]
fn values_have_the_types_of_what_they_stand_for() {
    let module = lower_tokens(&words(
        "defextern row ( ) -> [ i32 ; 2 ] fn f ( a : [ i32 ; 2 ] , b : i32 ) do a b + 1 row ( ) [ a , row ( ) ] end",
    ))
    .unwrap();
    let pair = list_of(BackendType::Int32, 2);
    assert_eq!(
        module.functions[1].body,
        Some(BackendBlock {
            instructions: vec![
                Instruction::Add(parameter(1), constant(1)),
                Instruction::Call(0, vec![]),
                Instruction::Call(0, vec![]),
                Instruction::Array(
                    list_of(BackendType::Int32, 2),
                    vec![
                        Value::Parameter(0, list_of(BackendType::Int32, 2)),
                        Value::Instruction(2, list_of(BackendType::Int32, 2)),
                    ],
                ),
            ],
            terminator: Terminator::Return(Value::Instruction(3, list_of(pair, 2))),
        })
    );
    assert_eq!(BackendType::Int32, BackendType::Int32);
    assert_ne!(list_of(BackendType::Int32, 2), list_of(BackendType::Int32, 3));
    assert_ne!(list_of(BackendType::Int32, 2), list_of(BackendType::Void, 2));
    assert_ne!(BackendType::Void, BackendType::Int32);
}
