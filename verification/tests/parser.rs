use ijssel::parser::expression::{
    ArrayExpression, BinaryExpression, BlockExpression, CallExpression, Expression,
    ExternFunctionExpression, FunctionArgument, FunctionExpression, NumberLiteralExpression,
    VariableExpression,
};
use ijssel::parser::grammar::{Expected, ParseError, ParseErrorKind};
use ijssel::parser::module::AstModule;
use ijssel::parser::number::Number;
use ijssel::parser::parser::{list_length_of, parse, Parser};
use ijssel::parser::tokenizer::{tokenize, BinaryOperator, Keyword, Token, TokenValue};
use ijssel::parser::types::Type;

/// The tokens that the lexer finds in a source text.
fn tokens(source: &str) -> Vec<Token> {
    tokenize(source).unwrap()
}

/// One token for each word of the text, the words being set apart by
/// spaces: a keyword, a symbol, a number, or else a name. A name may hold
/// digits, as the type `i32` does; the lexer would read that as the name `i`
/// and the number `32`, so token lists with such names are written out here.
fn words(text: &str) -> Vec<Token> {
    text.split_whitespace()
        .map(|word| match word {
            "fn" => Token::keyword(Keyword::Fn),
            "do" => Token::keyword(Keyword::Do),
            "end" => Token::keyword(Keyword::End),
            "defextern" => Token::keyword(Keyword::DefExtern),
            "+" => Token::new(TokenValue::Operator(BinaryOperator::Add)),
            "-" => Token::new(TokenValue::Operator(BinaryOperator::Sub)),
            "*" => Token::new(TokenValue::Operator(BinaryOperator::Mul)),
            "(" => Token::new(TokenValue::OpenParen),
            ")" => Token::new(TokenValue::CloseParen),
            "[" => Token::new(TokenValue::OpenSqBracket),
            "]" => Token::new(TokenValue::CloseSqBracket),
            "," => Token::new(TokenValue::Comma),
            ":" => Token::new(TokenValue::Colon),
            ";" => Token::new(TokenValue::SemiColon),
            "->" => Token::new(TokenValue::ReturnArrow),
            _ => match Number::parse(word) {
                Some(number) => Token::num_const(number),
                None => Token::identifier(String::from(word)),
            },
        })
        .collect()
}

fn literal(n: u64) -> Expression {
    Expression::NumberLiteral(Box::new(NumberLiteralExpression::new(Number::from_u64(n))))
}

fn variable(name: &str) -> Expression {
    Expression::Variable(Box::new(VariableExpression::new(String::from(name))))
}

fn binary(operator: BinaryOperator, left: Expression, right: Expression) -> Expression {
    Expression::Binary(Box::new(BinaryExpression::new(operator, left, right)))
}

fn call(name: &str, args: Vec<Expression>) -> Expression {
    Expression::Call(Box::new(CallExpression::new(String::from(name), args)))
}

fn array(items: Vec<Expression>) -> Expression {
    Expression::Array(Box::new(ArrayExpression::new(items)))
}

fn argument(name: &str, input_type: Type) -> FunctionArgument {
    FunctionArgument::new(String::from(name), input_type)
}

fn expression(source: &str) -> Result<Expression, ParseError> {
    let tokens = tokens(source);
    let mut parser = Parser::new(&tokens);
    parser.parse_expression()
}

fn module_error(source: &str) -> ParseError {
    parse(&tokens(source)).unwrap_err()
}

fn error(kind: ParseErrorKind, position: usize, expected: Expected) -> ParseError {
    ParseError { kind, position, expected }
}

#[test]
fn multiplication_binds_tighter_on_the_right() {
    assert_eq!(
        expression("1 + 2 * 3"),
        Ok(binary(
            BinaryOperator::Add,
            literal(1),
            binary(BinaryOperator::Mul, literal(2), literal(3)),
        ))
    );
}

#[test]
fn multiplication_binds_tighter_on_the_left() {
    assert_eq!(
        expression("1 * 2 + 3"),
        Ok(binary(
            BinaryOperator::Add,
            binary(BinaryOperator::Mul, literal(1), literal(2)),
            literal(3),
        ))
    );
}

#[test]
fn operators_of_one_precedence_associate_to_the_left() {
    assert_eq!(
        expression("1 - 2 + 3"),
        Ok(binary(
            BinaryOperator::Add,
            binary(BinaryOperator::Sub, literal(1), literal(2)),
            literal(3),
        ))
    );
    assert_eq!(
        expression("a * b * c"),
        Ok(binary(
            BinaryOperator::Mul,
            binary(BinaryOperator::Mul, variable("a"), variable("b")),
            variable("c"),
        ))
    );
}

#[test]
fn precedence_inside_a_block() {
    let module = parse(&tokens("fn f() do 1 + 2 * 3 end")).unwrap();
    let body = BlockExpression::new(
        vec![binary(
            BinaryOperator::Add,
            literal(1),
            binary(BinaryOperator::Mul, literal(2), literal(3)),
        )],
        Type::Unknown,
    );
    assert_eq!(
        module.expressions,
        vec![Expression::Function(Box::new(FunctionExpression::new("f", body, vec![])))]
    );
}

#[test]
fn parses_the_identity_function() {
    let module = parse(&words("fn id ( x : i32 ) -> i32 do x end")).unwrap();
    assert_eq!(module.name, "Main");
    assert_eq!(module.expressions.len(), 1);
    match &module.expressions[0] {
        Expression::Function(function) => {
            assert_eq!(function.name, "id");
            assert_eq!(function.arguments, vec![argument("x", Type::Int32)]);
            assert_eq!(function.body.return_type, Type::Int32);
            assert_eq!(function.body.expressions, vec![variable("x")]);
        }
        other => panic!("not a function: {:?}", other),
    }
}

#[test]
fn return_type_defaults() {
    let module = parse(&tokens("fn f do end defextern g")).unwrap();
    assert_eq!(
        module.expressions,
        vec![
            Expression::Function(Box::new(FunctionExpression::new(
                "f",
                BlockExpression::new(vec![], Type::Unknown),
                vec![],
            ))),
            Expression::ExternFunction(Box::new(ExternFunctionExpression::new(
                "g",
                vec![],
                Type::Void,
            ))),
        ]
    );
}

#[test]
fn parses_an_external_declaration() {
    let module = parse(&words("defextern add ( a : i32 , b : Foo ) -> i32")).unwrap();
    assert_eq!(
        module.expressions,
        vec![Expression::ExternFunction(Box::new(ExternFunctionExpression::new(
            "add",
            vec![argument("a", Type::Int32), argument("b", Type::User(String::from("Foo")))],
            Type::Int32,
        )))]
    );
}

#[test]
fn parameter_list_takes_a_trailing_comma() {
    let module = parse(&words("defextern f ( a : i32 , b : i32 , )")).unwrap();
    assert_eq!(
        module.expressions,
        vec![Expression::ExternFunction(Box::new(ExternFunctionExpression::new(
            "f",
            vec![argument("a", Type::Int32), argument("b", Type::Int32)],
            Type::Void,
        )))]
    );
    let module = parse(&tokens("defextern f()")).unwrap();
    assert_eq!(
        module.expressions,
        vec![Expression::ExternFunction(Box::new(ExternFunctionExpression::new(
            "f",
            vec![],
            Type::Void,
        )))]
    );
}

#[test]
fn parses_list_types() {
    let module = parse(&words("defextern f ( a : [ i32 ; 3 ] ) -> [ [ Foo ; 2 ] ; 4 ]")).unwrap();
    assert_eq!(
        module.expressions,
        vec![Expression::ExternFunction(Box::new(ExternFunctionExpression::new(
            "f",
            vec![argument("a", Type::ListOf(Box::new(Type::Int32), 3))],
            Type::ListOf(
                Box::new(Type::ListOf(Box::new(Type::User(String::from("Foo"))), 2)),
                4,
            ),
        )))]
    );
}

#[test]
fn list_length_must_be_an_integer() {
    assert_eq!(
        module_error("defextern f(a: [Foo; 2.5])"),
        error(ParseErrorKind::UnexpectedToken, 8, Expected::Length)
    );
    assert_eq!(
        module_error("defextern f(a: [Foo; 2.0])"),
        error(ParseErrorKind::UnexpectedToken, 8, Expected::Length)
    );
    let source = tokenize("[Foo; 2.5]").unwrap();
    let mut parser = Parser::new(&source);
    assert_eq!(
        parser.parse_type(),
        Err(error(ParseErrorKind::UnexpectedToken, 3, Expected::Length))
    );
    assert_eq!(parser.position, 3);
}

#[test]
fn list_length_must_fit_a_length() {
    let module = parse(&tokenize("defextern f(a: [Foo; 0], b: [Foo; 4294967295])").unwrap()).unwrap();
    assert_eq!(
        module.expressions,
        vec![Expression::ExternFunction(Box::new(ExternFunctionExpression::new(
            "f",
            vec![
                argument("a", Type::ListOf(Box::new(Type::User(String::from("Foo"))), 0)),
                argument("b", Type::ListOf(Box::new(Type::User(String::from("Foo"))), u32::MAX)),
            ],
            Type::Void,
        )))]
    );
    assert_eq!(
        module_error("defextern f(a: [Foo; 4294967296])"),
        error(ParseErrorKind::UnexpectedToken, 8, Expected::Length)
    );
    assert_eq!(
        module_error("defextern f(a: [Foo; 99999999999999999999999999])"),
        error(ParseErrorKind::UnexpectedToken, 8, Expected::Length)
    );
}

#[test]
fn list_length_of_a_number() {
    assert_eq!(list_length_of(&Number::from_u64(3)), Some(3));
    assert_eq!(list_length_of(&Number::from_u64(4294967295)), Some(u32::MAX));
    assert_eq!(list_length_of(&Number::from_u64(4294967296)), None);
    assert_eq!(list_length_of(&Number::parse("3.").unwrap()), Some(3));
    assert_eq!(list_length_of(&Number::parse("3.0").unwrap()), None);
    assert_eq!(list_length_of(&Number::parse("2.5").unwrap()), None);
}

#[test]
fn a_name_before_a_parenthesis_is_a_call() {
    assert_eq!(expression("f()"), Ok(call("f", vec![])));
    assert_eq!(
        expression("add(1, x)"),
        Ok(call("add", vec![literal(1), variable("x")]))
    );
    assert_eq!(
        expression("add(1, 2 * 3,)"),
        Ok(call(
            "add",
            vec![literal(1), binary(BinaryOperator::Mul, literal(2), literal(3))],
        ))
    );
    assert_eq!(
        expression("f(g(1), [2])"),
        Ok(call("f", vec![call("g", vec![literal(1)]), array(vec![literal(2)])]))
    );
}

#[test]
fn only_a_bare_name_becomes_a_call() {
    // the operand of an operator is an atom: the parenthesis is left over
    let tokens = tokens("1 + f(2)");
    let mut parser = Parser::new(&tokens);
    assert_eq!(
        parser.parse_expression(),
        Ok(binary(BinaryOperator::Add, literal(1), variable("f")))
    );
    assert_eq!(parser.position, 3);
}

#[test]
fn parses_list_literals() {
    assert_eq!(expression("[]"), Ok(array(vec![])));
    assert_eq!(
        expression("[1, a + 2, [3],]"),
        Ok(array(vec![
            literal(1),
            binary(BinaryOperator::Add, variable("a"), literal(2)),
            array(vec![literal(3)]),
        ]))
    );
}

#[test]
fn parse_atom_reads_one_token() {
    let tokens = tokens("x + 1");
    let mut parser = Parser::new(&tokens);
    assert_eq!(parser.parse_atom(), Ok(variable("x")));
    assert_eq!(parser.position, 1);
    assert_eq!(
        parser.parse_atom(),
        Err(error(ParseErrorKind::UnexpectedToken, 1, Expected::Expression))
    );
    assert_eq!(parser.position, 1);
}

#[test]
fn parse_maybe_binary_stops_at_the_given_precedence() {
    let tokens = tokens("+ 2 * 3 + 4");
    let mut parser = Parser::new(&tokens);
    // what binds tighter than addition: nothing, as addition comes first
    assert_eq!(parser.parse_maybe_binary(literal(1), 10), Ok(literal(1)));
    assert_eq!(parser.position, 0);
    assert_eq!(
        parser.parse_maybe_binary(literal(1), 0),
        Ok(binary(
            BinaryOperator::Add,
            binary(
                BinaryOperator::Add,
                literal(1),
                binary(BinaryOperator::Mul, literal(2), literal(3)),
            ),
            literal(4),
        ))
    );
    assert_eq!(parser.position, 6);
}

#[test]
fn parse_maybe_call_needs_a_parenthesis() {
    let tokens = tokens("+ (1)");
    let mut parser = Parser::new(&tokens);
    let name = VariableExpression::new(String::from("f"));
    assert_eq!(parser.parse_maybe_call(&name), Ok(None));
    assert_eq!(parser.position, 0);
    parser.position = 1;
    assert_eq!(parser.parse_maybe_call(&name), Ok(Some(call("f", vec![literal(1)]))));
    assert_eq!(parser.position, 4);
    assert_eq!(parser.parse_maybe_call(&name), Ok(None));
}

#[test]
fn parse_block_takes_its_type() {
    let tokens = tokens("do a b end");
    let mut parser = Parser::new(&tokens);
    assert_eq!(
        parser.parse_block(Type::Int32),
        Ok(BlockExpression::new(vec![variable("a"), variable("b")], Type::Int32))
    );
    assert_eq!(parser.position, 4);
}

#[test]
fn parse_function_and_extern_function() {
    let tokens = words("fn f ( a : i32 ) do a end defextern g ( b : i32 )");
    let mut parser = Parser::new(&tokens);
    assert_eq!(
        parser.parse_extern_function(),
        Err(error(ParseErrorKind::UnexpectedToken, 0, Expected::DefExtern))
    );
    assert_eq!(
        parser.parse_function(),
        Ok(FunctionExpression::new(
            "f",
            BlockExpression::new(vec![variable("a")], Type::Unknown),
            vec![argument("a", Type::Int32)],
        ))
    );
    assert_eq!(
        parser.parse_function(),
        Err(error(ParseErrorKind::UnexpectedToken, 10, Expected::Fn))
    );
    assert_eq!(
        parser.parse_extern_function(),
        Ok(ExternFunctionExpression::new("g", vec![argument("b", Type::Int32)], Type::Void))
    );
    assert_eq!(
        parser.parse_function(),
        Err(error(ParseErrorKind::UnexpectedEof, 17, Expected::Fn))
    );
}

#[test]
fn parse_top_level_expression_appends_to_the_module() {
    let tokens = tokens("defextern g fn f do end 1");
    let mut parser = Parser::new(&tokens);
    assert_eq!(parser.module, AstModule::new());
    assert_eq!(parser.parse_top_level_expression(), Ok(()));
    assert_eq!(parser.module.expressions.len(), 1);
    assert_eq!(parser.parse_top_level_expression(), Ok(()));
    assert_eq!(parser.module.expressions.len(), 2);
    assert_eq!(
        parser.parse_top_level_expression(),
        Err(error(ParseErrorKind::UnexpectedToken, 6, Expected::Declaration))
    );
    assert_eq!(parser.module.expressions.len(), 2);
}

#[test]
fn parse_module_keeps_the_module_on_error() {
    let tokens = tokens("defextern g fn f do end fn");
    let mut parser = Parser::new(&tokens);
    assert_eq!(
        parser.parse_module(),
        Err(error(ParseErrorKind::UnexpectedEof, 7, Expected::Identifier))
    );
    assert_eq!(parser.module, AstModule::new());
    assert_eq!(parser.position, 7);
}

#[test]
fn empty_input_is_the_empty_module() {
    assert_eq!(parse(&vec![]), Ok(AstModule::new()));
    assert_eq!(AstModule::new().name, "Main");
    assert!(AstModule::new().expressions.is_empty());
}

#[test]
fn unexpected_top_level_token() {
    assert_eq!(
        module_error("1 + 2"),
        error(ParseErrorKind::UnexpectedToken, 0, Expected::Declaration)
    );
    assert_eq!(
        module_error("fn f do end end"),
        error(ParseErrorKind::UnexpectedToken, 4, Expected::Declaration)
    );
}

#[test]
fn missing_name() {
    assert_eq!(
        parse(&words("fn ( a : i32 ) do end")).unwrap_err(),
        error(ParseErrorKind::UnexpectedToken, 1, Expected::Identifier)
    );
    assert_eq!(
        module_error("defextern"),
        error(ParseErrorKind::UnexpectedEof, 1, Expected::Identifier)
    );
}

#[test]
fn missing_body() {
    assert_eq!(module_error("fn f"), error(ParseErrorKind::UnexpectedEof, 2, Expected::Do));
    assert_eq!(
        parse(&words("fn f ( ) -> i32 end")).unwrap_err(),
        error(ParseErrorKind::UnexpectedToken, 6, Expected::Do)
    );
}

#[test]
fn unmatched_delimiters() {
    assert_eq!(module_error("fn f do 1"), error(ParseErrorKind::UnexpectedEof, 4, Expected::End));
    assert_eq!(module_error("fn f do"), error(ParseErrorKind::UnexpectedEof, 3, Expected::End));
    assert_eq!(
        module_error("defextern f("),
        error(ParseErrorKind::UnexpectedEof, 3, Expected::CloseParen)
    );
    assert_eq!(
        parse(&words("defextern f ( a : i32")).unwrap_err(),
        error(ParseErrorKind::UnexpectedEof, 6, Expected::Comma)
    );
    assert_eq!(
        module_error("fn f do g("),
        error(ParseErrorKind::UnexpectedEof, 5, Expected::CloseParen)
    );
    assert_eq!(
        module_error("fn f do g(1"),
        error(ParseErrorKind::UnexpectedEof, 6, Expected::Comma)
    );
    assert_eq!(
        module_error("fn f do [1,"),
        error(ParseErrorKind::UnexpectedEof, 6, Expected::CloseSqBracket)
    );
}

#[test]
fn malformed_parameter_list() {
    assert_eq!(
        parse(&words("defextern f ( a : i32 b : i32 )")).unwrap_err(),
        error(ParseErrorKind::UnexpectedToken, 6, Expected::Comma)
    );
    assert_eq!(
        parse(&words("defextern f ( a i32 )")).unwrap_err(),
        error(ParseErrorKind::UnexpectedToken, 4, Expected::Colon)
    );
    assert_eq!(
        parse(&words("defextern f ( 1 : i32 )")).unwrap_err(),
        error(ParseErrorKind::UnexpectedToken, 3, Expected::Identifier)
    );
    assert_eq!(
        module_error("defextern f(,)"),
        error(ParseErrorKind::UnexpectedToken, 3, Expected::Identifier)
    );
}

#[test]
fn malformed_types() {
    assert_eq!(
        module_error("defextern f -> 1"),
        error(ParseErrorKind::UnexpectedToken, 3, Expected::Type)
    );
    assert_eq!(
        module_error("defextern f ->"),
        error(ParseErrorKind::UnexpectedEof, 3, Expected::Type)
    );
    assert_eq!(
        parse(&words("defextern f -> [ i32 , 3 ]")).unwrap_err(),
        error(ParseErrorKind::UnexpectedToken, 5, Expected::LengthSeparator)
    );
    assert_eq!(
        parse(&words("defextern f -> [ i32 ; n ]")).unwrap_err(),
        error(ParseErrorKind::UnexpectedToken, 6, Expected::Length)
    );
    assert_eq!(
        parse(&words("defextern f -> [ i32 ; 3")).unwrap_err(),
        error(ParseErrorKind::UnexpectedEof, 7, Expected::CloseSqBracket)
    );
    assert_eq!(
        parse(&words("defextern f -> [ i32 ; 3 )")).unwrap_err(),
        error(ParseErrorKind::UnexpectedToken, 7, Expected::CloseSqBracket)
    );
}

#[test]
fn malformed_expressions() {
    assert_eq!(
        expression(""),
        Err(error(ParseErrorKind::UnexpectedEof, 0, Expected::Expression))
    );
    assert_eq!(
        expression("+ 1"),
        Err(error(ParseErrorKind::UnexpectedToken, 0, Expected::Expression))
    );
    assert_eq!(
        expression("1 +"),
        Err(error(ParseErrorKind::UnexpectedEof, 2, Expected::Expression))
    );
    assert_eq!(
        expression("1 + *"),
        Err(error(ParseErrorKind::UnexpectedToken, 2, Expected::Expression))
    );
    assert_eq!(
        expression("f(1 2)"),
        Err(error(ParseErrorKind::UnexpectedToken, 3, Expected::Comma))
    );
    assert_eq!(
        expression("[1 2]"),
        Err(error(ParseErrorKind::UnexpectedToken, 2, Expected::Comma))
    );
    assert_eq!(
        expression("[1)"),
        Err(error(ParseErrorKind::UnexpectedToken, 2, Expected::Comma))
    );
}

#[test]
fn first_syntax_error_wins() {
    assert_eq!(
        module_error("fn f do + end fn do"),
        error(ParseErrorKind::UnexpectedToken, 3, Expected::Expression)
    );
}

#[test]
fn type_from_its_name() {
    assert_eq!(Type::from("i32"), Type::Int32);
    assert_eq!(Type::from("i64"), Type::User(String::from("i64")));
    assert_eq!(Type::from("I32"), Type::User(String::from("I32")));
    assert_eq!(Type::from(""), Type::User(String::new()));
}

#[test]
fn type_equality_and_clone() {
    let list = Type::ListOf(Box::new(Type::User(String::from("Foo"))), 3);
    assert_eq!(list.clone(), list);
    assert_ne!(list, Type::ListOf(Box::new(Type::User(String::from("Foo"))), 4));
    assert_ne!(list, Type::ListOf(Box::new(Type::User(String::from("Bar"))), 3));
    assert_ne!(Type::Unknown, Type::Void);
    assert_ne!(Type::Int32, Type::User(String::from("i32")));
    assert_eq!(Type::Void.clone(), Type::Void);
}

#[test]
fn constructors_set_the_default_types() {
    assert_eq!(NumberLiteralExpression::new(Number::from_u64(1)).return_type, Type::Int32);
    assert_eq!(VariableExpression::new(String::from("x")).return_type, Type::Unknown);
    assert_eq!(VariableExpression::new(String::from("x")).binding, "x");
    let argument = FunctionArgument::new(String::from("a"), Type::Void);
    assert_eq!(argument.binding_name, "a");
    assert_eq!(argument.input_type, Type::Void);
    let declared = ExternFunctionExpression::new("f", vec![], Type::Int32);
    assert_eq!(declared.name, "f");
    assert_eq!(declared.return_type, Type::Int32);
    let call = CallExpression::new(String::from("g"), vec![]);
    assert_eq!(call.function_name, "g");
    let node = BinaryExpression::new(BinaryOperator::Sub, literal(1), literal(2));
    assert_eq!(node.left, literal(1));
    assert_eq!(node.right, literal(2));
    assert_eq!(node.operator, BinaryOperator::Sub);
    assert_eq!(ArrayExpression::new(vec![literal(1)]).items, vec![literal(1)]);
}

#[test]
fn a_tree_and_its_clone_are_equal() {
    let module = parse(&words("defextern g ( a : [ i32 ; 2 ] ) -> i32 fn f ( x : i32 , y : Foo ) -> i32 do g ( [ x , 1 + y * 2 ] ) h ( ) x end"))
    .unwrap();
    assert_eq!(module.expressions.len(), 2);
    for declaration in &module.expressions {
        assert_eq!(&declaration.clone(), declaration);
    }
    let node = BinaryExpression::new(BinaryOperator::Mul, variable("a"), literal(2));
    assert_eq!(node.clone(), node);
    let list = ArrayExpression::new(vec![literal(1), call("f", vec![variable("x")])]);
    assert_eq!(list.clone(), list);
    let block = BlockExpression::new(vec![variable("a")], Type::Void);
    assert_eq!(block.clone(), block);
    let argument = argument("a", Type::ListOf(Box::new(Type::Int32), 2));
    assert_eq!(argument.clone(), argument);
}

#[test]
fn parse_function_args_needs_a_parenthesis() {
    let open = words("a : i32 )");
    let mut parser = Parser::new(&open);
    assert_eq!(
        parser.parse_function_args(),
        Err(error(ParseErrorKind::UnexpectedToken, 0, Expected::OpenParen))
    );
    let closed = words("( a : i32 , b : Foo ) x");
    let mut parser = Parser::new(&closed);
    assert_eq!(
        parser.parse_function_args(),
        Ok(vec![argument("a", Type::Int32), argument("b", Type::User(String::from("Foo")))])
    );
    assert_eq!(parser.position, 9);
}

#[test]
fn parse_array_expression_needs_a_bracket() {
    let open = tokens("1, 2]");
    let mut parser = Parser::new(&open);
    assert_eq!(
        parser.parse_array_expression(),
        Err(error(ParseErrorKind::UnexpectedToken, 0, Expected::OpenSqBracket))
    );
    let mut parser = Parser::new(&open);
    parser.position = 5;
    assert_eq!(
        parser.parse_array_expression(),
        Err(error(ParseErrorKind::UnexpectedEof, 5, Expected::OpenSqBracket))
    );
    let closed = tokens("[1, 2] x");
    let mut parser = Parser::new(&closed);
    assert_eq!(
        parser.parse_array_expression(),
        Ok(ArrayExpression::new(vec![literal(1), literal(2)]))
    );
    assert_eq!(parser.position, 5);
}

#[test]
fn parse_type_and_its_signatures() {
    let tokens = words(": i32 -> [ Foo ; 2 ] x");
    let mut parser = Parser::new(&tokens);
    assert_eq!(parser.parse_return_type_signature(Type::Void), Ok(Type::Void));
    assert_eq!(parser.position, 0);
    assert_eq!(parser.parse_type_signature(), Ok(Type::Int32));
    assert_eq!(parser.position, 2);
    assert_eq!(
        parser.parse_type_signature(),
        Err(error(ParseErrorKind::UnexpectedToken, 2, Expected::Colon))
    );
    assert_eq!(
        parser.parse_return_type_signature(Type::Unknown),
        Ok(Type::ListOf(Box::new(Type::User(String::from("Foo"))), 2))
    );
    assert_eq!(parser.position, 8);
    assert_eq!(parser.parse_type(), Ok(Type::User(String::from("x"))));
    assert_eq!(parser.parse_type(), Err(error(ParseErrorKind::UnexpectedEof, 9, Expected::Type)));
    assert_eq!(parser.parse_return_type_signature(Type::Int32), Ok(Type::Int32));
}

#[test]
fn parse_function_arg_signature_reads_name_and_type() {
    let tokens = words("count : [ i32 ; 8 ] , 3");
    let mut parser = Parser::new(&tokens);
    assert_eq!(
        parser.parse_function_arg_signature(),
        Ok(argument("count", Type::ListOf(Box::new(Type::Int32), 8)))
    );
    assert_eq!(parser.position, 7);
    parser.position = 8;
    assert_eq!(
        parser.parse_function_arg_signature(),
        Err(error(ParseErrorKind::UnexpectedToken, 8, Expected::Identifier))
    );
}

#[test]
fn a_cursor_behind_the_tokens_is_at_their_end() {
    let tokens = tokens("x");
    let mut parser = Parser::new(&tokens);
    parser.position = 7;
    assert_eq!(
        parser.parse_expression(),
        Err(error(ParseErrorKind::UnexpectedEof, 7, Expected::Expression))
    );
    assert_eq!(parser.parse_module(), Ok(()));
    assert_eq!(parser.position, 7);
    assert_eq!(parser.parse_maybe_binary(literal(1), 0), Ok(literal(1)));
}

#[test]
fn a_type_name_with_digits_cannot_be_written_in_source_text() {
    // the lexer ends the name at the digits, so the parameter list breaks off
    assert_eq!(
        module_error("fn id(x: i32) -> i32 do x end"),
        error(ParseErrorKind::UnexpectedToken, 6, Expected::Comma)
    );
}
