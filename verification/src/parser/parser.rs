use super::expression::{
    argument_views, expression_views, lemma_expression_view, ArrayExpression, BinaryExpression,
    BlockExpression, CallExpression, Expression, ExternFunctionExpression, FunctionArgument,
    FunctionExpression, NumberLiteralExpression, VariableExpression,
};
use super::grammar;
use super::grammar::{
    at, lemma_production_advances, unexpected, Expected, ParseError, ParseErrorKind, Production,
};
use super::module::{main_module_name, AstModule, AstModuleView};
use super::number::Number;
use super::expression::{ArgumentView, ExpressionView};
use super::tokenizer::{token_views, Keyword, Token, TokenValue, TokenView};
use super::types::Type;
use vstd::prelude::*;

verus! {

/// The length that a numeric constant gives to a list type, if it is an
/// integer that a length can hold.
pub fn list_length_of(number: &Number) -> (length: Option<u32>)
    ensures
        length == grammar::list_length(number@),
{
    if number.fraction.len() != 0 {
        return None;
    }
    let whole = number.integer_part();
    if whole > u32::MAX as u64 {
        None
    } else {
        Some(whole as u32)
    }
}

/// A cursor over a token sequence, and the module that the declarations
/// parsed so far make up.
pub struct Parser<'a> {
    /// The tokens to parse.
    pub tokens: &'a Vec<Token>,
    /// The index of the next token to read.
    pub position: usize,
    /// The declarations parsed so far.
    pub module: AstModule,
}

impl<'a> Parser<'a> {
    /// The models of the tokens.
    pub open spec fn views(&self) -> Seq<TokenView> {
        token_views(self.tokens@)
    }

    /// Whether this parser reads the same tokens as `other` and holds the
    /// same module.
    pub open spec fn same_input(&self, other: &Parser<'a>) -> bool {
        self.tokens == other.tokens && self.module == other.module
    }

    /// A parser at the start of `tokens`, with the empty module `Main`.
    pub fn new(tokens: &'a Vec<Token>) -> (parser: Parser<'a>)
        ensures
            parser.tokens == tokens,
            parser.position == 0,
            parser.module@ == (AstModuleView { name: main_module_name(), expressions: Seq::empty() }),
    {
        Parser { tokens, position: 0, module: AstModule::new() }
    }

    /// The error of not finding `expected` at the cursor.
    fn fail<T>(&self, expected: Expected) -> (failed: Result<T, ParseError>)
        ensures
            failed == Err::<T, ParseError>(unexpected(self.views(), self.position as int, expected)),
    {
        let kind = if self.position < self.tokens.len() {
            ParseErrorKind::UnexpectedToken
        } else {
            ParseErrorKind::UnexpectedEof
        };
        Err(ParseError { kind, position: self.position, expected })
    }

    /// Whether `token` stands at the cursor.
    fn next_is(&self, token: &TokenValue) -> (found: bool)
        ensures
            found == at(self.views(), self.position as int, token@),
            found ==> self.position < self.tokens.len(),
    {
        self.position < self.tokens.len() && self.tokens[self.position].value == *token
    }

    /// Parses an expression: an atom with the operators behind it, or a call.
    pub fn parse_expression(&mut self) -> (parsed: Result<Expression, ParseError>)
        ensures
            final(self).same_input(old(self)),
            match grammar::parse_expression(old(self).views(), old(self).position as int) {
                Ok((expression, next)) => {
                    &&& parsed matches Ok(e)
                    &&& e@ == expression
                    &&& final(self).position == next
                },
                Err(error) => {
                    &&& parsed == Err::<Expression, ParseError>(error)
                    &&& final(self).position == error.position
                },
            },
        decreases old(self).tokens.len() - old(self).position, 2int,
    {
        let ghost ts = self.views();
        let ghost start = self.position as int;
        if self.position > self.tokens.len() {
            return self.fail(Expected::Expression);
        }
        let atom = match self.parse_atom() {
            Ok(atom) => atom,
            Err(error) => {
                return Err(error);
            },
        };
        proof {
            lemma_production_advances(ts, start, Production::Atom);
            lemma_production_advances(ts, self.position as int, Production::Binary(atom@, 0));
        }
        let maybe_binary_expression = match self.parse_maybe_binary(atom, 0) {
            Ok(expression) => expression,
            Err(error) => {
                return Err(error);
            },
        };
        match &maybe_binary_expression {
            Expression::Variable(variable_expression) => {
                match self.parse_maybe_call(variable_expression) {
                    Ok(Some(expression)) => {
                        return Ok(expression);
                    },
                    Ok(None) => {},
                    Err(error) => {
                        return Err(error);
                    },
                }
            },
            _ => {},
        }
        Ok(maybe_binary_expression)
    }

    /// Parses the argument list of a call of `expression`, where one stands
    /// at the cursor.
    pub fn parse_maybe_call(&mut self, expression: &VariableExpression) -> (parsed: Result<
        Option<Expression>,
        ParseError,
    >)
        ensures
            final(self).same_input(old(self)),
            match grammar::parse_maybe_call(
                old(self).views(),
                old(self).position as int,
                expression@,
            ) {
                Ok((call, next)) => {
                    &&& parsed is Ok
                    &&& match call {
                        Some(c) => parsed->Ok_0 matches Some(e) && e@ == c,
                        None => parsed->Ok_0 is None,
                    }
                    &&& final(self).position == next
                },
                Err(error) => {
                    &&& parsed == Err::<Option<Expression>, ParseError>(error)
                    &&& final(self).position == error.position
                },
            },
        decreases old(self).tokens.len() - old(self).position, 5int,
    {
        let ghost ts = self.views();
        let ghost start = self.position as int;
        if !self.next_is(&TokenValue::OpenParen) {
            return Ok(None);
        }
        self.position = self.position + 1;
        let mut call_args: Vec<Expression> = Vec::new();
        proof {
            assert(expression_views(call_args@) =~= Seq::<ExpressionView>::empty());
        }
        loop
            invariant
                self.same_input(old(self)),
                ts == self.views(),
                start == old(self).position,
                start < self.position <= self.tokens.len(),
                at(ts, start, TokenView::OpenParen),
                grammar::parse_items(
                    ts,
                    self.position as int,
                    expression_views(call_args@),
                    TokenView::CloseParen,
                ) == grammar::parse_items(ts, start + 1, Seq::empty(), TokenView::CloseParen),
            decreases self.tokens.len() - self.position,
        {
            if self.position >= self.tokens.len() {
                return self.fail(Expected::CloseParen);
            }
            if self.next_is(&TokenValue::CloseParen) {
                self.position = self.position + 1;
                let call = Expression::Call(
                    Box::new(CallExpression::new(expression.binding.clone(), call_args)),
                );
                proof {
                    lemma_expression_view(call);
                }
                return Ok(Some(call));
            }
            let ghost here = self.position as int;
            let ghost before = expression_views(call_args@);
            let call_arg_expression = match self.parse_expression() {
                Ok(argument) => argument,
                Err(error) => {
                    return Err(error);
                },
            };
            proof {
                grammar::lemma_expression_advances(ts, here);
                assert(expression_views(call_args@.push(call_arg_expression)) =~= before.push(
                    call_arg_expression@,
                ));
            }
            call_args.push(call_arg_expression);
            if self.next_is(&TokenValue::Comma) {
                self.position = self.position + 1;
            } else if self.next_is(&TokenValue::CloseParen) {
                self.position = self.position + 1;
                let call = Expression::Call(
                    Box::new(CallExpression::new(expression.binding.clone(), call_args)),
                );
                proof {
                    lemma_expression_view(call);
                }
                return Ok(Some(call));
            } else {
                return self.fail(Expected::Comma);
            }
        }
    }

    /// Parses an atom: a numeric constant, a name, or a list literal.
    pub fn parse_atom(&mut self) -> (parsed: Result<Expression, ParseError>)
        ensures
            final(self).same_input(old(self)),
            match grammar::parse_atom(old(self).views(), old(self).position as int) {
                Ok((expression, next)) => {
                    &&& parsed matches Ok(e)
                    &&& e@ == expression
                    &&& final(self).position == next
                },
                Err(error) => {
                    &&& parsed == Err::<Expression, ParseError>(error)
                    &&& final(self).position == error.position
                },
            },
        decreases old(self).tokens.len() - old(self).position, 1int,
    {
        if self.position >= self.tokens.len() {
            return self.fail(Expected::Expression);
        }
        let tokens: &'a Vec<Token> = self.tokens;
        match &tokens[self.position].value {
            TokenValue::NumConst(number) => {
                self.position = self.position + 1;
                Ok(Expression::NumberLiteral(Box::new(NumberLiteralExpression::new(number.clone()))))
            },
            TokenValue::Identifier(identifier) => {
                self.position = self.position + 1;
                Ok(Expression::Variable(Box::new(VariableExpression::new(identifier.clone()))))
            },
            TokenValue::OpenSqBracket => match self.parse_array_expression() {
                Ok(array) => {
                    let expression = Expression::Array(Box::new(array));
                    proof {
                        lemma_expression_view(expression);
                    }
                    Ok(expression)
                },
                Err(error) => Err(error),
            },
            _ => self.fail(Expected::Expression),
        }
    }

    /// Parses the operators behind `left`, as far as they bind tighter than
    /// `precedence`, together with their right operands.
    pub fn parse_maybe_binary(&mut self, left: Expression, precedence: u16) -> (parsed: Result<
        Expression,
        ParseError,
    >)
        ensures
            final(self).same_input(old(self)),
            match grammar::parse_maybe_binary(
                old(self).views(),
                old(self).position as int,
                left@,
                precedence,
            ) {
                Ok((expression, next)) => {
                    &&& parsed matches Ok(e)
                    &&& e@ == expression
                    &&& final(self).position == next
                },
                Err(error) => {
                    &&& parsed == Err::<Expression, ParseError>(error)
                    &&& final(self).position == error.position
                },
            },
        decreases old(self).tokens.len() - old(self).position, 4int,
    {
        let ghost ts = self.views();
        let ghost start = self.position as int;
        if self.position >= self.tokens.len() {
            return Ok(left);
        }
        let tokens: &'a Vec<Token> = self.tokens;
        match &tokens[self.position].value {
            TokenValue::Operator(op) => {
                let operator = *op;
                let right_precedence = operator.precedence();
                if right_precedence > precedence {
                    self.position = self.position + 1;
                    let expression = match self.parse_atom() {
                        Ok(atom) => atom,
                        Err(error) => {
                            return Err(error);
                        },
                    };
                    proof {
                        lemma_production_advances(ts, start + 1, Production::Atom);
                        lemma_production_advances(
                            ts,
                            self.position as int,
                            Production::Binary(expression@, right_precedence),
                        );
                    }
                    let right = match self.parse_maybe_binary(expression, right_precedence) {
                        Ok(right) => right,
                        Err(error) => {
                            return Err(error);
                        },
                    };
                    let binary_expression = BinaryExpression::new(operator, left, right);
                    return self.parse_maybe_binary(
                        Expression::Binary(Box::new(binary_expression)),
                        precedence,
                    );
                }
            },
            _ => {},
        }
        Ok(left)
    }

    /// Parses a list literal: `[`, items separated by `,`, and `]`.
    pub fn parse_array_expression(&mut self) -> (parsed: Result<ArrayExpression, ParseError>)
        ensures
            final(self).same_input(old(self)),
            match grammar::parse_array_expression(old(self).views(), old(self).position as int) {
                Ok((array, next)) => {
                    &&& parsed matches Ok(a)
                    &&& a@ == array
                    &&& final(self).position == next
                },
                Err(error) => {
                    &&& parsed == Err::<ArrayExpression, ParseError>(error)
                    &&& final(self).position == error.position
                },
            },
        decreases old(self).tokens.len() - old(self).position, 0int,
    {
        let ghost ts = self.views();
        let ghost start = self.position as int;
        if !self.next_is(&TokenValue::OpenSqBracket) {
            return self.fail(Expected::OpenSqBracket);
        }
        self.position = self.position + 1;
        let mut items: Vec<Expression> = Vec::new();
        proof {
            assert(expression_views(items@) =~= Seq::<ExpressionView>::empty());
        }
        loop
            invariant
                self.same_input(old(self)),
                ts == self.views(),
                start == old(self).position,
                start < self.position <= self.tokens.len(),
                at(ts, start, TokenView::OpenSqBracket),
                grammar::parse_items(
                    ts,
                    self.position as int,
                    expression_views(items@),
                    TokenView::CloseSqBracket,
                ) == grammar::parse_items(ts, start + 1, Seq::empty(), TokenView::CloseSqBracket),
            decreases self.tokens.len() - self.position,
        {
            if self.position >= self.tokens.len() {
                return self.fail(Expected::CloseSqBracket);
            }
            if self.next_is(&TokenValue::CloseSqBracket) {
                self.position = self.position + 1;
                return Ok(ArrayExpression::new(items));
            }
            let ghost here = self.position as int;
            let ghost before = expression_views(items@);
            let item_expression = match self.parse_expression() {
                Ok(item) => item,
                Err(error) => {
                    return Err(error);
                },
            };
            proof {
                grammar::lemma_expression_advances(ts, here);
                assert(expression_views(items@.push(item_expression)) =~= before.push(
                    item_expression@,
                ));
            }
            items.push(item_expression);
            if self.next_is(&TokenValue::Comma) {
                self.position = self.position + 1;
            } else if self.next_is(&TokenValue::CloseSqBracket) {
                self.position = self.position + 1;
                return Ok(ArrayExpression::new(items));
            } else {
                return self.fail(Expected::Comma);
            }
        }
    }
    /// Parses a block of the given type: `do`, statements, and `end`.
    pub fn parse_block(&mut self, return_type: Type) -> (parsed: Result<BlockExpression, ParseError>)
        ensures
            final(self).same_input(old(self)),
            match grammar::parse_block(
                old(self).views(),
                old(self).position as int,
                return_type@,
            ) {
                Ok((block, next)) => {
                    &&& parsed matches Ok(b)
                    &&& b@ == block
                    &&& final(self).position == next
                },
                Err(error) => {
                    &&& parsed == Err::<BlockExpression, ParseError>(error)
                    &&& final(self).position == error.position
                },
            },
    {
        let ghost ts = self.views();
        let ghost start = self.position as int;
        if !self.next_is(&TokenValue::Keyword(Keyword::Do)) {
            return self.fail(Expected::Do);
        }
        self.position = self.position + 1;
        let mut expressions: Vec<Expression> = Vec::new();
        proof {
            assert(expression_views(expressions@) =~= Seq::<ExpressionView>::empty());
        }
        loop
            invariant
                self.same_input(old(self)),
                ts == self.views(),
                start == old(self).position,
                start < self.position <= self.tokens.len(),
                at(ts, start, TokenView::Keyword(Keyword::Do)),
                grammar::parse_statements(ts, self.position as int, expression_views(expressions@))
                    == grammar::parse_statements(ts, start + 1, Seq::empty()),
            decreases self.tokens.len() - self.position,
        {
            if self.position >= self.tokens.len() {
                return self.fail(Expected::End);
            }
            if self.next_is(&TokenValue::Keyword(Keyword::End)) {
                self.position = self.position + 1;
                return Ok(BlockExpression::new(expressions, return_type));
            }
            let ghost here = self.position as int;
            let ghost before = expression_views(expressions@);
            let expression = match self.parse_expression() {
                Ok(statement) => statement,
                Err(error) => {
                    return Err(error);
                },
            };
            proof {
                grammar::lemma_expression_advances(ts, here);
                assert(expression_views(expressions@.push(expression)) =~= before.push(
                    expression@,
                ));
            }
            expressions.push(expression);
        }
    }

    /// The name at the cursor, where one stands there.
    fn identifier(&self) -> (name: Option<String>)
        ensures
            name is Some ==> self.position < self.tokens.len(),
            match name {
                Some(text) => self.position < self.tokens.len() && self.views()[self.position as int]
                    == TokenView::Identifier(text@),
                None => !(self.position < self.tokens.len() && self.views()[self.position as int]
                    is Identifier),
            },
    {
        if self.position >= self.tokens.len() {
            return None;
        }
        match &self.tokens[self.position].value {
            TokenValue::Identifier(name) => Some(name.clone()),
            _ => None,
        }
    }

    /// Parses the parameter list at the cursor, where one stands there.
    fn parse_optional_args(&mut self) -> (parsed: Result<Vec<FunctionArgument>, ParseError>)
        ensures
            final(self).same_input(old(self)),
            match grammar::parse_optional_args(old(self).views(), old(self).position as int) {
                Ok((arguments, next)) => {
                    &&& parsed matches Ok(a)
                    &&& argument_views(a@) == arguments
                    &&& final(self).position == next
                },
                Err(error) => {
                    &&& parsed == Err::<Vec<FunctionArgument>, ParseError>(error)
                    &&& final(self).position == error.position
                },
            },
    {
        if self.next_is(&TokenValue::OpenParen) {
            self.parse_function_args()
        } else {
            let arguments: Vec<FunctionArgument> = Vec::new();
            proof {
                assert(argument_views(arguments@) =~= Seq::<ArgumentView>::empty());
            }
            Ok(arguments)
        }
    }

    /// Parses a function: `fn`, a name, parameters, a return type, a body.
    pub fn parse_function(&mut self) -> (parsed: Result<FunctionExpression, ParseError>)
        ensures
            final(self).same_input(old(self)),
            match grammar::parse_function(old(self).views(), old(self).position as int) {
                Ok((function, next)) => {
                    &&& parsed matches Ok(f)
                    &&& f@ == function
                    &&& final(self).position == next
                },
                Err(error) => {
                    &&& parsed == Err::<FunctionExpression, ParseError>(error)
                    &&& final(self).position == error.position
                },
            },
    {
        if !self.next_is(&TokenValue::Keyword(Keyword::Fn)) {
            return self.fail(Expected::Fn);
        }
        self.position = self.position + 1;
        let name = match self.identifier() {
            Some(name) => name,
            None => {
                return self.fail(Expected::Identifier);
            },
        };
        self.position = self.position + 1;
        let args = match self.parse_optional_args() {
            Ok(args) => args,
            Err(error) => {
                return Err(error);
            },
        };
        let ret_type = match self.parse_return_type_signature(Type::Unknown) {
            Ok(ret_type) => ret_type,
            Err(error) => {
                return Err(error);
            },
        };
        match self.parse_block(ret_type) {
            Ok(body) => Ok(FunctionExpression::new(name.as_str(), body, args)),
            Err(error) => Err(error),
        }
    }

    /// Parses the declaration of an external function: `defextern`, a name,
    /// parameters, a return type.
    pub fn parse_extern_function(&mut self) -> (parsed: Result<ExternFunctionExpression, ParseError>)
        ensures
            final(self).same_input(old(self)),
            match grammar::parse_extern_function(old(self).views(), old(self).position as int) {
                Ok((function, next)) => {
                    &&& parsed matches Ok(f)
                    &&& f@ == function
                    &&& final(self).position == next
                },
                Err(error) => {
                    &&& parsed == Err::<ExternFunctionExpression, ParseError>(error)
                    &&& final(self).position == error.position
                },
            },
    {
        if !self.next_is(&TokenValue::Keyword(Keyword::DefExtern)) {
            return self.fail(Expected::DefExtern);
        }
        self.position = self.position + 1;
        let name = match self.identifier() {
            Some(name) => name,
            None => {
                return self.fail(Expected::Identifier);
            },
        };
        self.position = self.position + 1;
        let args = match self.parse_optional_args() {
            Ok(args) => args,
            Err(error) => {
                return Err(error);
            },
        };
        match self.parse_return_type_signature(Type::Void) {
            Ok(ret_type) => Ok(ExternFunctionExpression::new(name.as_str(), args, ret_type)),
            Err(error) => Err(error),
        }
    }

    /// Parses a parameter list: `(`, parameters separated by `,`, and `)`.
    pub fn parse_function_args(&mut self) -> (parsed: Result<Vec<FunctionArgument>, ParseError>)
        ensures
            final(self).same_input(old(self)),
            match grammar::parse_function_args(old(self).views(), old(self).position as int) {
                Ok((arguments, next)) => {
                    &&& parsed matches Ok(a)
                    &&& argument_views(a@) == arguments
                    &&& final(self).position == next
                },
                Err(error) => {
                    &&& parsed == Err::<Vec<FunctionArgument>, ParseError>(error)
                    &&& final(self).position == error.position
                },
            },
    {
        let ghost ts = self.views();
        let ghost start = self.position as int;
        if !self.next_is(&TokenValue::OpenParen) {
            return self.fail(Expected::OpenParen);
        }
        self.position = self.position + 1;
        let mut args: Vec<FunctionArgument> = Vec::new();
        proof {
            assert(argument_views(args@) =~= Seq::<ArgumentView>::empty());
        }
        loop
            invariant
                self.same_input(old(self)),
                ts == self.views(),
                start == old(self).position,
                start < self.position <= self.tokens.len(),
                at(ts, start, TokenView::OpenParen),
                grammar::parse_arguments(ts, self.position as int, argument_views(args@))
                    == grammar::parse_arguments(ts, start + 1, Seq::empty()),
            decreases self.tokens.len() - self.position,
        {
            if self.position >= self.tokens.len() {
                return self.fail(Expected::CloseParen);
            }
            if self.next_is(&TokenValue::CloseParen) {
                self.position = self.position + 1;
                return Ok(args);
            }
            let ghost here = self.position as int;
            let ghost before = argument_views(args@);
            let fn_signature = match self.parse_function_arg_signature() {
                Ok(argument) => argument,
                Err(error) => {
                    return Err(error);
                },
            };
            proof {
                grammar::lemma_type_advances(ts, here + 2);
                assert(argument_views(args@.push(fn_signature)) =~= before.push(fn_signature@));
            }
            args.push(fn_signature);
            if self.next_is(&TokenValue::Comma) {
                self.position = self.position + 1;
            } else if self.next_is(&TokenValue::CloseParen) {
                self.position = self.position + 1;
                return Ok(args);
            } else {
                return self.fail(Expected::Comma);
            }
        }
    }

    /// Parses `->` and a type, where an arrow stands at the cursor; the type
    /// is `default` where none does.
    pub fn parse_return_type_signature(&mut self, default: Type) -> (parsed: Result<Type, ParseError>)
        ensures
            final(self).same_input(old(self)),
            match grammar::parse_return_type_signature(
                old(self).views(),
                old(self).position as int,
                default@,
            ) {
                Ok((found, next)) => {
                    &&& parsed matches Ok(t)
                    &&& t@ == found
                    &&& final(self).position == next
                },
                Err(error) => {
                    &&& parsed == Err::<Type, ParseError>(error)
                    &&& final(self).position == error.position
                },
            },
    {
        if self.next_is(&TokenValue::ReturnArrow) {
            self.position = self.position + 1;
            self.parse_type()
        } else {
            Ok(default)
        }
    }

    /// Parses `:` and a type.
    pub fn parse_type_signature(&mut self) -> (parsed: Result<Type, ParseError>)
        ensures
            final(self).same_input(old(self)),
            match grammar::parse_type_signature(old(self).views(), old(self).position as int) {
                Ok((found, next)) => {
                    &&& parsed matches Ok(t)
                    &&& t@ == found
                    &&& final(self).position == next
                },
                Err(error) => {
                    &&& parsed == Err::<Type, ParseError>(error)
                    &&& final(self).position == error.position
                },
            },
    {
        if self.next_is(&TokenValue::Colon) {
            self.position = self.position + 1;
            self.parse_type()
        } else {
            self.fail(Expected::Colon)
        }
    }

    /// Parses a type: a name, or a list type with its element type and
    /// length.
    pub fn parse_type(&mut self) -> (parsed: Result<Type, ParseError>)
        ensures
            final(self).same_input(old(self)),
            match grammar::parse_type(old(self).views(), old(self).position as int) {
                Ok((found, next)) => {
                    &&& parsed matches Ok(t)
                    &&& t@ == found
                    &&& final(self).position == next
                },
                Err(error) => {
                    &&& parsed == Err::<Type, ParseError>(error)
                    &&& final(self).position == error.position
                },
            },
        decreases old(self).tokens.len() - old(self).position,
    {
        if self.position >= self.tokens.len() {
            return self.fail(Expected::Type);
        }
        let tokens: &'a Vec<Token> = self.tokens;
        match &tokens[self.position].value {
            TokenValue::Identifier(ident) => {
                self.position = self.position + 1;
                Ok(Type::from(ident.as_str()))
            },
            TokenValue::OpenSqBracket => {
                self.position = self.position + 1;
                let inner_type = match self.parse_type() {
                    Ok(inner_type) => inner_type,
                    Err(error) => {
                        return Err(error);
                    },
                };
                if !self.next_is(&TokenValue::SemiColon) {
                    return self.fail(Expected::LengthSeparator);
                }
                self.position = self.position + 1;
                if self.position >= tokens.len() {
                    return self.fail(Expected::Length);
                }
                match &tokens[self.position].value {
                    TokenValue::NumConst(length) => {
                        let items = match list_length_of(length) {
                            Some(items) => items,
                            None => {
                                return self.fail(Expected::Length);
                            },
                        };
                        self.position = self.position + 1;
                        if !self.next_is(&TokenValue::CloseSqBracket) {
                            return self.fail(Expected::CloseSqBracket);
                        }
                        self.position = self.position + 1;
                        Ok(Type::ListOf(Box::new(inner_type), items))
                    },
                    _ => self.fail(Expected::Length),
                }
            },
            _ => self.fail(Expected::Type),
        }
    }

    /// Parses a parameter: a name, `:` and a type.
    pub fn parse_function_arg_signature(&mut self) -> (parsed: Result<FunctionArgument, ParseError>)
        ensures
            final(self).same_input(old(self)),
            match grammar::parse_function_arg_signature(
                old(self).views(),
                old(self).position as int,
            ) {
                Ok((argument, next)) => {
                    &&& parsed matches Ok(a)
                    &&& a@ == argument
                    &&& final(self).position == next
                },
                Err(error) => {
                    &&& parsed == Err::<FunctionArgument, ParseError>(error)
                    &&& final(self).position == error.position
                },
            },
    {
        let binding = match self.identifier() {
            Some(binding) => binding,
            None => {
                return self.fail(Expected::Identifier);
            },
        };
        self.position = self.position + 1;
        match self.parse_type_signature() {
            Ok(arg_type) => Ok(FunctionArgument::new(binding, arg_type)),
            Err(error) => Err(error),
        }
    }

    /// Parses one declaration and appends it to the module.
    pub fn parse_top_level_expression(&mut self) -> (parsed: Result<(), ParseError>)
        ensures
            final(self).tokens == old(self).tokens,
            final(self).module.name == old(self).module.name,
            match grammar::parse_top_level_expression(old(self).views(), old(self).position as int) {
                Ok((declaration, next)) => {
                    &&& parsed is Ok
                    &&& final(self).module@.expressions == old(self).module@.expressions.push(
                        declaration,
                    )
                    &&& final(self).module.expressions@.len() == old(self).module.expressions@.len()
                        + 1
                    &&& final(self).module.expressions@.drop_last() == old(
                        self,
                    ).module.expressions@
                    &&& final(self).position == next
                },
                Err(error) => {
                    &&& parsed == Err::<(), ParseError>(error)
                    &&& final(self).module == old(self).module
                    &&& final(self).position == error.position
                },
            },
    {
        let ghost before = self.module@.expressions;
        let expression = if self.next_is(&TokenValue::Keyword(Keyword::Fn)) {
            match self.parse_function() {
                Ok(function) => Expression::Function(Box::new(function)),
                Err(error) => {
                    return Err(error);
                },
            }
        } else if self.next_is(&TokenValue::Keyword(Keyword::DefExtern)) {
            match self.parse_extern_function() {
                Ok(function) => Expression::ExternFunction(Box::new(function)),
                Err(error) => {
                    return Err(error);
                },
            }
        } else {
            return self.fail(Expected::Declaration);
        };
        proof {
            lemma_expression_view(expression);
            assert(expression_views(self.module.expressions@.push(expression)) =~= before.push(
                expression@,
            ));
        }
        self.module.expressions.push(expression);
        proof {
            assert(self.module.expressions@.drop_last() =~= old(self).module.expressions@);
        }
        Ok(())
    }

    /// Parses declarations up to the end of the tokens and appends them to the
    /// module. At the first error the module is left as it was.
    pub fn parse_module(&mut self) -> (parsed: Result<(), ParseError>)
        ensures
            final(self).tokens == old(self).tokens,
            final(self).module.name == old(self).module.name,
            match grammar::parse_declarations(
                old(self).views(),
                old(self).position as int,
                old(self).module@.expressions,
            ) {
                Ok(declarations) => {
                    &&& parsed is Ok
                    &&& final(self).module@.expressions == declarations
                    &&& final(self).position == if old(self).position <= old(self).tokens.len() {
                        old(self).tokens.len()
                    } else {
                        old(self).position
                    }
                },
                Err(error) => {
                    &&& parsed == Err::<(), ParseError>(error)
                    &&& final(self).module@ == old(self).module@
                    &&& final(self).position == error.position
                },
            },
    {
        let ghost ts = self.views();
        let kept = self.module.expressions.len();
        while self.position < self.tokens.len()
            invariant
                self.tokens == old(self).tokens,
                self.module.name == old(self).module.name,
                ts == self.views(),
                kept == old(self).module.expressions.len(),
                kept <= self.module.expressions.len(),
                old(self).position <= self.position,
                old(self).position <= self.tokens.len() ==> self.position <= self.tokens.len(),
                old(self).position > self.tokens.len() ==> self.position == old(self).position,
                self.module.expressions@.subrange(0, kept as int) == old(self).module.expressions@,
                grammar::parse_declarations(ts, self.position as int, self.module@.expressions)
                    == grammar::parse_declarations(
                    ts,
                    old(self).position as int,
                    old(self).module@.expressions,
                ),
            decreases self.tokens.len() - self.position,
        {
            let ghost here = self.position as int;
            proof {
                grammar::lemma_top_level_advances(ts, here);
            }
            match self.parse_top_level_expression() {
                Ok(()) => {
                    assert(self.module.expressions@.subrange(0, kept as int)
                        =~= self.module.expressions@.drop_last().subrange(0, kept as int));
                },
                Err(error) => {
                    self.module.expressions.truncate(kept);
                    return Err(error);
                },
            }
        }
        Ok(())
    }
}

/// Parses a token sequence into the module of its declarations, or reports
/// the first syntax error.
pub fn parse(tokens: &Vec<Token>) -> (parsed: Result<AstModule, ParseError>)
    ensures
        match grammar::parse_module(token_views(tokens@)) {
            Ok(declarations) => {
                &&& parsed matches Ok(module)
                &&& module@ == (AstModuleView { name: main_module_name(), expressions: declarations })
            },
            Err(error) => parsed == Err::<AstModule, ParseError>(error),
        },
{
    let mut parser = Parser::new(tokens);
    match parser.parse_module() {
        Ok(()) => Ok(parser.module),
        Err(error) => Err(error),
    }
}

} // verus!
