//! The grammar of the language, as functions from a token sequence and a
//! position in it to what stands there: a value and the position after it, or
//! the first syntax error.

use super::expression::{
    ArgumentView, ArrayView, BinaryView, BlockView, CallView, ExpressionView,
    ExternFunctionView, FunctionView, NumberLiteralView, VariableView,
};
use super::number::NumberView;
use super::tokenizer::{BinaryOperator, Keyword, TokenView};
use super::types::{type_of_name, TypeView};
use vstd::prelude::*;

verus! {

/// What the parser was looking for when it met a token it could not use.
#[derive(Clone, Copy, Debug, PartialEq, Eq, Structural)]
pub enum Expected {
    /// A declaration: `fn` or `defextern`.
    Declaration,
    /// The keyword `fn`.
    Fn,
    /// The keyword `defextern`.
    DefExtern,
    /// The keyword `do`.
    Do,
    /// The keyword `end`.
    End,
    /// A name.
    Identifier,
    /// The start of an expression.
    Expression,
    /// The name of a type, or `[`.
    Type,
    /// `(`.
    OpenParen,
    /// `)`.
    CloseParen,
    /// `[`.
    OpenSqBracket,
    /// `]`.
    CloseSqBracket,
    /// `,`, or what closes the list.
    Comma,
    /// `:`.
    Colon,
    /// `;`, between the element type and the length of a list type.
    LengthSeparator,
    /// The length of a list type: an integer constant that fits a length.
    Length,
}

/// Whether parsing stopped at a token or at the end of the tokens.
#[derive(Clone, Copy, Debug, PartialEq, Eq, Structural)]
pub enum ParseErrorKind {
    UnexpectedEof,
    UnexpectedToken,
}

/// A syntax error: the index of the token that could not be used (the number
/// of tokens, where they ended too soon) and what was expected in its place.
#[derive(Clone, Copy, Debug, PartialEq, Eq, Structural)]
pub struct ParseError {
    pub kind: ParseErrorKind,
    pub position: usize,
    pub expected: Expected,
}

/// The error of finding something else than `expected` at `pos`.
pub open spec fn unexpected(ts: Seq<TokenView>, pos: int, expected: Expected) -> ParseError {
    ParseError {
        kind: if 0 <= pos < ts.len() {
            ParseErrorKind::UnexpectedToken
        } else {
            ParseErrorKind::UnexpectedEof
        },
        position: pos as usize,
        expected,
    }
}

/// Whether `token` stands at `pos`.
pub open spec fn at(ts: Seq<TokenView>, pos: int, token: TokenView) -> bool {
    0 <= pos < ts.len() && ts[pos] == token
}

/// The length that a numeric constant gives to a list type. Only an integer
/// that a length can hold is one: a constant with a fraction gives none, nor
/// does one that is larger than the largest `u32`.
pub open spec fn list_length(number: NumberView) -> Option<u32> {
    if number.fraction.len() == 0 && number.integer_part() <= u32::MAX {
        Some(number.integer_part() as u32)
    } else {
        None
    }
}

/// A type: a name, or `[`, an element type, `;`, a length and `]`. The
/// length is an integer constant.
pub open spec fn parse_type(ts: Seq<TokenView>, pos: int) -> Result<(TypeView, int), ParseError>
    decreases ts.len() - pos,
{
    if !(0 <= pos < ts.len()) {
        Err(unexpected(ts, pos, Expected::Type))
    } else {
        match ts[pos] {
            TokenView::Identifier(name) => Ok((type_of_name(name), pos + 1)),
            TokenView::OpenSqBracket => match parse_type(ts, pos + 1) {
                Err(error) => Err(error),
                Ok((element, p)) => if !at(ts, p, TokenView::SemiColon) {
                    Err(unexpected(ts, p, Expected::LengthSeparator))
                } else if !(p + 1 < ts.len() && ts[p + 1] is NumConst && list_length(
                    ts[p + 1]->NumConst_0,
                ) is Some) {
                    Err(unexpected(ts, p + 1, Expected::Length))
                } else if !at(ts, p + 2, TokenView::CloseSqBracket) {
                    Err(unexpected(ts, p + 2, Expected::CloseSqBracket))
                } else {
                    Ok(
                        (
                            TypeView::ListOf(
                                Box::new(element),
                                list_length(ts[p + 1]->NumConst_0)->Some_0,
                            ),
                            p + 3,
                        ),
                    )
                },
            },
            _ => Err(unexpected(ts, pos, Expected::Type)),
        }
    }
}

/// `:` and a type.
pub open spec fn parse_type_signature(ts: Seq<TokenView>, pos: int) -> Result<
    (TypeView, int),
    ParseError,
> {
    if at(ts, pos, TokenView::Colon) {
        parse_type(ts, pos + 1)
    } else {
        Err(unexpected(ts, pos, Expected::Colon))
    }
}

/// `->` and a type; where no arrow stands, the type is `default` and nothing
/// is consumed.
pub open spec fn parse_return_type_signature(
    ts: Seq<TokenView>,
    pos: int,
    default: TypeView,
) -> Result<(TypeView, int), ParseError> {
    if at(ts, pos, TokenView::ReturnArrow) {
        parse_type(ts, pos + 1)
    } else {
        Ok((default, pos))
    }
}

/// A parameter: a name, `:` and a type.
pub open spec fn parse_function_arg_signature(ts: Seq<TokenView>, pos: int) -> Result<
    (ArgumentView, int),
    ParseError,
> {
    if 0 <= pos < ts.len() && ts[pos] is Identifier {
        match parse_type_signature(ts, pos + 1) {
            Ok((input_type, p)) => Ok(
                (ArgumentView { binding_name: ts[pos]->Identifier_0, input_type }, p),
            ),
            Err(error) => Err(error),
        }
    } else {
        Err(unexpected(ts, pos, Expected::Identifier))
    }
}

/// A type, where one stands, ends after where it starts and within the
/// tokens; where none stands, the error is at a token from there on.
pub proof fn lemma_type_advances(ts: Seq<TokenView>, pos: int)
    ensures
        parse_type(ts, pos) matches Ok((_, next)) ==> pos < next <= ts.len(),
        0 <= pos <= ts.len() <= usize::MAX ==> (parse_type(ts, pos) matches Err(error)
            ==> error_from(ts, pos, error)),
    decreases ts.len() - pos,
{
    if 0 <= pos < ts.len() && ts[pos] is OpenSqBracket {
        lemma_type_advances(ts, pos + 1);
    }
}

/// The parameters that follow those in `arguments`, up to the closing
/// parenthesis: each is followed by `,` or by `)`, and `)` may follow a `,`.
pub open spec fn parse_arguments(
    ts: Seq<TokenView>,
    pos: int,
    arguments: Seq<ArgumentView>,
) -> Result<(Seq<ArgumentView>, int), ParseError>
    decreases ts.len() - pos,
{
    if !(0 <= pos < ts.len()) {
        Err(unexpected(ts, pos, Expected::CloseParen))
    } else if ts[pos] == TokenView::CloseParen {
        Ok((arguments, pos + 1))
    } else {
        match parse_function_arg_signature(ts, pos) {
            Err(error) => Err(error),
            Ok((argument, p)) => {
                if !(0 <= p < ts.len()) {
                    Err(unexpected(ts, p, Expected::Comma))
                } else if ts[p] == TokenView::CloseParen {
                    Ok((arguments.push(argument), p + 1))
                } else if ts[p] == TokenView::Comma {
                    proof {
                        lemma_type_advances(ts, pos + 2);
                    }
                    parse_arguments(ts, p + 1, arguments.push(argument))
                } else {
                    Err(unexpected(ts, p, Expected::Comma))
                }
            },
        }
    }
}

/// A parameter list: `(`, parameters separated by `,`, and `)`.
pub open spec fn parse_function_args(ts: Seq<TokenView>, pos: int) -> Result<
    (Seq<ArgumentView>, int),
    ParseError,
> {
    if at(ts, pos, TokenView::OpenParen) {
        parse_arguments(ts, pos + 1, Seq::empty())
    } else {
        Err(unexpected(ts, pos, Expected::OpenParen))
    }
}

/// What is expected where a list should have been closed by `close`.
pub open spec fn closing(close: TokenView) -> Expected {
    if close == TokenView::CloseSqBracket {
        Expected::CloseSqBracket
    } else {
        Expected::CloseParen
    }
}

/// The error that stands where a production has consumed nothing. No token
/// sequence leads there (see [`lemma_production_advances`]): the comparisons
/// of positions that guard against it are what makes the definitions below
/// well-founded.
pub open spec fn stalled(pos: int) -> ParseError {
    ParseError {
        kind: ParseErrorKind::UnexpectedToken,
        position: pos as usize,
        expected: Expected::Expression,
    }
}

/// An atom: a numeric constant, a name, or a list literal.
pub open spec fn parse_atom(ts: Seq<TokenView>, pos: int) -> Result<
    (ExpressionView, int),
    ParseError,
>
    decreases ts.len() - pos, 1int,
{
    if !(0 <= pos < ts.len()) {
        Err(unexpected(ts, pos, Expected::Expression))
    } else {
        match ts[pos] {
            TokenView::NumConst(number) => Ok(
                (
                    ExpressionView::NumberLiteral(
                        NumberLiteralView { number, return_type: TypeView::Int32 },
                    ),
                    pos + 1,
                ),
            ),
            TokenView::Identifier(name) => Ok(
                (
                    ExpressionView::Variable(
                        VariableView { binding: name, return_type: TypeView::Unknown },
                    ),
                    pos + 1,
                ),
            ),
            TokenView::OpenSqBracket => match parse_array_expression(ts, pos) {
                Ok((array, p)) => Ok((ExpressionView::Array(array), p)),
                Err(error) => Err(error),
            },
            _ => Err(unexpected(ts, pos, Expected::Expression)),
        }
    }
}

/// A list literal: `[`, expressions separated by `,`, and `]`.
pub open spec fn parse_array_expression(ts: Seq<TokenView>, pos: int) -> Result<
    (ArrayView, int),
    ParseError,
>
    decreases ts.len() - pos, 0int,
{
    if at(ts, pos, TokenView::OpenSqBracket) {
        match parse_items(ts, pos + 1, Seq::empty(), TokenView::CloseSqBracket) {
            Ok((items, p)) => Ok((ArrayView { items }, p)),
            Err(error) => Err(error),
        }
    } else {
        Err(unexpected(ts, pos, Expected::OpenSqBracket))
    }
}

/// The expressions that follow those in `items`, up to the token `close`:
/// each is followed by `,` or by `close`, and `close` may follow a `,`.
pub open spec fn parse_items(
    ts: Seq<TokenView>,
    pos: int,
    items: Seq<ExpressionView>,
    close: TokenView,
) -> Result<(Seq<ExpressionView>, int), ParseError>
    decreases ts.len() - pos, 3int,
{
    if !(0 <= pos < ts.len()) {
        Err(unexpected(ts, pos, closing(close)))
    } else if ts[pos] == close {
        Ok((items, pos + 1))
    } else {
        match parse_expression(ts, pos) {
            Err(error) => Err(error),
            Ok((item, p)) => {
                if !(0 <= p < ts.len()) {
                    Err(unexpected(ts, p, Expected::Comma))
                } else if ts[p] == close {
                    Ok((items.push(item), p + 1))
                } else if ts[p] == TokenView::Comma {
                    if pos <= p {
                        parse_items(ts, p + 1, items.push(item), close)
                    } else {
                        Err(stalled(pos))
                    }
                } else {
                    Err(unexpected(ts, p, Expected::Comma))
                }
            },
        }
    }
}

/// An expression: an atom and the binary operators that follow it; where
/// that comes to a bare name and `(` follows, a call of that name.
pub open spec fn parse_expression(ts: Seq<TokenView>, pos: int) -> Result<
    (ExpressionView, int),
    ParseError,
>
    decreases ts.len() - pos, 2int,
{
    match parse_atom(ts, pos) {
        Err(error) => Err(error),
        Ok((atom, p)) => if pos < p <= ts.len() {
            match parse_maybe_binary(ts, p, atom, 0) {
                Err(error) => Err(error),
                Ok((expression, q)) => match expression {
                    ExpressionView::Variable(variable) => if at(ts, q, TokenView::OpenParen) {
                        if pos <= q {
                            match parse_items(ts, q + 1, Seq::empty(), TokenView::CloseParen) {
                                Ok((args, r)) => Ok(
                                    (
                                        ExpressionView::Call(
                                            CallView { function_name: variable.binding, args },
                                        ),
                                        r,
                                    ),
                                ),
                                Err(error) => Err(error),
                            }
                        } else {
                            Err(stalled(pos))
                        }
                    } else {
                        Ok((expression, q))
                    },
                    _ => Ok((expression, q)),
                },
            }
        } else {
            Err(stalled(pos))
        },
    }
}

/// The expression that `left` and the operators behind it make, as far as
/// they bind tighter than `precedence`. An operator that does takes an atom
/// and what binds tighter than itself as its right operand; the node of the
/// two is the left operand for what follows.
pub open spec fn parse_maybe_binary(
    ts: Seq<TokenView>,
    pos: int,
    left: ExpressionView,
    precedence: u16,
) -> Result<(ExpressionView, int), ParseError>
    decreases ts.len() - pos, 4int,
{
    if 0 <= pos < ts.len() && ts[pos] is Operator && ts[pos]->Operator_0.spec_precedence()
        > precedence {
        let operator = ts[pos]->Operator_0;
        match parse_atom(ts, pos + 1) {
            Err(error) => Err(error),
            Ok((atom, p)) => if pos < p <= ts.len() {
                match parse_maybe_binary(ts, p, atom, operator.spec_precedence()) {
                    Err(error) => Err(error),
                    Ok((right, q)) => if pos < q <= ts.len() {
                        parse_maybe_binary(
                            ts,
                            q,
                            ExpressionView::Binary(
                                BinaryView {
                                    left: Box::new(left),
                                    right: Box::new(right),
                                    operator,
                                },
                            ),
                            precedence,
                        )
                    } else {
                        Err(stalled(pos))
                    },
                }
            } else {
                Err(stalled(pos))
            },
        }
    } else {
        Ok((left, pos))
    }
}

/// The call that a name makes with the argument list behind it, where `(`
/// follows the name; nothing where it does not.
pub open spec fn parse_maybe_call(ts: Seq<TokenView>, pos: int, variable: VariableView) -> Result<
    (Option<ExpressionView>, int),
    ParseError,
> {
    if at(ts, pos, TokenView::OpenParen) {
        match parse_items(ts, pos + 1, Seq::empty(), TokenView::CloseParen) {
            Ok((args, p)) => Ok(
                (
                    Some(
                        ExpressionView::Call(CallView { function_name: variable.binding, args }),
                    ),
                    p,
                ),
            ),
            Err(error) => Err(error),
        }
    } else {
        Ok((None, pos))
    }
}

/// The productions of expressions.
pub enum Production {
    Atom,
    Array,
    Items(Seq<ExpressionView>, TokenView),
    Expression,
    Binary(ExpressionView, u16),
}

/// Where the production applied at `pos` ends, if it succeeds.
pub open spec fn production_end(ts: Seq<TokenView>, pos: int, production: Production) -> Option<
    int,
> {
    match production {
        Production::Atom => match parse_atom(ts, pos) {
            Ok((_, next)) => Some(next),
            Err(_) => None,
        },
        Production::Array => match parse_array_expression(ts, pos) {
            Ok((_, next)) => Some(next),
            Err(_) => None,
        },
        Production::Items(items, close) => match parse_items(ts, pos, items, close) {
            Ok((_, next)) => Some(next),
            Err(_) => None,
        },
        Production::Expression => match parse_expression(ts, pos) {
            Ok((_, next)) => Some(next),
            Err(_) => None,
        },
        Production::Binary(left, precedence) => match parse_maybe_binary(
            ts,
            pos,
            left,
            precedence,
        ) {
            Ok((_, next)) => Some(next),
            Err(_) => None,
        },
    }
}

/// The error of the production applied at `pos`, if it fails.
pub open spec fn production_error(ts: Seq<TokenView>, pos: int, production: Production) -> Option<
    ParseError,
> {
    match production {
        Production::Atom => match parse_atom(ts, pos) {
            Ok(_) => None,
            Err(error) => Some(error),
        },
        Production::Array => match parse_array_expression(ts, pos) {
            Ok(_) => None,
            Err(error) => Some(error),
        },
        Production::Items(items, close) => match parse_items(ts, pos, items, close) {
            Ok(_) => None,
            Err(error) => Some(error),
        },
        Production::Expression => match parse_expression(ts, pos) {
            Ok(_) => None,
            Err(error) => Some(error),
        },
        Production::Binary(left, precedence) => match parse_maybe_binary(
            ts,
            pos,
            left,
            precedence,
        ) {
            Ok(_) => None,
            Err(error) => Some(error),
        },
    }
}

/// Whether an error names a position of the tokens from `pos` on, or their
/// end, and is of the kind that goes with it: the tokens ended too soon
/// where it names their end, and a token was in the way where it names a
/// token.
pub open spec fn error_from(ts: Seq<TokenView>, pos: int, error: ParseError) -> bool {
    &&& pos <= error.position <= ts.len()
    &&& error.kind == ParseErrorKind::UnexpectedEof <==> error.position == ts.len()
}

/// The rank of a production among those that may be applied at one
/// position, one inside the other.
pub open spec fn production_rank(production: Production) -> int {
    match production {
        Production::Array => 0,
        Production::Atom => 1,
        Production::Expression => 2,
        Production::Items(_, _) => 3,
        Production::Binary(_, _) => 4,
    }
}

/// A production that succeeds ends within the tokens and not before where
/// it starts; all but the operators behind an operand end after it.
pub proof fn lemma_production_advances(ts: Seq<TokenView>, pos: int, production: Production)
    requires
        0 <= pos <= ts.len(),
    ensures
        production_end(ts, pos, production) matches Some(next) ==> pos <= next <= ts.len() && (
        production is Binary || pos < next),
    decreases ts.len() - pos, production_rank(production),
{
    match production {
        Production::Atom => {
            if pos < ts.len() && ts[pos] is OpenSqBracket {
                lemma_production_advances(ts, pos, Production::Array);
            }
        },
        Production::Array => {
            if at(ts, pos, TokenView::OpenSqBracket) {
                lemma_production_advances(
                    ts,
                    pos + 1,
                    Production::Items(Seq::empty(), TokenView::CloseSqBracket),
                );
            }
        },
        Production::Items(items, close) => {
            if pos < ts.len() && ts[pos] != close {
                lemma_production_advances(ts, pos, Production::Expression);
                match parse_expression(ts, pos) {
                    Ok((item, p)) => {
                        if p < ts.len() && ts[p] != close && ts[p] == TokenView::Comma {
                            lemma_production_advances(
                                ts,
                                p + 1,
                                Production::Items(items.push(item), close),
                            );
                        }
                    },
                    Err(_) => {},
                }
            }
        },
        Production::Expression => {
            lemma_production_advances(ts, pos, Production::Atom);
            match parse_atom(ts, pos) {
                Ok((atom, p)) => {
                    lemma_production_advances(ts, p, Production::Binary(atom, 0));
                    match parse_maybe_binary(ts, p, atom, 0) {
                        Ok((expression, q)) => {
                            if expression is Variable && at(ts, q, TokenView::OpenParen) {
                                lemma_production_advances(
                                    ts,
                                    q + 1,
                                    Production::Items(Seq::empty(), TokenView::CloseParen),
                                );
                            }
                        },
                        Err(_) => {},
                    }
                },
                Err(_) => {},
            }
        },
        Production::Binary(left, precedence) => {
            if pos < ts.len() && ts[pos] is Operator && ts[pos]->Operator_0.spec_precedence()
                > precedence {
                let operator = ts[pos]->Operator_0;
                lemma_production_advances(ts, pos + 1, Production::Atom);
                match parse_atom(ts, pos + 1) {
                    Ok((atom, p)) => {
                        lemma_production_advances(
                            ts,
                            p,
                            Production::Binary(atom, operator.spec_precedence()),
                        );
                        match parse_maybe_binary(ts, p, atom, operator.spec_precedence()) {
                            Ok((right, q)) => {
                                lemma_production_advances(
                                    ts,
                                    q,
                                    Production::Binary(
                                        ExpressionView::Binary(
                                            BinaryView {
                                                left: Box::new(left),
                                                right: Box::new(right),
                                                operator,
                                            },
                                        ),
                                        precedence,
                                    ),
                                );
                            },
                            Err(_) => {},
                        }
                    },
                    Err(_) => {},
                }
            }
        },
    }
}

/// A production that fails, fails at a token from where it starts on, or
/// at the end of the tokens: no production goes back over a token.
pub proof fn lemma_production_error(ts: Seq<TokenView>, pos: int, production: Production)
    requires
        0 <= pos <= ts.len() <= usize::MAX,
    ensures
        production_error(ts, pos, production) matches Some(error) ==> error_from(ts, pos, error),
    decreases ts.len() - pos, production_rank(production),
{
    match production {
        Production::Atom => {
            if pos < ts.len() && ts[pos] is OpenSqBracket {
                lemma_production_advances(ts, pos, Production::Array);
                lemma_production_error(ts, pos, Production::Array);
            }
        },
        Production::Array => {
            if at(ts, pos, TokenView::OpenSqBracket) {
                lemma_production_advances(
                    ts,
                    pos + 1,
                    Production::Items(Seq::empty(), TokenView::CloseSqBracket),
                );
                lemma_production_error(
                    ts,
                    pos + 1,
                    Production::Items(Seq::empty(), TokenView::CloseSqBracket),
                );
            }
        },
        Production::Items(items, close) => {
            if pos < ts.len() && ts[pos] != close {
                lemma_production_advances(ts, pos, Production::Expression);
                lemma_production_error(ts, pos, Production::Expression);
                match parse_expression(ts, pos) {
                    Ok((item, p)) => {
                        if p < ts.len() && ts[p] != close && ts[p] == TokenView::Comma {
                            lemma_production_advances(
                                ts,
                                p + 1,
                                Production::Items(items.push(item), close),
                            );
                            lemma_production_error(
                                ts,
                                p + 1,
                                Production::Items(items.push(item), close),
                            );
                        }
                    },
                    Err(_) => {},
                }
            }
        },
        Production::Expression => {
            lemma_production_advances(ts, pos, Production::Atom);
            lemma_production_error(ts, pos, Production::Atom);
            match parse_atom(ts, pos) {
                Ok((atom, p)) => {
                    lemma_production_advances(ts, p, Production::Binary(atom, 0));
                    lemma_production_error(ts, p, Production::Binary(atom, 0));
                    match parse_maybe_binary(ts, p, atom, 0) {
                        Ok((expression, q)) => {
                            if expression is Variable && at(ts, q, TokenView::OpenParen) {
                                lemma_production_advances(
                                    ts,
                                    q + 1,
                                    Production::Items(Seq::empty(), TokenView::CloseParen),
                                );
                                lemma_production_error(
                                    ts,
                                    q + 1,
                                    Production::Items(Seq::empty(), TokenView::CloseParen),
                                );
                            }
                        },
                        Err(_) => {},
                    }
                },
                Err(_) => {},
            }
        },
        Production::Binary(left, precedence) => {
            if pos < ts.len() && ts[pos] is Operator && ts[pos]->Operator_0.spec_precedence()
                > precedence {
                let operator = ts[pos]->Operator_0;
                lemma_production_advances(ts, pos + 1, Production::Atom);
                lemma_production_error(ts, pos + 1, Production::Atom);
                match parse_atom(ts, pos + 1) {
                    Ok((atom, p)) => {
                        lemma_production_advances(
                            ts,
                            p,
                            Production::Binary(atom, operator.spec_precedence()),
                        );
                        lemma_production_error(
                            ts,
                            p,
                            Production::Binary(atom, operator.spec_precedence()),
                        );
                        match parse_maybe_binary(ts, p, atom, operator.spec_precedence()) {
                            Ok((right, q)) => {
                                lemma_production_advances(
                                    ts,
                                    q,
                                    Production::Binary(
                                        ExpressionView::Binary(
                                            BinaryView {
                                                left: Box::new(left),
                                                right: Box::new(right),
                                                operator,
                                            },
                                        ),
                                        precedence,
                                    ),
                                );
                                lemma_production_error(
                                    ts,
                                    q,
                                    Production::Binary(
                                        ExpressionView::Binary(
                                            BinaryView {
                                                left: Box::new(left),
                                                right: Box::new(right),
                                                operator,
                                            },
                                        ),
                                        precedence,
                                    ),
                                );
                            },
                            Err(_) => {},
                        }
                    },
                    Err(_) => {},
                }
            }
        },
    }
}

/// An expression, where one stands, ends after where it starts and within
/// the tokens.
pub proof fn lemma_expression_advances(ts: Seq<TokenView>, pos: int)
    requires
        0 <= pos <= ts.len(),
    ensures
        parse_expression(ts, pos) matches Ok((_, next)) ==> pos < next <= ts.len(),
{
    lemma_production_advances(ts, pos, Production::Expression);
}

/// The operand that a numeric constant or a name is.
pub open spec fn operand(token: TokenView) -> ExpressionView {
    match token {
        TokenView::NumConst(number) => ExpressionView::NumberLiteral(
            NumberLiteralView { number, return_type: TypeView::Int32 },
        ),
        TokenView::Identifier(name) => ExpressionView::Variable(
            VariableView { binding: name, return_type: TypeView::Unknown },
        ),
        _ => arbitrary(),
    }
}

/// The node of an operator and its two operands.
pub open spec fn node(operator: BinaryOperator, left: ExpressionView, right: ExpressionView) -> ExpressionView {
    ExpressionView::Binary(BinaryView { left: Box::new(left), right: Box::new(right), operator })
}

/// Of two operators between three operands, the second takes the middle
/// operand where it binds tighter than the first; where it does not, the
/// first takes it, and the node of the first is the left operand of the
/// second. So `1 + 2 * 3` is the sum of `1` and a product, and `1 * 2 + 3`
/// as well as `1 - 2 + 3` is the sum of a node and `3`.
pub proof fn lemma_precedence(
    a: TokenView,
    first: BinaryOperator,
    b: TokenView,
    second: BinaryOperator,
    c: TokenView,
)
    requires
        a is NumConst || a is Identifier,
        b is NumConst || b is Identifier,
        c is NumConst || c is Identifier,
    ensures
        parse_expression(
            seq![a, TokenView::Operator(first), b, TokenView::Operator(second), c],
            0,
        ) == Ok::<(ExpressionView, int), ParseError>(
            (
                if second.spec_precedence() > first.spec_precedence() {
                    node(first, operand(a), node(second, operand(b), operand(c)))
                } else {
                    node(second, node(first, operand(a), operand(b)), operand(c))
                },
                5,
            ),
        ),
{
    let ts = seq![a, TokenView::Operator(first), b, TokenView::Operator(second), c];
    let none = 0u16;
    assert(parse_atom(ts, 0) == Ok::<(ExpressionView, int), ParseError>((operand(a), 1)));
    assert(parse_atom(ts, 2) == Ok::<(ExpressionView, int), ParseError>((operand(b), 3)));
    assert(parse_atom(ts, 4) == Ok::<(ExpressionView, int), ParseError>((operand(c), 5)));
    assert(first.spec_precedence() > none && second.spec_precedence() > none);
    assert(parse_maybe_binary(ts, 5, operand(c), second.spec_precedence()) == Ok::<
        (ExpressionView, int),
        ParseError,
    >((operand(c), 5)));
    if second.spec_precedence() > first.spec_precedence() {
        let right = node(second, operand(b), operand(c));
        assert(parse_maybe_binary(ts, 5, right, first.spec_precedence()) == Ok::<
            (ExpressionView, int),
            ParseError,
        >((right, 5)));
        assert(parse_maybe_binary(ts, 3, operand(b), first.spec_precedence()) == Ok::<
            (ExpressionView, int),
            ParseError,
        >((right, 5)));
        let whole = node(first, operand(a), right);
        assert(parse_maybe_binary(ts, 5, whole, none) == Ok::<(ExpressionView, int), ParseError>(
            (whole, 5),
        ));
        assert(parse_maybe_binary(ts, 1, operand(a), none) == Ok::<
            (ExpressionView, int),
            ParseError,
        >((whole, 5)));
    } else {
        assert(parse_maybe_binary(ts, 3, operand(b), first.spec_precedence()) == Ok::<
            (ExpressionView, int),
            ParseError,
        >((operand(b), 3)));
        let left = node(first, operand(a), operand(b));
        let whole = node(second, left, operand(c));
        assert(parse_maybe_binary(ts, 5, whole, none) == Ok::<(ExpressionView, int), ParseError>(
            (whole, 5),
        ));
        assert(parse_maybe_binary(ts, 3, left, none) == Ok::<(ExpressionView, int), ParseError>(
            (whole, 5),
        ));
        assert(parse_maybe_binary(ts, 1, operand(a), none) == Ok::<
            (ExpressionView, int),
            ParseError,
        >((whole, 5)));
    }
}

/// The statements that follow those in `statements`, up to the keyword
/// `end`.
pub open spec fn parse_statements(
    ts: Seq<TokenView>,
    pos: int,
    statements: Seq<ExpressionView>,
) -> Result<(Seq<ExpressionView>, int), ParseError>
    decreases ts.len() - pos,
{
    if !(0 <= pos < ts.len()) {
        Err(unexpected(ts, pos, Expected::End))
    } else if ts[pos] == TokenView::Keyword(Keyword::End) {
        Ok((statements, pos + 1))
    } else {
        match parse_expression(ts, pos) {
            Err(error) => Err(error),
            Ok((statement, p)) => {
                proof {
                    lemma_expression_advances(ts, pos);
                }
                parse_statements(ts, p, statements.push(statement))
            },
        }
    }
}

/// A block of the given type: `do`, statements, and `end`.
pub open spec fn parse_block(ts: Seq<TokenView>, pos: int, return_type: TypeView) -> Result<
    (BlockView, int),
    ParseError,
> {
    if at(ts, pos, TokenView::Keyword(Keyword::Do)) {
        match parse_statements(ts, pos + 1, Seq::empty()) {
            Ok((expressions, p)) => Ok((BlockView { expressions, return_type }, p)),
            Err(error) => Err(error),
        }
    } else {
        Err(unexpected(ts, pos, Expected::Do))
    }
}

/// The parameter list that stands at `pos`, or no parameters where no `(`
/// stands there.
pub open spec fn parse_optional_args(ts: Seq<TokenView>, pos: int) -> Result<
    (Seq<ArgumentView>, int),
    ParseError,
> {
    if at(ts, pos, TokenView::OpenParen) {
        parse_function_args(ts, pos)
    } else {
        Ok((Seq::empty(), pos))
    }
}

/// A function: `fn`, a name, a parameter list if there is one, a return type
/// if there is one, and the body. Where no return type is given, the body's
/// type is not known.
pub open spec fn parse_function(ts: Seq<TokenView>, pos: int) -> Result<
    (FunctionView, int),
    ParseError,
> {
    if !at(ts, pos, TokenView::Keyword(Keyword::Fn)) {
        Err(unexpected(ts, pos, Expected::Fn))
    } else if !(pos + 1 < ts.len() && ts[pos + 1] is Identifier) {
        Err(unexpected(ts, pos + 1, Expected::Identifier))
    } else {
        match parse_optional_args(ts, pos + 2) {
            Err(error) => Err(error),
            Ok((arguments, p)) => match parse_return_type_signature(ts, p, TypeView::Unknown) {
                Err(error) => Err(error),
                Ok((return_type, q)) => match parse_block(ts, q, return_type) {
                    Err(error) => Err(error),
                    Ok((body, r)) => Ok(
                        (FunctionView { name: ts[pos + 1]->Identifier_0, body, arguments }, r),
                    ),
                },
            },
        }
    }
}

/// The declaration of an external function: `defextern`, a name, a parameter
/// list if there is one, and a return type if there is one. Where none is
/// given, the function returns nothing.
pub open spec fn parse_extern_function(ts: Seq<TokenView>, pos: int) -> Result<
    (ExternFunctionView, int),
    ParseError,
> {
    if !at(ts, pos, TokenView::Keyword(Keyword::DefExtern)) {
        Err(unexpected(ts, pos, Expected::DefExtern))
    } else if !(pos + 1 < ts.len() && ts[pos + 1] is Identifier) {
        Err(unexpected(ts, pos + 1, Expected::Identifier))
    } else {
        match parse_optional_args(ts, pos + 2) {
            Err(error) => Err(error),
            Ok((arguments, p)) => match parse_return_type_signature(ts, p, TypeView::Void) {
                Err(error) => Err(error),
                Ok((return_type, q)) => Ok(
                    (
                        ExternFunctionView {
                            name: ts[pos + 1]->Identifier_0,
                            arguments,
                            return_type,
                        },
                        q,
                    ),
                ),
            },
        }
    }
}

/// A declaration: a function or the declaration of an external function,
/// told apart by the keyword it starts with.
pub open spec fn parse_top_level_expression(ts: Seq<TokenView>, pos: int) -> Result<
    (ExpressionView, int),
    ParseError,
> {
    if at(ts, pos, TokenView::Keyword(Keyword::Fn)) {
        match parse_function(ts, pos) {
            Ok((function, p)) => Ok((ExpressionView::Function(function), p)),
            Err(error) => Err(error),
        }
    } else if at(ts, pos, TokenView::Keyword(Keyword::DefExtern)) {
        match parse_extern_function(ts, pos) {
            Ok((function, p)) => Ok((ExpressionView::ExternFunction(function), p)),
            Err(error) => Err(error),
        }
    } else {
        Err(unexpected(ts, pos, Expected::Declaration))
    }
}

/// A declaration, where one stands, ends after where it starts and within
/// the tokens; where none stands, the error is at a token from there on.
pub proof fn lemma_top_level_advances(ts: Seq<TokenView>, pos: int)
    requires
        0 <= pos <= ts.len(),
    ensures
        parse_top_level_expression(ts, pos) matches Ok((_, next)) ==> pos < next <= ts.len(),
        ts.len() <= usize::MAX ==> (parse_top_level_expression(ts, pos) matches Err(error)
            ==> error_from(ts, pos, error)),
{
    if pos + 1 < ts.len() {
        lemma_arguments_bounds(ts, pos + 3, Seq::empty());
        match parse_optional_args(ts, pos + 2) {
            Ok((_, p)) => {
                lemma_type_advances(ts, p + 1);
                match parse_return_type_signature(ts, p, TypeView::Unknown) {
                    Ok((return_type, q)) => {
                        lemma_statements_bounds(ts, q + 1, Seq::empty());
                    },
                    Err(_) => {},
                }
            },
            Err(_) => {},
        }
    }
}

/// A parameter list that is closed is closed within the tokens; one that
/// is not has its error at a token from where it starts on.
pub proof fn lemma_arguments_bounds(ts: Seq<TokenView>, pos: int, arguments: Seq<ArgumentView>)
    requires
        0 <= pos,
    ensures
        parse_arguments(ts, pos, arguments) matches Ok((_, next)) ==> pos < next <= ts.len(),
        pos <= ts.len() <= usize::MAX ==> (parse_arguments(ts, pos, arguments) matches Err(error)
            ==> error_from(ts, pos, error)),
    decreases ts.len() - pos,
{
    if pos < ts.len() && ts[pos] != TokenView::CloseParen {
        lemma_type_advances(ts, pos + 2);
        match parse_function_arg_signature(ts, pos) {
            Ok((argument, p)) => {
                if p < ts.len() && ts[p] == TokenView::Comma {
                    lemma_arguments_bounds(ts, p + 1, arguments.push(argument));
                }
            },
            Err(_) => {},
        }
    }
}

/// A block that is closed is closed within the tokens; one that is not
/// has its error at a token from where it starts on.
pub proof fn lemma_statements_bounds(ts: Seq<TokenView>, pos: int, statements: Seq<ExpressionView>)
    requires
        0 <= pos,
    ensures
        parse_statements(ts, pos, statements) matches Ok((_, next)) ==> pos < next <= ts.len(),
        pos <= ts.len() <= usize::MAX ==> (parse_statements(ts, pos, statements) matches Err(
            error,
        ) ==> error_from(ts, pos, error)),
    decreases ts.len() - pos,
{
    if pos < ts.len() && ts[pos] != TokenView::Keyword(Keyword::End) {
        lemma_expression_advances(ts, pos);
        if ts.len() <= usize::MAX {
            lemma_production_error(ts, pos, Production::Expression);
        }
        match parse_expression(ts, pos) {
            Ok((statement, p)) => {
                lemma_statements_bounds(ts, p, statements.push(statement));
            },
            Err(_) => {},
        }
    }
}

/// The declarations that follow those in `declarations`, up to the end of
/// the tokens.
pub open spec fn parse_declarations(
    ts: Seq<TokenView>,
    pos: int,
    declarations: Seq<ExpressionView>,
) -> Result<Seq<ExpressionView>, ParseError>
    decreases ts.len() - pos,
{
    if !(0 <= pos < ts.len()) {
        Ok(declarations)
    } else {
        match parse_top_level_expression(ts, pos) {
            Err(error) => Err(error),
            Ok((declaration, p)) => {
                proof {
                    lemma_top_level_advances(ts, pos);
                }
                parse_declarations(ts, p, declarations.push(declaration))
            },
        }
    }
}

/// Parsing never goes back: where the declarations from `pos` on have a
/// syntax error, it is at a token from `pos` on, or at the end of the
/// tokens where they end too soon.
pub proof fn lemma_declarations_error(
    ts: Seq<TokenView>,
    pos: int,
    declarations: Seq<ExpressionView>,
)
    requires
        0 <= pos <= ts.len() <= usize::MAX,
    ensures
        parse_declarations(ts, pos, declarations) matches Err(error) ==> error_from(ts, pos, error),
    decreases ts.len() - pos,
{
    if pos < ts.len() {
        lemma_top_level_advances(ts, pos);
        match parse_top_level_expression(ts, pos) {
            Ok((declaration, p)) => {
                lemma_declarations_error(ts, p, declarations.push(declaration));
            },
            Err(_) => {},
        }
    }
}

/// The declarations of a whole token sequence.
pub open spec fn parse_module(ts: Seq<TokenView>) -> Result<Seq<ExpressionView>, ParseError> {
    parse_declarations(ts, 0, Seq::empty())
}

} // verus!
