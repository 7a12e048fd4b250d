use super::number::{Number, NumberView};
use super::tokenizer::BinaryOperator;
use super::types::{Type, TypeView};
use vstd::prelude::*;
use vstd::string::StringExecFns;

verus! {

/// Model of a [`NumberLiteralExpression`].
pub struct NumberLiteralView {
    pub number: NumberView,
    pub return_type: TypeView,
}

/// Model of a [`VariableExpression`].
pub struct VariableView {
    pub binding: Seq<char>,
    pub return_type: TypeView,
}

/// Model of a [`BlockExpression`].
pub struct BlockView {
    pub expressions: Seq<ExpressionView>,
    pub return_type: TypeView,
}

/// Model of a [`FunctionArgument`].
pub struct ArgumentView {
    pub binding_name: Seq<char>,
    pub input_type: TypeView,
}

/// Model of a [`FunctionExpression`].
pub struct FunctionView {
    pub name: Seq<char>,
    pub body: BlockView,
    pub arguments: Seq<ArgumentView>,
}

/// Model of an [`ExternFunctionExpression`].
pub struct ExternFunctionView {
    pub name: Seq<char>,
    pub arguments: Seq<ArgumentView>,
    pub return_type: TypeView,
}

/// Model of a [`CallExpression`].
pub struct CallView {
    pub function_name: Seq<char>,
    pub args: Seq<ExpressionView>,
}

/// Model of a [`BinaryExpression`].
pub struct BinaryView {
    pub left: Box<ExpressionView>,
    pub right: Box<ExpressionView>,
    pub operator: BinaryOperator,
}

/// Model of an [`ArrayExpression`].
pub struct ArrayView {
    pub items: Seq<ExpressionView>,
}

/// Model of an [`Expression`]: the tree with its names as sequences of
/// characters and its children as sequences of models.
pub enum ExpressionView {
    Function(FunctionView),
    ExternFunction(ExternFunctionView),
    Binary(BinaryView),
    NumberLiteral(NumberLiteralView),
    Variable(VariableView),
    Call(CallView),
    Array(ArrayView),
}

/// A numeric constant.
#[derive(Debug, PartialEq, Eq)]
pub struct NumberLiteralExpression {
    pub number: Number,
    pub return_type: Type,
}

/// A reference to a variable by its name.
#[derive(Debug, PartialEq, Eq)]
pub struct VariableExpression {
    pub binding: String,
    pub return_type: Type,
}

/// A sequence of statements. Its value is that of the last statement.
#[derive(Debug, PartialEq, Eq)]
pub struct BlockExpression {
    pub expressions: Vec<Expression>,
    pub return_type: Type,
}

/// A function with a body.
#[derive(Debug, PartialEq, Eq)]
pub struct FunctionExpression {
    pub name: String,
    pub body: BlockExpression,
    pub arguments: Vec<FunctionArgument>,
}

/// The declaration of a function that is defined elsewhere.
#[derive(Debug, PartialEq, Eq)]
pub struct ExternFunctionExpression {
    pub name: String,
    pub arguments: Vec<FunctionArgument>,
    pub return_type: Type,
}

/// A formal parameter: its name and its declared type.
#[derive(Debug, PartialEq, Eq)]
pub struct FunctionArgument {
    pub binding_name: String,
    pub input_type: Type,
}

/// A call of a function by its name.
#[derive(Debug, PartialEq, Eq)]
pub struct CallExpression {
    pub function_name: String,
    pub args: Vec<Expression>,
}

/// Two operands joined by an operator.
#[derive(Debug, PartialEq, Eq)]
pub struct BinaryExpression {
    pub left: Expression,
    pub right: Expression,
    pub operator: BinaryOperator,
}

/// A list literal.
#[derive(Debug, PartialEq, Eq)]
pub struct ArrayExpression {
    pub items: Vec<Expression>,
}

/// A node of the syntax tree.
#[derive(Debug, PartialEq, Eq)]
pub enum Expression {
    Function(Box<FunctionExpression>),
    ExternFunction(Box<ExternFunctionExpression>),
    Binary(Box<BinaryExpression>),
    NumberLiteral(Box<NumberLiteralExpression>),
    Variable(Box<VariableExpression>),
    Call(Box<CallExpression>),
    Array(Box<ArrayExpression>),
}

/// The models of a sequence of expressions, in order.
pub open spec fn expression_views(expressions: Seq<Expression>) -> Seq<ExpressionView> {
    expressions.map_values(|expression: Expression| expression@)
}

/// The models of a sequence of parameters, in order.
pub open spec fn argument_views(arguments: Seq<FunctionArgument>) -> Seq<ArgumentView> {
    arguments.map_values(|argument: FunctionArgument| argument@)
}

impl View for NumberLiteralExpression {
    type V = NumberLiteralView;

    open spec fn view(&self) -> NumberLiteralView {
        NumberLiteralView { number: self.number@, return_type: self.return_type@ }
    }
}

impl View for VariableExpression {
    type V = VariableView;

    open spec fn view(&self) -> VariableView {
        VariableView { binding: self.binding@, return_type: self.return_type@ }
    }
}

impl View for FunctionArgument {
    type V = ArgumentView;

    open spec fn view(&self) -> ArgumentView {
        ArgumentView { binding_name: self.binding_name@, input_type: self.input_type@ }
    }
}

impl View for ExternFunctionExpression {
    type V = ExternFunctionView;

    open spec fn view(&self) -> ExternFunctionView {
        ExternFunctionView {
            name: self.name@,
            arguments: argument_views(self.arguments@),
            return_type: self.return_type@,
        }
    }
}

impl BlockExpression {
    /// The model of this block.
    pub open spec fn model(self) -> BlockView
        decreases self,
    {
        BlockView {
            expressions: Seq::new(
                self.expressions@.len(),
                |i: int|
                    if 0 <= i < self.expressions@.len() {
                        self.expressions@[i].model()
                    } else {
                        arbitrary()
                    },
            ),
            return_type: self.return_type@,
        }
    }
}

impl FunctionExpression {
    /// The model of this function.
    pub open spec fn model(self) -> FunctionView
        decreases self,
    {
        FunctionView {
            name: self.name@,
            body: self.body.model(),
            arguments: argument_views(self.arguments@),
        }
    }
}

impl CallExpression {
    /// The model of this call.
    pub open spec fn model(self) -> CallView
        decreases self,
    {
        CallView {
            function_name: self.function_name@,
            args: Seq::new(
                self.args@.len(),
                |i: int|
                    if 0 <= i < self.args@.len() {
                        self.args@[i].model()
                    } else {
                        arbitrary()
                    },
            ),
        }
    }
}

impl BinaryExpression {
    /// The model of this expression.
    pub open spec fn model(self) -> BinaryView
        decreases self,
    {
        BinaryView {
            left: Box::new(self.left.model()),
            right: Box::new(self.right.model()),
            operator: self.operator,
        }
    }
}

impl ArrayExpression {
    /// The model of this list literal.
    pub open spec fn model(self) -> ArrayView
        decreases self,
    {
        ArrayView {
            items: Seq::new(
                self.items@.len(),
                |i: int|
                    if 0 <= i < self.items@.len() {
                        self.items@[i].model()
                    } else {
                        arbitrary()
                    },
            ),
        }
    }
}

impl Expression {
    /// The model of this expression.
    pub open spec fn model(self) -> ExpressionView
        decreases self,
    {
        match self {
            Expression::Function(function) => ExpressionView::Function((*function).model()),
            Expression::ExternFunction(function) => ExpressionView::ExternFunction((*function)@),
            Expression::Binary(binary) => ExpressionView::Binary((*binary).model()),
            Expression::NumberLiteral(literal) => ExpressionView::NumberLiteral((*literal)@),
            Expression::Variable(variable) => ExpressionView::Variable((*variable)@),
            Expression::Call(call) => ExpressionView::Call((*call).model()),
            Expression::Array(array) => ExpressionView::Array((*array).model()),
        }
    }
}

impl View for BlockExpression {
    type V = BlockView;

    open spec fn view(&self) -> BlockView {
        BlockView { expressions: expression_views(self.expressions@), return_type: self.return_type@ }
    }
}

impl View for FunctionExpression {
    type V = FunctionView;

    open spec fn view(&self) -> FunctionView {
        FunctionView { name: self.name@, body: self.body@, arguments: argument_views(self.arguments@) }
    }
}

impl View for CallExpression {
    type V = CallView;

    open spec fn view(&self) -> CallView {
        CallView { function_name: self.function_name@, args: expression_views(self.args@) }
    }
}

impl View for BinaryExpression {
    type V = BinaryView;

    open spec fn view(&self) -> BinaryView {
        BinaryView { left: Box::new(self.left@), right: Box::new(self.right@), operator: self.operator }
    }
}

impl View for ArrayExpression {
    type V = ArrayView;

    open spec fn view(&self) -> ArrayView {
        ArrayView { items: expression_views(self.items@) }
    }
}

impl View for Expression {
    type V = ExpressionView;

    open spec fn view(&self) -> ExpressionView {
        self.model()
    }
}

/// The view of a node with children is made of the views of its children.
pub proof fn lemma_expression_view(expression: Expression)
    ensures
        match expression {
            Expression::Function(function) => expression@ == ExpressionView::Function(function@),
            Expression::ExternFunction(function) => expression@ == ExpressionView::ExternFunction(
                function@,
            ),
            Expression::Binary(binary) => expression@ == ExpressionView::Binary(binary@),
            Expression::NumberLiteral(literal) => expression@ == ExpressionView::NumberLiteral(
                literal@,
            ),
            Expression::Variable(variable) => expression@ == ExpressionView::Variable(variable@),
            Expression::Call(call) => expression@ == ExpressionView::Call(call@),
            Expression::Array(array) => expression@ == ExpressionView::Array(array@),
        },
{
    match expression {
        Expression::Function(function) => {
            assert(function.body.model().expressions =~= expression_views(
                function.body.expressions@,
            ));
        },
        Expression::Call(call) => {
            assert(call.model().args =~= expression_views(call.args@));
        },
        Expression::Array(array) => {
            assert(array.model().items =~= expression_views(array.items@));
        },
        _ => {},
    }
}

impl NumberLiteralExpression {
    /// A literal of the default numeric type.
    pub fn new(number: Number) -> (literal: NumberLiteralExpression)
        ensures
            literal@ == (NumberLiteralView { number: number@, return_type: TypeView::Int32 }),
    {
        NumberLiteralExpression { number, return_type: Type::Int32 }
    }
}

impl VariableExpression {
    /// A variable whose type is not known yet.
    pub fn new(binding: String) -> (variable: VariableExpression)
        ensures
            variable@ == (VariableView { binding: binding@, return_type: TypeView::Unknown }),
    {
        VariableExpression { binding, return_type: Type::Unknown }
    }
}

impl BlockExpression {
    /// A block of the given statements and type.
    pub fn new(expressions: Vec<Expression>, return_type: Type) -> (block: BlockExpression)
        ensures
            block@ == (BlockView {
                expressions: expression_views(expressions@),
                return_type: return_type@,
            }),
    {
        BlockExpression { expressions, return_type }
    }
}

impl FunctionArgument {
    /// A parameter of the given name and type.
    pub fn new(binding_name: String, input_type: Type) -> (argument: FunctionArgument)
        ensures
            argument@ == (ArgumentView { binding_name: binding_name@, input_type: input_type@ }),
    {
        FunctionArgument { binding_name, input_type }
    }
}

impl FunctionExpression {
    /// A function of the given name, body and parameters.
    pub fn new(name: &str, body: BlockExpression, args: Vec<FunctionArgument>) -> (function:
        FunctionExpression)
        ensures
            function@ == (FunctionView {
                name: name@,
                body: body@,
                arguments: argument_views(args@),
            }),
    {
        FunctionExpression { name: String::from_str(name), arguments: args, body }
    }
}

impl ExternFunctionExpression {
    /// The declaration of an external function of the given name,
    /// parameters and return type.
    pub fn new(name: &str, args: Vec<FunctionArgument>, return_type: Type) -> (function:
        ExternFunctionExpression)
        ensures
            function@ == (ExternFunctionView {
                name: name@,
                arguments: argument_views(args@),
                return_type: return_type@,
            }),
    {
        ExternFunctionExpression { name: String::from_str(name), arguments: args, return_type }
    }
}

impl CallExpression {
    /// A call of the function of the given name with the given arguments.
    pub fn new(function_name: String, args: Vec<Expression>) -> (call: CallExpression)
        ensures
            call@ == (CallView { function_name: function_name@, args: expression_views(args@) }),
    {
        CallExpression { function_name, args }
    }
}

impl BinaryExpression {
    /// The node of an operator and its two operands.
    pub fn new(operator: BinaryOperator, left: Expression, right: Expression) -> (binary:
        BinaryExpression)
        ensures
            binary@ == (BinaryView {
                left: Box::new(left@),
                right: Box::new(right@),
                operator: operator,
            }),
    {
        BinaryExpression { left, right, operator }
    }
}

impl ArrayExpression {
    /// A list literal of the given items.
    pub fn new(items: Vec<Expression>) -> (array: ArrayExpression)
        ensures
            array@ == (ArrayView { items: expression_views(items@) }),
    {
        ArrayExpression { items }
    }
}

impl Clone for FunctionArgument {
    fn clone(&self) -> (copy: FunctionArgument)
        ensures
            copy@ == self@,
    {
        FunctionArgument {
            binding_name: self.binding_name.clone(),
            input_type: self.input_type.clone(),
        }
    }
}

impl Clone for NumberLiteralExpression {
    fn clone(&self) -> (copy: NumberLiteralExpression)
        ensures
            copy@ == self@,
    {
        NumberLiteralExpression {
            number: self.number.clone(),
            return_type: self.return_type.clone(),
        }
    }
}

impl Clone for VariableExpression {
    fn clone(&self) -> (copy: VariableExpression)
        ensures
            copy@ == self@,
    {
        VariableExpression { binding: self.binding.clone(), return_type: self.return_type.clone() }
    }
}

/// A copy of each parameter, in order.
fn clone_arguments(arguments: &Vec<FunctionArgument>) -> (copy: Vec<FunctionArgument>)
    ensures
        argument_views(copy@) == argument_views(arguments@),
{
    let mut copy: Vec<FunctionArgument> = Vec::new();
    let mut i: usize = 0;
    while i < arguments.len()
        invariant
            i <= arguments.len(),
            copy.len() == i,
            forall|k: int| 0 <= k < i ==> copy@[k]@ == arguments@[k]@,
        decreases arguments.len() - i,
    {
        copy.push(arguments[i].clone());
        i = i + 1;
    }
    assert(argument_views(copy@) =~= argument_views(arguments@));
    copy
}

/// A copy of each expression, in order.
fn clone_expressions(expressions: &Vec<Expression>) -> (copy: Vec<Expression>)
    ensures
        expression_views(copy@) == expression_views(expressions@),
    decreases expressions,
{
    let mut copy: Vec<Expression> = Vec::new();
    let mut i: usize = 0;
    while i < expressions.len()
        invariant
            i <= expressions.len(),
            copy.len() == i,
            forall|k: int| 0 <= k < i ==> copy@[k]@ == expressions@[k]@,
        decreases expressions.len() - i,
    {
        copy.push(expressions[i].clone());
        i = i + 1;
    }
    assert(expression_views(copy@) =~= expression_views(expressions@));
    copy
}

impl Clone for ExternFunctionExpression {
    fn clone(&self) -> (copy: ExternFunctionExpression)
        ensures
            copy@ == self@,
    {
        ExternFunctionExpression {
            name: self.name.clone(),
            arguments: clone_arguments(&self.arguments),
            return_type: self.return_type.clone(),
        }
    }
}

impl Clone for BlockExpression {
    fn clone(&self) -> (copy: BlockExpression)
        ensures
            copy@ == self@,
        decreases self,
    {
        BlockExpression {
            expressions: clone_expressions(&self.expressions),
            return_type: self.return_type.clone(),
        }
    }
}

impl Clone for FunctionExpression {
    fn clone(&self) -> (copy: FunctionExpression)
        ensures
            copy@ == self@,
        decreases self,
    {
        FunctionExpression {
            name: self.name.clone(),
            body: self.body.clone(),
            arguments: clone_arguments(&self.arguments),
        }
    }
}

impl Clone for CallExpression {
    fn clone(&self) -> (copy: CallExpression)
        ensures
            copy@ == self@,
        decreases self,
    {
        CallExpression {
            function_name: self.function_name.clone(),
            args: clone_expressions(&self.args),
        }
    }
}

impl Clone for BinaryExpression {
    fn clone(&self) -> (copy: BinaryExpression)
        ensures
            copy@ == self@,
        decreases self,
    {
        BinaryExpression {
            left: self.left.clone(),
            right: self.right.clone(),
            operator: self.operator,
        }
    }
}

impl Clone for ArrayExpression {
    fn clone(&self) -> (copy: ArrayExpression)
        ensures
            copy@ == self@,
        decreases self,
    {
        ArrayExpression { items: clone_expressions(&self.items) }
    }
}

impl Clone for Expression {
    fn clone(&self) -> (copy: Expression)
        ensures
            copy@ == self@,
        decreases self,
    {
        let copy = match self {
            Expression::Function(function) => Expression::Function(Box::new((**function).clone())),
            Expression::ExternFunction(function) => Expression::ExternFunction(
                Box::new((**function).clone()),
            ),
            Expression::Binary(binary) => Expression::Binary(Box::new((**binary).clone())),
            Expression::NumberLiteral(literal) => Expression::NumberLiteral(
                Box::new((**literal).clone()),
            ),
            Expression::Variable(variable) => Expression::Variable(Box::new((**variable).clone())),
            Expression::Call(call) => Expression::Call(Box::new((**call).clone())),
            Expression::Array(array) => Expression::Array(Box::new((**array).clone())),
        };
        proof {
            lemma_expression_view(*self);
            lemma_expression_view(copy);
        }
        copy
    }
}

} // verus!
