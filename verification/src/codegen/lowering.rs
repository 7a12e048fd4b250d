//! What lowering is: functions from the syntax tree, the functions declared
//! so far and the bindings in scope to the instructions emitted and the
//! value that stands for the result.

use super::backend::{
    named_function, BackendBlockView, BackendFunctionView, BackendModuleView, BackendType,
    InstructionView, Linkage, Terminator, Value,
};
use crate::modules::function::ModuleFunctionView;
use crate::modules::module::ModuleView;
use crate::parser::expression::{
    ArgumentView, BlockView, ExpressionView, ExternFunctionView, FunctionView,
    NumberLiteralView,
};
use crate::parser::tokenizer::BinaryOperator;
use crate::parser::types::TypeView;
use vstd::prelude::*;

verus! {

/// Model of a [`LoweringError`].
pub enum LoweringErrorView {
    UnknownVariable(Seq<char>),
    FunctionNotFound(Seq<char>),
    ArgumentCountMismatch { name: Seq<char>, expected: usize, got: usize },
    CannotInferType,
    UnsupportedType,
    UnsupportedExpression,
}

/// Why a module could not be lowered.
#[derive(Debug, PartialEq, Eq)]
pub enum LoweringError {
    /// No binding of this name is in scope.
    UnknownVariable(String),
    /// No function of this name is declared yet.
    FunctionNotFound(String),
    /// The function of this name takes `expected` arguments and was called
    /// with `got`.
    ArgumentCountMismatch { name: String, expected: usize, got: usize },
    /// A type that was never inferred reached the lowering.
    CannotInferType,
    /// A type that the code generator has no counterpart for.
    UnsupportedType,
    /// An expression that has no value: a declaration inside a body.
    UnsupportedExpression,
}

impl View for LoweringError {
    type V = LoweringErrorView;

    open spec fn view(&self) -> LoweringErrorView {
        match self {
            LoweringError::UnknownVariable(name) => LoweringErrorView::UnknownVariable(name@),
            LoweringError::FunctionNotFound(name) => LoweringErrorView::FunctionNotFound(name@),
            LoweringError::ArgumentCountMismatch { name, expected, got } => {
                LoweringErrorView::ArgumentCountMismatch {
                    name: name@,
                    expected: *expected,
                    got: *got,
                }
            },
            LoweringError::CannotInferType => LoweringErrorView::CannotInferType,
            LoweringError::UnsupportedType => LoweringErrorView::UnsupportedType,
            LoweringError::UnsupportedExpression => LoweringErrorView::UnsupportedExpression,
        }
    }
}

/// The counterpart of a type in the code generator. A type that was never
/// inferred and a user type have none.
pub open spec fn lowered_type(t: TypeView) -> Result<BackendType, LoweringErrorView>
    decreases t,
{
    match t {
        TypeView::Int32 => Ok(BackendType::Int32),
        TypeView::Void => Ok(BackendType::Void),
        TypeView::Unknown => Err(LoweringErrorView::CannotInferType),
        TypeView::User(_) => Err(LoweringErrorView::UnsupportedType),
        TypeView::ListOf(element, length) => match lowered_type(*element) {
            Ok(lowered) => Ok(BackendType::Array(Box::new(lowered), length)),
            Err(error) => Err(error),
        },
    }
}

/// The number `n`, or the largest `u64` where `n` does not fit.
pub open spec fn saturated(n: nat) -> u64 {
    if n <= u64::MAX {
        n as u64
    } else {
        u64::MAX
    }
}

/// The constant that a literal stands for: its integer part, in the integer
/// type that the literal has.
pub open spec fn lowered_constant(literal: NumberLiteralView) -> Result<Value, LoweringErrorView> {
    match lowered_type(literal.return_type) {
        Ok(BackendType::Int32) => Ok(
            Value::Constant(BackendType::Int32, saturated(literal.number.integer_part())),
        ),
        Ok(_) => Err(LoweringErrorView::UnsupportedType),
        Err(error) => Err(error),
    }
}

/// The arithmetic instruction of an operator.
pub open spec fn arithmetic(operator: BinaryOperator, left: Value, right: Value) -> InstructionView {
    match operator {
        BinaryOperator::Add => InstructionView::Add(left, right),
        BinaryOperator::Sub => InstructionView::Sub(left, right),
        BinaryOperator::Mul => InstructionView::Mul(left, right),
    }
}

/// The type of the elements of a list of the given items: the type that
/// all of them have. A list without items has no type that could be
/// inferred; items of different types, items without a value, and more
/// items than a length can count make no list.
pub open spec fn element_type(values: Seq<Value>) -> Result<BackendType, LoweringErrorView> {
    if values.len() == 0 {
        Err(LoweringErrorView::CannotInferType)
    } else if values.len() <= u32::MAX && values[0].value_type() != BackendType::Void && (forall|
        k: int,
    |
        0 <= k < values.len() ==> (#[trigger] values[k]).value_type() == values[0].value_type()) {
        Ok(values[0].value_type())
    } else {
        Err(LoweringErrorView::UnsupportedType)
    }
}

/// What lowering an expression comes to: the value of the expression or the
/// error that stopped the lowering, and the instructions of the block after
/// it.
pub struct Lowered {
    pub outcome: Result<Value, LoweringErrorView>,
    pub emitted: Seq<InstructionView>,
}

/// What lowering a list of expressions comes to.
pub struct LoweredList {
    pub outcome: Result<Seq<Value>, LoweringErrorView>,
    pub emitted: Seq<InstructionView>,
}

/// Lowers an expression behind the instructions in `emitted`.
///
/// A literal is a constant and a variable is the value it is bound to; they
/// emit nothing. A binary expression lowers its right operand, then its left
/// one, and emits the arithmetic instruction. A call resolves its callee
/// among the declared functions and compares the number of its arguments
/// with the number of the callee's parameters before it lowers any argument;
/// then it lowers the arguments in order and emits the call. A list literal
/// lowers its items in order and emits the array of them, whose element type
/// is the type that the items share. The value of an arithmetic instruction
/// has the type of its left operand, that of a call the return type of the
/// callee.
pub open spec fn lower_expression(
    functions: Seq<BackendFunctionView>,
    bindings: Map<Seq<char>, Value>,
    emitted: Seq<InstructionView>,
    expression: ExpressionView,
) -> Lowered
    decreases expression, 0int,
{
    match expression {
        ExpressionView::NumberLiteral(literal) => Lowered {
            outcome: lowered_constant(literal),
            emitted,
        },
        ExpressionView::Variable(variable) => Lowered {
            outcome: if bindings.contains_key(variable.binding) {
                Ok(bindings[variable.binding])
            } else {
                Err(LoweringErrorView::UnknownVariable(variable.binding))
            },
            emitted,
        },
        ExpressionView::Binary(binary) => {
            let right = lower_expression(functions, bindings, emitted, *binary.right);
            match right.outcome {
                Err(error) => right,
                Ok(right_value) => {
                    let left = lower_expression(functions, bindings, right.emitted, *binary.left);
                    match left.outcome {
                        Err(error) => left,
                        Ok(left_value) => Lowered {
                            outcome: Ok(
                                Value::Instruction(
                                    left.emitted.len() as usize,
                                    left_value.value_type(),
                                ),
                            ),
                            emitted: left.emitted.push(
                                arithmetic(binary.operator, left_value, right_value),
                            ),
                        },
                    }
                },
            }
        },
        ExpressionView::Call(call) => match named_function(functions, call.function_name) {
            None => Lowered {
                outcome: Err(LoweringErrorView::FunctionNotFound(call.function_name)),
                emitted,
            },
            Some(callee) => if functions[callee].parameter_types.len() != call.args.len() {
                Lowered {
                    outcome: Err(
                        LoweringErrorView::ArgumentCountMismatch {
                            name: call.function_name,
                            expected: functions[callee].parameter_types.len() as usize,
                            got: call.args.len() as usize,
                        },
                    ),
                    emitted,
                }
            } else {
                let args = lower_list(functions, bindings, emitted, call.args, 0, Seq::empty());
                match args.outcome {
                    Err(error) => Lowered { outcome: Err(error), emitted: args.emitted },
                    Ok(values) => Lowered {
                        outcome: Ok(
                            Value::Instruction(
                                args.emitted.len() as usize,
                                functions[callee].return_type,
                            ),
                        ),
                        emitted: args.emitted.push(InstructionView::Call(callee as usize, values)),
                    },
                }
            },
        },
        ExpressionView::Array(array) => {
            let items = lower_list(functions, bindings, emitted, array.items, 0, Seq::empty());
            match items.outcome {
                Err(error) => Lowered { outcome: Err(error), emitted: items.emitted },
                Ok(values) => match element_type(values) {
                    Err(error) => Lowered { outcome: Err(error), emitted: items.emitted },
                    Ok(element) => Lowered {
                        outcome: Ok(
                            Value::Instruction(
                                items.emitted.len() as usize,
                                BackendType::Array(Box::new(element), values.len() as u32),
                            ),
                        ),
                        emitted: items.emitted.push(InstructionView::Array(element, values)),
                    },
                },
            }
        },
        _ => Lowered { outcome: Err(LoweringErrorView::UnsupportedExpression), emitted },
    }
}

/// Lowers the expressions of `items` from index `done` on, in order, behind
/// the instructions in `emitted`; `values` are the values of those before.
pub open spec fn lower_list(
    functions: Seq<BackendFunctionView>,
    bindings: Map<Seq<char>, Value>,
    emitted: Seq<InstructionView>,
    items: Seq<ExpressionView>,
    done: int,
    values: Seq<Value>,
) -> LoweredList
    decreases items, items.len() - done,
{
    if 0 <= done < items.len() {
        let item = lower_expression(functions, bindings, emitted, items[done]);
        match item.outcome {
            Err(error) => LoweredList { outcome: Err(error), emitted: item.emitted },
            Ok(value) => lower_list(
                functions,
                bindings,
                item.emitted,
                items,
                done + 1,
                values.push(value),
            ),
        }
    } else {
        LoweredList { outcome: Ok(values), emitted }
    }
}

/// What lowering the statements of a block comes to.
pub struct LoweredStatements {
    pub outcome: Result<Option<Value>, LoweringErrorView>,
    pub emitted: Seq<InstructionView>,
}

/// Lowers the statements from index `done` on, in order; `last` is the
/// value of the statement before, if there is one.
pub open spec fn lower_statements(
    functions: Seq<BackendFunctionView>,
    bindings: Map<Seq<char>, Value>,
    emitted: Seq<InstructionView>,
    statements: Seq<ExpressionView>,
    done: int,
    last: Option<Value>,
) -> LoweredStatements
    decreases statements.len() - done,
{
    if 0 <= done < statements.len() {
        let statement = lower_expression(functions, bindings, emitted, statements[done]);
        match statement.outcome {
            Err(error) => LoweredStatements { outcome: Err(error), emitted: statement.emitted },
            Ok(value) => lower_statements(
                functions,
                bindings,
                statement.emitted,
                statements,
                done + 1,
                Some(value),
            ),
        }
    } else {
        LoweredStatements { outcome: Ok(last), emitted }
    }
}

/// The block of a body: the instructions of its statements, and the return
/// of the value of the last statement, or of nothing where the body is
/// empty.
pub open spec fn lowered_block(
    functions: Seq<BackendFunctionView>,
    bindings: Map<Seq<char>, Value>,
    block: BlockView,
) -> Result<BackendBlockView, LoweringErrorView> {
    let statements = lower_statements(
        functions,
        bindings,
        Seq::empty(),
        block.expressions,
        0,
        None,
    );
    match statements.outcome {
        Err(error) => Err(error),
        Ok(Some(value)) => Ok(
            BackendBlockView {
                instructions: statements.emitted,
                terminator: Terminator::Return(value),
            },
        ),
        Ok(None) => Ok(
            BackendBlockView {
                instructions: statements.emitted,
                terminator: Terminator::ReturnVoid,
            },
        ),
    }
}

/// The types of the parameters from index `done` on, behind those in
/// `types`, or the error of the first that has no counterpart.
pub open spec fn parameter_types(arguments: Seq<ArgumentView>, done: int, types: Seq<BackendType>) -> Result<
    Seq<BackendType>,
    LoweringErrorView,
>
    decreases arguments.len() - done,
{
    if 0 <= done < arguments.len() {
        match lowered_type(arguments[done].input_type) {
            Ok(lowered) => parameter_types(arguments, done + 1, types.push(lowered)),
            Err(error) => Err(error),
        }
    } else {
        Ok(types)
    }
}

/// The names of the parameters, in order.
pub open spec fn parameter_names(arguments: Seq<ArgumentView>) -> Seq<Seq<char>> {
    arguments.map_values(|argument: ArgumentView| argument.binding_name)
}

/// The bindings of the first `count` parameters: each name is bound to the
/// parameter of its index, which has the type at that index of `types`; a
/// later parameter takes a name from an earlier one.
pub open spec fn parameter_bindings(
    arguments: Seq<ArgumentView>,
    types: Seq<BackendType>,
    count: int,
) -> Map<Seq<char>, Value>
    decreases count,
{
    if count <= 0 {
        Map::empty()
    } else {
        parameter_bindings(arguments, types, count - 1).insert(
            arguments[count - 1].binding_name,
            Value::Parameter((count - 1) as usize, types[count - 1]),
        )
    }
}

/// The return type of a local function: the counterpart of the type it
/// declares, and the default numeric type where it declares none.
pub open spec fn local_return_type(declared: TypeView) -> Result<BackendType, LoweringErrorView> {
    if declared == TypeView::Unknown {
        Ok(BackendType::Int32)
    } else {
        lowered_type(declared)
    }
}

/// The declaration of a local function, before its body is lowered.
pub open spec fn local_declaration(function: FunctionView) -> Result<
    BackendFunctionView,
    LoweringErrorView,
> {
    match parameter_types(function.arguments, 0, Seq::empty()) {
        Err(error) => Err(error),
        Ok(types) => match local_return_type(function.body.return_type) {
            Err(error) => Err(error),
            Ok(return_type) => Ok(
                BackendFunctionView {
                    name: function.name,
                    parameter_types: types,
                    parameter_names: parameter_names(function.arguments),
                    return_type,
                    linkage: Linkage::Local,
                    body: None,
                },
            ),
        },
    }
}

/// The functions declared after a local function was lowered behind
/// `functions`. The function is declared before its body is lowered, so the
/// body may call it; the body sees each parameter under its name.
pub open spec fn lowered_local(functions: Seq<BackendFunctionView>, function: FunctionView) -> Result<
    Seq<BackendFunctionView>,
    LoweringErrorView,
> {
    match local_declaration(function) {
        Err(error) => Err(error),
        Ok(declared) => match lowered_block(
            functions.push(declared),
            parameter_bindings(
                function.arguments,
                declared.parameter_types,
                function.arguments.len() as int,
            ),
            function.body,
        ) {
            Err(error) => Err(error),
            Ok(block) => Ok(
                functions.push(
                    BackendFunctionView {
                        name: declared.name,
                        parameter_types: declared.parameter_types,
                        parameter_names: declared.parameter_names,
                        return_type: declared.return_type,
                        linkage: declared.linkage,
                        body: Some(block),
                    },
                ),
            ),
        },
    }
}

/// The functions declared after an external function was declared behind
/// `functions`: its signature, with external linkage and without a body.
pub open spec fn lowered_extern(
    functions: Seq<BackendFunctionView>,
    function: ExternFunctionView,
) -> Result<Seq<BackendFunctionView>, LoweringErrorView> {
    match parameter_types(function.arguments, 0, Seq::empty()) {
        Err(error) => Err(error),
        Ok(types) => match lowered_type(function.return_type) {
            Err(error) => Err(error),
            Ok(return_type) => Ok(
                functions.push(
                    BackendFunctionView {
                        name: function.name,
                        parameter_types: types,
                        parameter_names: Seq::empty(),
                        return_type,
                        linkage: Linkage::External,
                        body: None,
                    },
                ),
            ),
        },
    }
}

/// The functions declared after one entry of a module was lowered.
pub open spec fn lowered_entry(functions: Seq<BackendFunctionView>, entry: ModuleFunctionView) -> Result<
    Seq<BackendFunctionView>,
    LoweringErrorView,
> {
    match entry {
        ModuleFunctionView::Local(function) => lowered_local(functions, function),
        ModuleFunctionView::External(function) => lowered_extern(functions, function),
    }
}

/// The functions declared after the entries from index `done` on were
/// lowered, in order, behind `functions`.
pub open spec fn lowered_entries(
    entries: Seq<ModuleFunctionView>,
    done: int,
    functions: Seq<BackendFunctionView>,
) -> Result<Seq<BackendFunctionView>, LoweringErrorView>
    decreases entries.len() - done,
{
    if 0 <= done < entries.len() {
        match lowered_entry(functions, entries[done]) {
            Ok(declared) => lowered_entries(entries, done + 1, declared),
            Err(error) => Err(error),
        }
    } else {
        Ok(functions)
    }
}

/// The backend module of a module: its name, and one function for each
/// entry, in the order of the entries.
pub open spec fn lowered_module(module: ModuleView) -> Result<BackendModuleView, LoweringErrorView> {
    match lowered_entries(module.functions, 0, Seq::empty()) {
        Ok(functions) => Ok(BackendModuleView { name: module.name, functions }),
        Err(error) => Err(error),
    }
}

} // verus!
