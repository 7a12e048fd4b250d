use super::backend::Value;
use super::block::CodegenBlock;
use super::lowering::{LoweringError, LoweringErrorView};
use crate::parser::expression::{ExpressionView, VariableExpression};
use vstd::prelude::*;

verus! {

/// The value that a variable is bound to in the block, or an error where
/// its name is not bound.
pub fn compile_variable_expression(block: &CodegenBlock, expression: &VariableExpression) -> (value:
    Result<Value, LoweringError>)
    ensures
        match block.lowering(ExpressionView::Variable(expression@)).outcome {
            Ok(bound) => value == Ok::<Value, LoweringError>(bound),
            Err(error) => value matches Err(e) && e@ == error,
        },
        block.bindings@.contains_key(expression@.binding) ==> value == Ok::<Value, LoweringError>(
            block.bindings@[expression@.binding],
        ),
        !block.bindings@.contains_key(expression@.binding) ==> (value matches Err(e) && e@
            == LoweringErrorView::UnknownVariable(expression@.binding)),
{
    match block.bindings.get(expression.binding.as_str()) {
        Some(value) => Ok(value.clone()),
        None => Err(LoweringError::UnknownVariable(expression.binding.clone())),
    }
}

} // verus!
