use super::backend::{BackendType, Instruction, Value};
use super::block::CodegenBlock;
use super::lowering::{element_type, lower_list, LoweringError};
use crate::parser::expression::{expression_views, ArrayExpression, ExpressionView};
use vstd::prelude::*;

verus! {

/// The type of the elements of a list of the given items: the type that
/// all of them have.
pub fn element_type_of(values: &Vec<Value>) -> (element: Result<BackendType, LoweringError>)
    ensures
        match element_type(values@) {
            Ok(found) => element == Ok::<BackendType, LoweringError>(found),
            Err(error) => element matches Err(e) && e@ == error,
        },
{
    if values.len() == 0 {
        return Err(LoweringError::CannotInferType);
    }
    let first = values[0].type_of();
    if values.len() > u32::MAX as usize || *first == BackendType::Void {
        return Err(LoweringError::UnsupportedType);
    }
    let mut i: usize = 1;
    while i < values.len()
        invariant
            1 <= i <= values.len(),
            *first == values@[0].value_type(),
            forall|k: int| 0 <= k < i ==> (#[trigger] values@[k]).value_type() == *first,
        decreases values.len() - i,
    {
        if *values[i].type_of() != *first {
            return Err(LoweringError::UnsupportedType);
        }
        i = i + 1;
    }
    Ok(first.clone())
}

#[verifier::loop_isolation(false)]
/// Lowers a list literal: its items in order, then the array of their
/// values, which is the value of the literal. The items must share one
/// type, which is the element type of the array.
pub fn compile_array(block: &mut CodegenBlock, expression: &ArrayExpression) -> (lowered: Result<
    Value,
    LoweringError,
>)
    ensures
        final(block).follows(
            old(block),
            old(block).lowering(ExpressionView::Array(expression@)),
            lowered,
        ),
    decreases expression,
{
    let ghost functions = block.module@.functions;
    let ghost bindings = block.bindings@;
    let ghost items = expression@.items;
    let ghost start = block.emitted();
    let mut values: Vec<Value> = Vec::new();
    let mut i: usize = 0;
    while i < expression.items.len()
        invariant
            i <= expression.items.len(),
            items == expression_views(expression.items@),
            block.bindings == old(block).bindings,
            block.module == old(block).module,
            functions == block.module@.functions,
            bindings == block.bindings@,
            lower_list(functions, bindings, block.emitted(), items, i as int, values@)
                == lower_list(functions, bindings, start, items, 0, Seq::empty()),
        decreases expression.items.len() - i,
    {
        match super::compile_expression_to_instruction(block, &expression.items[i]) {
            Ok(value) => {
                values.push(value);
            },
            Err(error) => {
                return Err(error);
            },
        }
        i = i + 1;
    }
    match element_type_of(&values) {
        Ok(element) => {
            let length = values.len() as u32;
            let list_type = BackendType::Array(Box::new(element.clone()), length);
            Ok(block.emit(Instruction::Array(element, values), list_type))
        },
        Err(error) => Err(error),
    }
}

} // verus!
