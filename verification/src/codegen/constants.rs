use super::backend::{BackendType, Value};
use super::lowering::{lowered_constant, LoweringError};
use crate::parser::expression::NumberLiteralExpression;
use vstd::prelude::*;

verus! {

/// The integer constant of a literal: its integer part, in the integer type
/// that the literal has. A literal of any other type has no constant.
pub fn compile_int64_constant(number: &NumberLiteralExpression) -> (constant: Result<
    Value,
    LoweringError,
>)
    ensures
        match lowered_constant(number@) {
            Ok(value) => constant == Ok::<Value, LoweringError>(value),
            Err(error) => constant matches Err(e) && e@ == error,
        },
{
    match BackendType::from(&number.return_type) {
        Ok(BackendType::Int32) => Ok(
            Value::Constant(BackendType::Int32, number.number.integer_part()),
        ),
        Ok(_) => Err(LoweringError::UnsupportedType),
        Err(error) => Err(error),
    }
}

} // verus!
