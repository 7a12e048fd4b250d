use super::backend::BackendType;
use super::lowering::{lowered_type, LoweringError};
use crate::parser::types::Type;
use vstd::prelude::*;

verus! {

impl BackendType {
    /// The counterpart of a type in the code generator. A type that was
    /// never inferred and a user type have none.
    pub fn from(value: &Type) -> (lowered: Result<BackendType, LoweringError>)
        ensures
            match lowered_type(value@) {
                Ok(found) => lowered == Ok::<BackendType, LoweringError>(found),
                Err(error) => lowered matches Err(e) && e@ == error,
            },
        decreases value,
    {
        match value {
            Type::Int32 => Ok(BackendType::Int32),
            Type::Void => Ok(BackendType::Void),
            Type::Unknown => Err(LoweringError::CannotInferType),
            Type::User(_) => Err(LoweringError::UnsupportedType),
            Type::ListOf(t, length) => match BackendType::from(&**t) {
                Ok(inner_type) => Ok(BackendType::Array(Box::new(inner_type), *length)),
                Err(error) => Err(error),
            },
        }
    }
}

} // verus!
