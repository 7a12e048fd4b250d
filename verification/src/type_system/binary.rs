use super::{inferred_type, TypeError};
use crate::parser::expression::{BinaryExpression, ExpressionView, NumberLiteralExpression};
use crate::parser::types::Type;
use vstd::prelude::*;

verus! {

impl NumberLiteralExpression {
    /// The type of a literal is the one it carries.
    pub fn infer_type(&self) -> (inferred: Result<Type, TypeError>)
        ensures
            inferred matches Ok(t) && t@ == self@.return_type,
            inferred_type(ExpressionView::NumberLiteral(self@)) == Ok::<_, TypeError>(
                self@.return_type,
            ),
    {
        Ok(self.return_type.clone())
    }
}

impl BinaryExpression {
    /// The type that both operands have, or an error where they differ.
    pub fn infer_type(&self) -> (inferred: Result<Type, TypeError>)
        ensures
            match inferred_type(ExpressionView::Binary(self@)) {
                Ok(found) => inferred matches Ok(t) && t@ == found,
                Err(error) => inferred == Err::<Type, TypeError>(error),
            },
        decreases self, 0int,
    {
        let right_type = match self.right.infer_type() {
            Ok(right_type) => right_type,
            Err(error) => {
                return Err(error);
            },
        };
        let left_type = match self.left.infer_type() {
            Ok(left_type) => left_type,
            Err(error) => {
                return Err(error);
            },
        };
        if left_type != right_type {
            return Err(TypeError::IncompatibleOperandTypes);
        }
        Ok(left_type)
    }
}

} // verus!
