//! A shallow type checker: the type of a literal is the one it carries, and
//! the type of a binary expression is the type that its operands share.

use crate::parser::expression::{Expression, ExpressionView};
use crate::parser::types::TypeView;
use vstd::prelude::*;

pub use crate::parser::Type;

pub mod binary;

verus! {

/// Why an expression has no type.
#[derive(Clone, Copy, Debug, PartialEq, Eq, Structural)]
pub enum TypeError {
    /// The operands of a binary expression are of different types.
    IncompatibleOperandTypes,
}

/// The type of an expression. A literal and a variable have the type they
/// carry. A binary expression has the type of its operands, which must be
/// the same on both sides. Calls, list literals and declarations are not
/// inferred: their type is `Unknown`.
pub open spec fn inferred_type(expression: ExpressionView) -> Result<TypeView, TypeError>
    decreases expression,
{
    match expression {
        ExpressionView::NumberLiteral(literal) => Ok(literal.return_type),
        ExpressionView::Variable(variable) => Ok(variable.return_type),
        ExpressionView::Binary(binary) => match inferred_type(*binary.right) {
            Err(error) => Err(error),
            Ok(right) => match inferred_type(*binary.left) {
                Err(error) => Err(error),
                Ok(left) => if left == right {
                    Ok(left)
                } else {
                    Err(TypeError::IncompatibleOperandTypes)
                },
            },
        },
        _ => Ok(TypeView::Unknown),
    }
}

impl Expression {
    /// Infers the type of the expression, or reports the first binary
    /// expression in it whose operands differ in type.
    pub fn infer_type(&self) -> (inferred: Result<Type, TypeError>)
        ensures
            match inferred_type(self@) {
                Ok(found) => inferred matches Ok(t) && t@ == found,
                Err(error) => inferred == Err::<Type, TypeError>(error),
            },
        decreases self, 1int,
    {
        match self {
            Expression::NumberLiteral(expr) => expr.infer_type(),
            Expression::Variable(expr) => Ok(expr.return_type.clone()),
            Expression::Binary(expr) => expr.infer_type(),
            _ => Ok(Type::Unknown),
        }
    }
}

} // verus!
