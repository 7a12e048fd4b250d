pub mod array;
pub mod backend;
pub mod binary;
pub mod block;
pub mod call;
pub mod constants;
pub mod function;
pub mod lowering;
pub mod module;
pub mod scope;
pub mod semantics;
pub mod types;
pub mod variable;

use crate::modules::Module;
use crate::parser::expression::lemma_expression_view;
use crate::parser::Expression;
use backend::{BackendModule, Value};
use lowering::{lowered_module, LoweringError};
use scope::module_in_scope;
use vstd::prelude::*;

pub use block::CodegenBlock;

verus! {

/// Lowers a module into the backend module that the code generator takes.
pub fn compile_application(module: Module) -> (compiled: Result<BackendModule, LoweringError>)
    ensures
        match lowered_module(module@) {
            Ok(lowered) => compiled matches Ok(m) && m@ == lowered,
            Err(error) => compiled matches Err(e) && e@ == error,
        },
        compiled matches Ok(m) ==> module_in_scope(m@.functions),
{
    self::module::compile_module(&module)
}

/// Lowers an expression behind the instructions of the block, and returns
/// the handle of its value. A declaration has no value.
pub fn compile_expression_to_instruction(
    containing_block: &mut CodegenBlock,
    expression: &Expression,
) -> (lowered: Result<Value, LoweringError>)
    ensures
        final(containing_block).follows(
            old(containing_block),
            old(containing_block).lowering(expression@),
            lowered,
        ),
    decreases expression,
{
    proof {
        lemma_expression_view(*expression);
    }
    match expression {
        Expression::Binary(expr) => binary::compile_binary_expression_to_instruction(
            containing_block,
            expr,
        ),
        Expression::NumberLiteral(literal) => constants::compile_int64_constant(literal),
        Expression::Variable(expr) => variable::compile_variable_expression(containing_block, expr),
        Expression::Call(expr) => call::compile_call(containing_block, expr),
        Expression::Array(expr) => array::compile_array(containing_block, expr),
        _ => Err(LoweringError::UnsupportedExpression),
    }
}

} // verus!
