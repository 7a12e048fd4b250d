use super::backend::{Instruction, Value};
use super::block::CodegenBlock;
use super::lowering::LoweringError;
use crate::parser::expression::{BinaryExpression, ExpressionView};
use crate::parser::tokenizer::BinaryOperator;
use vstd::prelude::*;

verus! {

/// Lowers a binary expression: its right operand, then its left one, then
/// the arithmetic instruction of its operator, whose result is the value. The
/// value has the type of the left operand.
pub fn compile_binary_expression_to_instruction(
    containing_block: &mut CodegenBlock,
    expression: &BinaryExpression,
) -> (lowered: Result<Value, LoweringError>)
    ensures
        final(containing_block).follows(
            old(containing_block),
            old(containing_block).lowering(ExpressionView::Binary(expression@)),
            lowered,
        ),
    decreases expression,
{
    let right = match super::compile_expression_to_instruction(containing_block, &expression.right) {
        Ok(right) => right,
        Err(error) => {
            return Err(error);
        },
    };
    let left = match super::compile_expression_to_instruction(containing_block, &expression.left) {
        Ok(left) => left,
        Err(error) => {
            return Err(error);
        },
    };
    let result_type = left.type_of().clone();
    let instruction = match expression.operator {
        BinaryOperator::Add => Instruction::Add(left, right),
        BinaryOperator::Mul => Instruction::Mul(left, right),
        BinaryOperator::Sub => Instruction::Sub(left, right),
    };
    Ok(containing_block.emit(instruction, result_type))
}

} // verus!
