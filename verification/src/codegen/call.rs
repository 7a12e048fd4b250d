use super::backend::{named_function, Instruction, Value};
use super::block::CodegenBlock;
use super::lowering::{lower_list, LoweringError, LoweringErrorView};
use crate::parser::expression::{expression_views, CallExpression, ExpressionView};
use vstd::prelude::*;

verus! {

#[verifier::loop_isolation(false)]
/// Lowers a call. The callee must be declared, and must take as many
/// parameters as the call has arguments: where it is not or does not, the
/// call fails before anything is emitted. The arguments are lowered in
/// order; the result of the call instruction is the value, and has the
/// return type of the callee.
pub fn compile_call(block: &mut CodegenBlock, expression: &CallExpression) -> (lowered: Result<
    Value,
    LoweringError,
>)
    ensures
        final(block).follows(
            old(block),
            old(block).lowering(ExpressionView::Call(expression@)),
            lowered,
        ),
        named_function(old(block).module@.functions, expression@.function_name) is None ==> {
            &&& lowered matches Err(e)
            &&& e@ == LoweringErrorView::FunctionNotFound(expression@.function_name)
            &&& final(block).inner@ == old(block).inner@
        },
        ({
            let found = named_function(old(block).module@.functions, expression@.function_name);
            let expected = old(block).module@.functions[found->Some_0].parameter_types.len();
            found is Some && expected != expression@.args.len() ==> {
                &&& lowered matches Err(e)
                &&& e@ == (LoweringErrorView::ArgumentCountMismatch {
                    name: expression@.function_name,
                    expected: expected as usize,
                    got: expression@.args.len() as usize,
                })
                &&& final(block).inner@ == old(block).inner@
            }
        }),
    decreases expression,
{
    let callee = match block.module.get_named_function(&expression.function_name) {
        Some(callee) => callee,
        None => {
            return Err(LoweringError::FunctionNotFound(expression.function_name.clone()));
        },
    };
    let expected_args_size = block.module.count_params(callee);
    if expected_args_size != expression.args.len() {
        return Err(
            LoweringError::ArgumentCountMismatch {
                name: expression.function_name.clone(),
                expected: expected_args_size,
                got: expression.args.len(),
            },
        );
    }
    let ghost functions = block.module@.functions;
    let ghost bindings = block.bindings@;
    let ghost items = expression@.args;
    let ghost start = block.emitted();
    let mut args: Vec<Value> = Vec::new();
    let mut i: usize = 0;
    while i < expression.args.len()
        invariant
            i <= expression.args.len(),
            items == expression_views(expression.args@),
            block.bindings == old(block).bindings,
            block.module == old(block).module,
            functions == block.module@.functions,
            bindings == block.bindings@,
            lower_list(functions, bindings, block.emitted(), items, i as int, args@) == lower_list(
                functions,
                bindings,
                start,
                items,
                0,
                Seq::empty(),
            ),
        decreases expression.args.len() - i,
    {
        match super::compile_expression_to_instruction(block, &expression.args[i]) {
            Ok(value) => {
                args.push(value);
            },
            Err(error) => {
                return Err(error);
            },
        }
        i = i + 1;
    }
    let return_type = block.module.functions[callee].return_type.clone();
    Ok(block.emit(Instruction::Call(callee, args), return_type))
}

} // verus!
