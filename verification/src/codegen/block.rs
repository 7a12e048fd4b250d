use super::backend::{
    instruction_views, BackendBlock, BackendModule, BackendType, Instruction, InstructionView,
    Terminator, Value,
};
use super::lowering::{
    lower_expression, lower_statements, lowered_block, Lowered, LoweringError,
};
use crate::parser::expression::{expression_views, BlockExpression, ExpressionView};
use vstd::hash_map::StringHashMap;
use vstd::prelude::*;

verus! {

/// The bindings in scope: the value that each variable name stands for.
pub type BindingsHashMap = StringHashMap<Value>;

/// A block under construction: the bindings in scope, the module whose
/// functions can be called, and the instructions emitted so far.
pub struct CodegenBlock<'a> {
    pub bindings: BindingsHashMap,
    pub module: &'a BackendModule,
    pub inner: Vec<Instruction>,
}

impl<'a> CodegenBlock<'a> {
    /// The models of the instructions emitted so far.
    pub open spec fn emitted(&self) -> Seq<InstructionView> {
        instruction_views(self.inner@)
    }

    /// What lowering `expression` in this block comes to.
    pub open spec fn lowering(&self, expression: ExpressionView) -> Lowered {
        lower_expression(self.module@.functions, self.bindings@, self.emitted(), expression)
    }

    /// Whether this block is `before` after a lowering that came to
    /// `expected` and returned `lowered`: the instructions are those
    /// expected, the result is the value or the error expected, and the
    /// bindings and the module are as they were.
    pub open spec fn follows(
        &self,
        before: &CodegenBlock<'a>,
        expected: Lowered,
        lowered: Result<Value, LoweringError>,
    ) -> bool {
        &&& self.bindings == before.bindings
        &&& self.module == before.module
        &&& self.emitted() == expected.emitted
        &&& match expected.outcome {
            Ok(value) => lowered == Ok::<Value, LoweringError>(value),
            Err(error) => lowered matches Err(e) && e@ == error,
        }
    }

    /// A block that goes on behind the instructions in `inner`.
    pub fn new(module: &'a BackendModule, inner: Vec<Instruction>, bindings: BindingsHashMap) -> (block:
        CodegenBlock<'a>)
        ensures
            block.module == module,
            block.inner == inner,
            block.bindings == bindings,
    {
        CodegenBlock { bindings, module, inner }
    }

    /// Appends an instruction whose result has the given type, and returns
    /// the handle of the result.
    pub fn emit(&mut self, instruction: Instruction, result_type: BackendType) -> (value: Value)
        ensures
            final(self).bindings == old(self).bindings,
            final(self).module == old(self).module,
            final(self).inner@ == old(self).inner@.push(instruction),
            final(self).emitted() == old(self).emitted().push(instruction@),
            value == Value::Instruction(old(self).emitted().len() as usize, result_type),
    {
        let index = self.inner.len();
        proof {
            assert(instruction_views(self.inner@.push(instruction)) =~= instruction_views(
                self.inner@,
            ).push(instruction@));
        }
        self.inner.push(instruction);
        Value::Instruction(index, result_type)
    }
}

#[verifier::loop_isolation(false)]
/// Lowers a body into a block of its own: its statements in order, with the
/// inherited bindings in scope, and the return of the value of the last
/// statement, or of nothing where the body is empty.
pub fn compile_block(
    module: &BackendModule,
    ast_block: &BlockExpression,
    inherited_bindings: BindingsHashMap,
) -> (compiled: Result<BackendBlock, LoweringError>)
    ensures
        match lowered_block(module@.functions, inherited_bindings@, ast_block@) {
            Ok(block) => compiled matches Ok(b) && b@ == block,
            Err(error) => compiled matches Err(e) && e@ == error,
        },
{
    let mut block = CodegenBlock::new(module, Vec::new(), inherited_bindings);
    let mut last_value_ref: Option<Value> = None;
    let ghost statements = ast_block@.expressions;
    let ghost functions = module@.functions;
    let ghost bindings = inherited_bindings@;
    proof {
        assert(block.emitted() =~= Seq::<InstructionView>::empty());
    }
    let mut i: usize = 0;
    while i < ast_block.expressions.len()
        invariant
            i <= ast_block.expressions.len(),
            statements == expression_views(ast_block.expressions@),
            block.module == module,
            functions == module@.functions,
            block.bindings@ == bindings,
            lower_statements(functions, bindings, block.emitted(), statements, i as int, last_value_ref)
                == lower_statements(functions, bindings, Seq::empty(), statements, 0, None),
        decreases ast_block.expressions.len() - i,
    {
        match super::compile_expression_to_instruction(&mut block, &ast_block.expressions[i]) {
            Ok(value) => {
                last_value_ref = Some(value);
            },
            Err(error) => {
                return Err(error);
            },
        }
        i = i + 1;
    }
    // always return last expression result
    let terminator = match last_value_ref {
        Some(last_value_ref) => Terminator::Return(last_value_ref),
        None => Terminator::ReturnVoid,
    };
    Ok(BackendBlock { instructions: block.inner, terminator })
}

} // verus!
