use super::backend::BackendModule;
use super::lowering::{lowered_entries, lowered_module, LoweringError};
use super::scope::module_in_scope;
use crate::modules::function::ModuleFunction;
use crate::modules::module::{function_views, Module};
use vstd::prelude::*;

verus! {

#[verifier::loop_isolation(false)]
/// Lowers a module: a backend module of its name, with one function for
/// each entry, lowered in the order of the entries. The first error ends
/// the lowering, and no module comes of it.
pub fn compile_module(module: &Module) -> (compiled: Result<BackendModule, LoweringError>)
    ensures
        match lowered_module(module@) {
            Ok(lowered) => compiled matches Ok(m) && m@ == lowered,
            Err(error) => compiled matches Err(e) && e@ == error,
        },
        compiled matches Ok(m) ==> module_in_scope(m@.functions),
{
    let mut llvm_module = BackendModule::new(module.name.clone());
    let ghost entries = module@.functions;
    let mut i: usize = 0;
    while i < module.functions.len()
        invariant
            i <= module.functions.len(),
            entries == function_views(module.functions@),
            llvm_module@.name == module@.name,
            module_in_scope(llvm_module@.functions),
            lowered_entries(entries, i as int, llvm_module@.functions) == lowered_entries(
                entries,
                0,
                Seq::empty(),
            ),
        decreases module.functions.len() - i,
    {
        let compiled = match &module.functions[i] {
            ModuleFunction::Local(expr) => super::function::compile_function(
                &mut llvm_module,
                expr,
            ),
            ModuleFunction::External(expr) => super::function::compile_extern_function(
                &mut llvm_module,
                expr,
            ),
        };
        match compiled {
            Ok(()) => {},
            Err(error) => {
                return Err(error);
            },
        }
        i = i + 1;
    }
    Ok(llvm_module)
}

} // verus!
