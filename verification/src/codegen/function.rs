use super::backend::{
    backend_function_views, name_views, BackendFunction, BackendFunctionView, BackendModule,
    BackendModuleView, BackendType, Linkage, Value,
};
use super::block::BindingsHashMap;
use super::lowering::{
    local_declaration, lowered_extern, lowered_local, parameter_bindings, parameter_names,
    parameter_types, LoweringError, LoweringErrorView,
};
use super::scope::{lemma_extern_in_scope, lemma_local_in_scope, module_in_scope};
use crate::parser::expression::{
    argument_views, ExternFunctionExpression, FunctionExpression,
};
use crate::parser::types::Type;
use vstd::hash_map::StringHashMap;
use vstd::prelude::*;

verus! {

/// The models of the functions after one more function was declared.
proof fn lemma_function_views_push(functions: Seq<BackendFunction>, function: BackendFunction)
    ensures
        backend_function_views(functions.push(function)) == backend_function_views(functions).push(
            function@,
        ),
{
    assert(backend_function_views(functions.push(function)) =~= backend_function_views(
        functions,
    ).push(function@));
}

#[verifier::loop_isolation(false)]
/// Lowers a local function: declares it with the types of its parameters
/// and its return type, then lowers its body with each parameter bound
/// under its name. Where that fails, the module is left as it was.
pub fn compile_function(module: &mut BackendModule, expression: &FunctionExpression) -> (compiled:
    Result<(), LoweringError>)
    ensures
        match lowered_local(old(module)@.functions, expression@) {
            Ok(functions) => {
                &&& compiled is Ok
                &&& final(module)@ == (BackendModuleView { name: old(module)@.name, functions })
            },
            Err(error) => {
                &&& compiled matches Err(e)
                &&& e@ == error
                &&& final(module)@ == old(module)@
            },
        },
        module_in_scope(old(module)@.functions) ==> module_in_scope(final(module)@.functions),
{
    let ghost arguments = expression@.arguments;
    let args_count = expression.arguments.len();
    let mut args: Vec<BackendType> = Vec::new();
    let mut i: usize = 0;
    while i < args_count
        invariant
            i <= args_count,
            args.len() == i,
            args_count == expression.arguments.len(),
            arguments == argument_views(expression.arguments@),
            parameter_types(arguments, i as int, args@) == parameter_types(
                arguments,
                0,
                Seq::empty(),
            ),
        decreases args_count - i,
    {
        match BackendType::from(&expression.arguments[i].input_type) {
            Ok(arg_type) => {
                args.push(arg_type);
            },
            Err(error) => {
                return Err(error);
            },
        }
        i = i + 1;
    }
    let return_type = match &expression.body.return_type {
        Type::Unknown => BackendType::Int32,
        declared => match BackendType::from(declared) {
            Ok(return_type) => return_type,
            Err(error) => {
                return Err(error);
            },
        },
    };
    let mut function_bindings: BindingsHashMap = StringHashMap::new();
    let mut names: Vec<String> = Vec::new();
    let mut i: usize = 0;
    proof {
        assert(name_views(names@) =~= parameter_names(arguments).take(0));
    }
    while i < args_count
        invariant
            i <= args_count,
            args_count == expression.arguments.len(),
            arguments == argument_views(expression.arguments@),
            function_bindings@ == parameter_bindings(arguments, args@, i as int),
            name_views(names@) == parameter_names(arguments).take(i as int),
        decreases args_count - i,
    {
        let item = &expression.arguments[i];
        proof {
            assert(arguments[i as int] == item@);
            assert(parameter_names(arguments).take(i + 1) =~= parameter_names(arguments).take(
                i as int,
            ).push(item.binding_name@));
            assert(name_views(names@.push(item.binding_name)) =~= name_views(names@).push(
                item.binding_name@,
            ));
        }
        names.push(item.binding_name.clone());
        function_bindings.insert(item.binding_name.clone(), Value::Parameter(i, args[i].clone()));
        i = i + 1;
    }
    proof {
        assert(parameter_names(arguments).take(args_count as int) =~= parameter_names(arguments));
    }
    let function = BackendFunction {
        name: expression.name.clone(),
        parameter_types: args,
        parameter_names: names,
        return_type,
        linkage: Linkage::Local,
        body: None,
    };
    let ghost declared = function@;
    let ghost before = module.functions@;
    proof {
        assert(local_declaration(expression@) == Ok::<BackendFunctionView, LoweringErrorView>(
            declared,
        ));
        lemma_function_views_push(before, function);
    }
    module.functions.push(function);
    let block = super::block::compile_block(module, &expression.body, function_bindings);
    let mut function = module.functions.pop().unwrap();
    proof {
        assert(module.functions@ =~= before);
    }
    match block {
        Ok(block) => {
            function.body = Some(block);
            proof {
                lemma_function_views_push(before, function);
            }
            module.functions.push(function);
            proof {
                if module_in_scope(old(module)@.functions) {
                    // the lengths are those of vectors
                    let last = module.functions@.last();
                    assert(module@.functions.last() == last@);
                    assert(module.functions.len() <= usize::MAX);
                    assert(last.body->Some_0.instructions.len() <= usize::MAX);
                    assert(lowered_local(old(module)@.functions, expression@)->Ok_0
                        == module@.functions);
                    lemma_local_in_scope(old(module)@.functions, expression@);
                }
            }
            Ok(())
        },
        Err(error) => Err(error),
    }
}

#[verifier::loop_isolation(false)]
/// Declares an external function: its signature, with external linkage and
/// without a body. Where a type of it has no counterpart, the module is
/// left as it was.
pub fn compile_extern_function(module: &mut BackendModule, expression: &ExternFunctionExpression) -> (compiled:
    Result<(), LoweringError>)
    ensures
        match lowered_extern(old(module)@.functions, expression@) {
            Ok(functions) => {
                &&& compiled is Ok
                &&& final(module)@ == (BackendModuleView { name: old(module)@.name, functions })
            },
            Err(error) => {
                &&& compiled matches Err(e)
                &&& e@ == error
                &&& final(module)@ == old(module)@
            },
        },
        module_in_scope(old(module)@.functions) ==> module_in_scope(final(module)@.functions),
{
    let ghost arguments = expression@.arguments;
    let args_count = expression.arguments.len();
    let mut args: Vec<BackendType> = Vec::new();
    let mut i: usize = 0;
    while i < args_count
        invariant
            i <= args_count,
            args.len() == i,
            args_count == expression.arguments.len(),
            arguments == argument_views(expression.arguments@),
            parameter_types(arguments, i as int, args@) == parameter_types(
                arguments,
                0,
                Seq::empty(),
            ),
        decreases args_count - i,
    {
        match BackendType::from(&expression.arguments[i].input_type) {
            Ok(arg_type) => {
                args.push(arg_type);
            },
            Err(error) => {
                return Err(error);
            },
        }
        i = i + 1;
    }
    let return_type = match BackendType::from(&expression.return_type) {
        Ok(return_type) => return_type,
        Err(error) => {
            return Err(error);
        },
    };
    let function = BackendFunction {
        name: expression.name.clone(),
        parameter_types: args,
        parameter_names: Vec::new(),
        return_type,
        linkage: Linkage::External,
        body: None,
    };
    proof {
        assert(name_views(function.parameter_names@) =~= Seq::<Seq<char>>::empty());
        lemma_function_views_push(module.functions@, function);
    }
    module.functions.push(function);
    proof {
        if module_in_scope(old(module)@.functions) {
            lemma_extern_in_scope(old(module)@.functions, expression@);
        }
    }
    Ok(())
}

} // verus!
