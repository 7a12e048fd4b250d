//! What holds of every lowering: it only appends to a block, and what it
//! emits uses only values that exist and functions that are declared.

use super::backend::{
    named_function, BackendBlockView, BackendFunctionView, BackendType, InstructionView, Linkage,
    Terminator, Value,
};
use super::lowering::{
    arithmetic, element_type, local_declaration, lower_expression, lower_list, lower_statements, lowered_block,
    lowered_entries, lowered_entry, lowered_extern, lowered_local, lowered_type,
    parameter_bindings, parameter_types,
};
use crate::modules::function::ModuleFunctionView;
use crate::parser::expression::{
    ArgumentView, BlockView, ExpressionView, ExternFunctionView, FunctionView,
};
use vstd::prelude::*;

verus! {

/// Whether `after` is `before` with instructions appended.
pub open spec fn extends(after: Seq<InstructionView>, before: Seq<InstructionView>) -> bool {
    before.len() <= after.len() && after.take(before.len() as int) == before
}

/// Lowering an expression appends to the instructions of the block: none of
/// those that stand there is changed or taken away.
pub proof fn lemma_lowering_appends(
    functions: Seq<BackendFunctionView>,
    bindings: Map<Seq<char>, Value>,
    emitted: Seq<InstructionView>,
    expression: ExpressionView,
)
    ensures
        extends(lower_expression(functions, bindings, emitted, expression).emitted, emitted),
    decreases expression, 0int,
{
    assert(emitted.take(emitted.len() as int) =~= emitted);
    match expression {
        ExpressionView::Binary(binary) => {
            let right = lower_expression(functions, bindings, emitted, *binary.right);
            lemma_lowering_appends(functions, bindings, emitted, *binary.right);
            if right.outcome is Ok {
                let left = lower_expression(functions, bindings, right.emitted, *binary.left);
                lemma_lowering_appends(functions, bindings, right.emitted, *binary.left);
                lemma_extends_transitive(left.emitted, right.emitted, emitted);
                if left.outcome is Ok {
                    let instruction = arithmetic(
                        binary.operator,
                        left.outcome->Ok_0,
                        right.outcome->Ok_0,
                    );
                    lemma_extends_push(left.emitted, instruction, emitted);
                }
            }
        },
        ExpressionView::Call(call) => {
            if named_function(functions, call.function_name) is Some {
                let args = lower_list(functions, bindings, emitted, call.args, 0, Seq::empty());
                lemma_list_appends(functions, bindings, emitted, call.args, 0, Seq::empty());
                if args.outcome is Ok {
                    lemma_extends_push(
                        args.emitted,
                        InstructionView::Call(
                            named_function(functions, call.function_name)->Some_0 as usize,
                            args.outcome->Ok_0,
                        ),
                        emitted,
                    );
                }
            }
        },
        ExpressionView::Array(array) => {
            let items = lower_list(functions, bindings, emitted, array.items, 0, Seq::empty());
            lemma_list_appends(functions, bindings, emitted, array.items, 0, Seq::empty());
            if items.outcome is Ok && element_type(items.outcome->Ok_0) is Ok {
                lemma_extends_push(
                    items.emitted,
                    InstructionView::Array(
                        element_type(items.outcome->Ok_0)->Ok_0,
                        items.outcome->Ok_0,
                    ),
                    emitted,
                );
            }
        },
        _ => {},
    }
}

/// Lowering a list of expressions appends to the instructions of the block,
/// and gives one value for each expression.
pub proof fn lemma_list_appends(
    functions: Seq<BackendFunctionView>,
    bindings: Map<Seq<char>, Value>,
    emitted: Seq<InstructionView>,
    items: Seq<ExpressionView>,
    done: int,
    values: Seq<Value>,
)
    requires
        0 <= done <= items.len(),
    ensures
        extends(lower_list(functions, bindings, emitted, items, done, values).emitted, emitted),
        lower_list(functions, bindings, emitted, items, done, values).outcome matches Ok(all)
            ==> all.len() == values.len() + items.len() - done,
    decreases items, items.len() - done,
{
    assert(emitted.take(emitted.len() as int) =~= emitted);
    if done < items.len() {
        let item = lower_expression(functions, bindings, emitted, items[done]);
        lemma_lowering_appends(functions, bindings, emitted, items[done]);
        if item.outcome is Ok {
            lemma_list_appends(
                functions,
                bindings,
                item.emitted,
                items,
                done + 1,
                values.push(item.outcome->Ok_0),
            );
            lemma_extends_transitive(
                lower_list(functions, bindings, emitted, items, done, values).emitted,
                item.emitted,
                emitted,
            );
        }
    }
}

/// What is appended to what was appended is appended.
proof fn lemma_extends_transitive(
    third: Seq<InstructionView>,
    second: Seq<InstructionView>,
    first: Seq<InstructionView>,
)
    requires
        extends(third, second),
        extends(second, first),
    ensures
        extends(third, first),
{
    assert(third.take(first.len() as int) =~= third.take(second.len() as int).take(
        first.len() as int,
    ));
}

/// One more instruction at the end is appended too.
proof fn lemma_extends_push(
    second: Seq<InstructionView>,
    instruction: InstructionView,
    first: Seq<InstructionView>,
)
    requires
        extends(second, first),
    ensures
        extends(second.push(instruction), first),
{
    assert(second.push(instruction).take(first.len() as int) =~= second.take(first.len() as int));
}

/// Whether a handle names a value that exists where a function has
/// `parameters` parameters and its block `results` instructions so far.
pub open spec fn in_scope(value: Value, parameters: int, results: int) -> bool {
    match value {
        Value::Constant(_, _) => true,
        Value::Parameter(index, _) => index < parameters,
        Value::Instruction(index, _) => index < results,
    }
}

/// Whether every handle of the sequence is in scope.
pub open spec fn all_in_scope(values: Seq<Value>, parameters: int, results: int) -> bool {
    forall|k: int| 0 <= k < values.len() ==> in_scope(#[trigger] values[k], parameters, results)
}

/// Whether an instruction that stands behind `results` others uses only
/// values that exist there, and calls only a function that is declared, with
/// as many arguments as the function has parameters. `arities` holds the
/// number of parameters of each declared function.
pub open spec fn instruction_in_scope(
    instruction: InstructionView,
    arities: Seq<nat>,
    parameters: int,
    results: int,
) -> bool {
    match instruction {
        InstructionView::Add(left, right) => in_scope(left, parameters, results) && in_scope(
            right,
            parameters,
            results,
        ),
        InstructionView::Sub(left, right) => in_scope(left, parameters, results) && in_scope(
            right,
            parameters,
            results,
        ),
        InstructionView::Mul(left, right) => in_scope(left, parameters, results) && in_scope(
            right,
            parameters,
            results,
        ),
        InstructionView::Call(callee, args) => {
            &&& callee < arities.len()
            &&& args.len() == arities[callee as int]
            &&& all_in_scope(args, parameters, results)
        },
        InstructionView::Array(_, items) => all_in_scope(items, parameters, results),
    }
}

/// Whether each instruction of the sequence uses only what stands before it.
pub open spec fn instructions_in_scope(
    instructions: Seq<InstructionView>,
    arities: Seq<nat>,
    parameters: int,
) -> bool {
    forall|k: int|
        0 <= k < instructions.len() ==> instruction_in_scope(
            #[trigger] instructions[k],
            arities,
            parameters,
            k,
        )
}

/// Whether a block uses only values that exist where they are used.
pub open spec fn block_in_scope(block: BackendBlockView, arities: Seq<nat>, parameters: int) -> bool {
    &&& instructions_in_scope(block.instructions, arities, parameters)
    &&& match block.terminator {
        Terminator::Return(value) => in_scope(value, parameters, block.instructions.len() as int),
        Terminator::ReturnVoid => true,
    }
}

/// The number of parameters of each function, in order.
pub open spec fn arities_of(functions: Seq<BackendFunctionView>) -> Seq<nat> {
    functions.map_values(|function: BackendFunctionView| function.parameter_types.len())
}

/// Whether every binding is a value that exists at the start of a block.
pub open spec fn bindings_in_scope(bindings: Map<Seq<char>, Value>, parameters: int) -> bool {
    forall|name: Seq<char>|
        bindings.contains_key(name) ==> in_scope(#[trigger] bindings[name], parameters, 0)
}

/// Whether a module is closed: each body uses only its own parameters and
/// the results of its own earlier instructions, and calls only functions
/// that are declared no later than the function itself, with as many
/// arguments as they have parameters.
pub open spec fn module_in_scope(functions: Seq<BackendFunctionView>) -> bool {
    forall|i: int|
        0 <= i < functions.len() && (#[trigger] functions[i]).body is Some ==> block_in_scope(
            functions[i].body->Some_0,
            arities_of(functions.take(i + 1)),
            functions[i].parameter_types.len() as int,
        )
}

/// A value that exists keeps existing as instructions are appended.
proof fn lemma_scope_grows(values: Seq<Value>, parameters: int, results: int, later: int)
    requires
        all_in_scope(values, parameters, results),
        results <= later,
    ensures
        all_in_scope(values, parameters, later),
{
    assert forall|k: int| 0 <= k < values.len() implies in_scope(
        #[trigger] values[k],
        parameters,
        later,
    ) by {
        assert(in_scope(values[k], parameters, results));
    }
}

/// Lowering keeps a block closed: where the instructions so far and the
/// bindings use only what exists, so do the instructions after the lowering,
/// and the value of the expression exists behind them.
pub proof fn lemma_lowering_in_scope(
    functions: Seq<BackendFunctionView>,
    bindings: Map<Seq<char>, Value>,
    emitted: Seq<InstructionView>,
    expression: ExpressionView,
    parameters: int,
)
    requires
        functions.len() <= usize::MAX,
        instructions_in_scope(emitted, arities_of(functions), parameters),
        bindings_in_scope(bindings, parameters),
        lower_expression(functions, bindings, emitted, expression).emitted.len() <= usize::MAX,
    ensures
        instructions_in_scope(
            lower_expression(functions, bindings, emitted, expression).emitted,
            arities_of(functions),
            parameters,
        ),
        lower_expression(functions, bindings, emitted, expression).outcome matches Ok(value)
            ==> in_scope(
            value,
            parameters,
            lower_expression(functions, bindings, emitted, expression).emitted.len() as int,
        ),
    decreases expression, 0int,
{
    let arities = arities_of(functions);
    match expression {
        ExpressionView::Variable(variable) => {
            if bindings.contains_key(variable.binding) {
                assert(in_scope(bindings[variable.binding], parameters, 0));
            }
        },
        ExpressionView::Binary(binary) => {
            let right = lower_expression(functions, bindings, emitted, *binary.right);
            lemma_lowering_appends(functions, bindings, emitted, *binary.right);
            if right.outcome is Ok {
                let left = lower_expression(functions, bindings, right.emitted, *binary.left);
                lemma_lowering_appends(functions, bindings, right.emitted, *binary.left);
                lemma_lowering_in_scope(functions, bindings, emitted, *binary.right, parameters);
                lemma_lowering_in_scope(
                    functions,
                    bindings,
                    right.emitted,
                    *binary.left,
                    parameters,
                );
                if left.outcome is Ok {
                    let instruction = arithmetic(
                        binary.operator,
                        left.outcome->Ok_0,
                        right.outcome->Ok_0,
                    );
                    let after = left.emitted.push(instruction);
                    assert(instruction_in_scope(
                        instruction,
                        arities,
                        parameters,
                        left.emitted.len() as int,
                    ));
                    assert forall|k: int| 0 <= k < after.len() implies instruction_in_scope(
                        #[trigger] after[k],
                        arities,
                        parameters,
                        k,
                    ) by {
                        if k < left.emitted.len() {
                            assert(after[k] == left.emitted[k]);
                        }
                    }
                }
            } else {
                lemma_lowering_in_scope(functions, bindings, emitted, *binary.right, parameters);
            }
        },
        ExpressionView::Call(call) => {
            if named_function(functions, call.function_name) is Some {
                let callee = named_function(functions, call.function_name)->Some_0;
                super::backend::lemma_function_from(functions, call.function_name, 0);
                if functions[callee].parameter_types.len() == call.args.len() {
                    let args = lower_list(functions, bindings, emitted, call.args, 0, Seq::empty());
                    lemma_list_appends(functions, bindings, emitted, call.args, 0, Seq::empty());
                    lemma_list_in_scope(
                        functions,
                        bindings,
                        emitted,
                        call.args,
                        0,
                        Seq::empty(),
                        parameters,
                    );
                    if args.outcome is Ok {
                        let instruction = InstructionView::Call(
                            callee as usize,
                            args.outcome->Ok_0,
                        );
                        let after = args.emitted.push(instruction);
                        assert(arities[callee] == functions[callee].parameter_types.len());
                        assert(instruction_in_scope(
                            instruction,
                            arities,
                            parameters,
                            args.emitted.len() as int,
                        ));
                        assert forall|k: int| 0 <= k < after.len() implies instruction_in_scope(
                            #[trigger] after[k],
                            arities,
                            parameters,
                            k,
                        ) by {
                            if k < args.emitted.len() {
                                assert(after[k] == args.emitted[k]);
                            }
                        }
                    }
                }
            }
        },
        ExpressionView::Array(array) => {
            let items = lower_list(functions, bindings, emitted, array.items, 0, Seq::empty());
            lemma_list_appends(functions, bindings, emitted, array.items, 0, Seq::empty());
            lemma_list_in_scope(
                functions,
                bindings,
                emitted,
                array.items,
                0,
                Seq::empty(),
                parameters,
            );
            if items.outcome is Ok && element_type(items.outcome->Ok_0) is Ok {
                let instruction = InstructionView::Array(
                    element_type(items.outcome->Ok_0)->Ok_0,
                    items.outcome->Ok_0,
                );
                let after = items.emitted.push(instruction);
                assert(instruction_in_scope(
                    instruction,
                    arities,
                    parameters,
                    items.emitted.len() as int,
                ));
                assert forall|k: int| 0 <= k < after.len() implies instruction_in_scope(
                    #[trigger] after[k],
                    arities,
                    parameters,
                    k,
                ) by {
                    if k < items.emitted.len() {
                        assert(after[k] == items.emitted[k]);
                    }
                }
            }
        },
        _ => {},
    }
}

/// Lowering a list keeps a block closed, and the values of the list exist
/// behind its instructions.
pub proof fn lemma_list_in_scope(
    functions: Seq<BackendFunctionView>,
    bindings: Map<Seq<char>, Value>,
    emitted: Seq<InstructionView>,
    items: Seq<ExpressionView>,
    done: int,
    values: Seq<Value>,
    parameters: int,
)
    requires
        0 <= done <= items.len(),
        functions.len() <= usize::MAX,
        instructions_in_scope(emitted, arities_of(functions), parameters),
        bindings_in_scope(bindings, parameters),
        all_in_scope(values, parameters, emitted.len() as int),
        lower_list(functions, bindings, emitted, items, done, values).emitted.len() <= usize::MAX,
    ensures
        instructions_in_scope(
            lower_list(functions, bindings, emitted, items, done, values).emitted,
            arities_of(functions),
            parameters,
        ),
        lower_list(functions, bindings, emitted, items, done, values).outcome matches Ok(all)
            ==> all_in_scope(
            all,
            parameters,
            lower_list(functions, bindings, emitted, items, done, values).emitted.len() as int,
        ),
    decreases items, items.len() - done,
{
    if done < items.len() {
        let item = lower_expression(functions, bindings, emitted, items[done]);
        lemma_lowering_appends(functions, bindings, emitted, items[done]);
        if item.outcome is Ok {
            let next = values.push(item.outcome->Ok_0);
            lemma_list_appends(functions, bindings, item.emitted, items, done + 1, next);
            lemma_lowering_in_scope(functions, bindings, emitted, items[done], parameters);
            lemma_scope_grows(values, parameters, emitted.len() as int, item.emitted.len() as int);
            assert(all_in_scope(next, parameters, item.emitted.len() as int)) by {
                assert forall|k: int| 0 <= k < next.len() implies in_scope(
                    #[trigger] next[k],
                    parameters,
                    item.emitted.len() as int,
                ) by {
                    if k < values.len() {
                        assert(next[k] == values[k]);
                    }
                }
            }
            lemma_list_in_scope(
                functions,
                bindings,
                item.emitted,
                items,
                done + 1,
                next,
                parameters,
            );
        } else {
            lemma_lowering_in_scope(functions, bindings, emitted, items[done], parameters);
        }
    }
}

/// Lowering the statements of a body keeps a block closed, and the value of
/// the last statement exists behind its instructions.
pub proof fn lemma_statements_in_scope(
    functions: Seq<BackendFunctionView>,
    bindings: Map<Seq<char>, Value>,
    emitted: Seq<InstructionView>,
    statements: Seq<ExpressionView>,
    done: int,
    last: Option<Value>,
    parameters: int,
)
    requires
        0 <= done <= statements.len(),
        functions.len() <= usize::MAX,
        instructions_in_scope(emitted, arities_of(functions), parameters),
        bindings_in_scope(bindings, parameters),
        last matches Some(value) ==> in_scope(value, parameters, emitted.len() as int),
        lower_statements(functions, bindings, emitted, statements, done, last).emitted.len()
            <= usize::MAX,
    ensures
        extends(
            lower_statements(functions, bindings, emitted, statements, done, last).emitted,
            emitted,
        ),
        instructions_in_scope(
            lower_statements(functions, bindings, emitted, statements, done, last).emitted,
            arities_of(functions),
            parameters,
        ),
        lower_statements(functions, bindings, emitted, statements, done, last).outcome matches Ok(
            Some(value),
        ) ==> in_scope(
            value,
            parameters,
            lower_statements(functions, bindings, emitted, statements, done, last).emitted.len() as int,
        ),
    decreases statements.len() - done,
{
    assert(emitted.take(emitted.len() as int) =~= emitted);
    if done < statements.len() {
        let statement = lower_expression(functions, bindings, emitted, statements[done]);
        lemma_lowering_appends(functions, bindings, emitted, statements[done]);
        if statement.outcome is Ok {
            // what follows only appends, so the statement fits as well
            lemma_statements_appends(
                functions,
                bindings,
                statement.emitted,
                statements,
                done + 1,
                Some(statement.outcome->Ok_0),
            );
            lemma_lowering_in_scope(functions, bindings, emitted, statements[done], parameters);
            lemma_statements_in_scope(
                functions,
                bindings,
                statement.emitted,
                statements,
                done + 1,
                Some(statement.outcome->Ok_0),
                parameters,
            );
            lemma_extends_transitive(
                lower_statements(functions, bindings, emitted, statements, done, last).emitted,
                statement.emitted,
                emitted,
            );
        } else {
            lemma_lowering_in_scope(functions, bindings, emitted, statements[done], parameters);
        }
    }
}

/// Lowering the statements of a body appends to the instructions.
pub proof fn lemma_statements_appends(
    functions: Seq<BackendFunctionView>,
    bindings: Map<Seq<char>, Value>,
    emitted: Seq<InstructionView>,
    statements: Seq<ExpressionView>,
    done: int,
    last: Option<Value>,
)
    requires
        0 <= done <= statements.len(),
    ensures
        extends(
            lower_statements(functions, bindings, emitted, statements, done, last).emitted,
            emitted,
        ),
    decreases statements.len() - done,
{
    assert(emitted.take(emitted.len() as int) =~= emitted);
    if done < statements.len() {
        let statement = lower_expression(functions, bindings, emitted, statements[done]);
        lemma_lowering_appends(functions, bindings, emitted, statements[done]);
        if statement.outcome is Ok {
            lemma_statements_appends(
                functions,
                bindings,
                statement.emitted,
                statements,
                done + 1,
                Some(statement.outcome->Ok_0),
            );
            lemma_extends_transitive(
                lower_statements(functions, bindings, emitted, statements, done, last).emitted,
                statement.emitted,
                emitted,
            );
        }
    }
}

/// A block lowered with bindings that exist is closed.
pub proof fn lemma_block_in_scope(
    functions: Seq<BackendFunctionView>,
    bindings: Map<Seq<char>, Value>,
    block: BlockView,
    parameters: int,
)
    requires
        functions.len() <= usize::MAX,
        bindings_in_scope(bindings, parameters),
        lowered_block(functions, bindings, block) matches Ok(lowered)
            && lowered.instructions.len() <= usize::MAX,
    ensures
        block_in_scope(
            lowered_block(functions, bindings, block)->Ok_0,
            arities_of(functions),
            parameters,
        ),
{
    lemma_statements_in_scope(
        functions,
        bindings,
        Seq::empty(),
        block.expressions,
        0,
        None,
        parameters,
    );
}

/// Every parameter of a function has a type of its own.
pub proof fn lemma_parameter_types_len(arguments: Seq<ArgumentView>, done: int, types: Seq<BackendType>)
    requires
        0 <= done <= arguments.len(),
    ensures
        parameter_types(arguments, done, types) matches Ok(all) ==> all.len() == types.len()
            + arguments.len() - done,
    decreases arguments.len() - done,
{
    if done < arguments.len() {
        match lowered_type(arguments[done].input_type) {
            Ok(lowered) => {
                lemma_parameter_types_len(arguments, done + 1, types.push(lowered));
            },
            Err(_) => {},
        }
    }
}

/// The bindings of the parameters are parameters of the function.
pub proof fn lemma_parameter_bindings_in_scope(
    arguments: Seq<ArgumentView>,
    types: Seq<BackendType>,
    count: int,
)
    requires
        0 <= count <= arguments.len() <= usize::MAX,
    ensures
        bindings_in_scope(parameter_bindings(arguments, types, count), arguments.len() as int),
    decreases count,
{
    if count > 0 {
        lemma_parameter_bindings_in_scope(arguments, types, count - 1);
        let before = parameter_bindings(arguments, types, count - 1);
        let after = parameter_bindings(arguments, types, count);
        assert forall|name: Seq<char>| after.contains_key(name) implies in_scope(
            #[trigger] after[name],
            arguments.len() as int,
            0,
        ) by {
            if name != arguments[count - 1].binding_name {
                assert(before.contains_key(name));
                assert(in_scope(before[name], arguments.len() as int, 0));
            }
        }
    }
}

/// Whether the functions of `after` are those of `before` and one more.
proof fn lemma_module_in_scope_push(
    before: Seq<BackendFunctionView>,
    function: BackendFunctionView,
)
    requires
        module_in_scope(before),
        function.body matches Some(block) ==> block_in_scope(
            block,
            arities_of(before.push(function)),
            function.parameter_types.len() as int,
        ),
    ensures
        module_in_scope(before.push(function)),
{
    let after = before.push(function);
    assert forall|i: int| 0 <= i < after.len() && (#[trigger] after[i]).body is Some implies block_in_scope(
        after[i].body->Some_0,
        arities_of(after.take(i + 1)),
        after[i].parameter_types.len() as int,
    ) by {
        if i < before.len() {
            assert(after[i] == before[i]);
            assert(after.take(i + 1) =~= before.take(i + 1));
        } else {
            assert(after.take(i + 1) =~= after);
        }
    }
}

/// Lowering a local function keeps a module closed.
pub proof fn lemma_local_in_scope(functions: Seq<BackendFunctionView>, function: FunctionView)
    requires
        module_in_scope(functions),
        function.arguments.len() <= usize::MAX,
        lowered_local(functions, function) matches Ok(after) && after.len() <= usize::MAX
            && after.last().body->Some_0.instructions.len() <= usize::MAX,
    ensures
        module_in_scope(lowered_local(functions, function)->Ok_0),
{
    let declared = local_declaration(function)->Ok_0;
    let bindings = parameter_bindings(
        function.arguments,
        declared.parameter_types,
        function.arguments.len() as int,
    );
    let block = lowered_block(functions.push(declared), bindings, function.body)->Ok_0;
    let after = lowered_local(functions, function)->Ok_0;
    lemma_parameter_types_len(function.arguments, 0, Seq::empty());
    lemma_parameter_bindings_in_scope(
        function.arguments,
        declared.parameter_types,
        function.arguments.len() as int,
    );
    assert(after.last().body == Some(block));
    lemma_block_in_scope(
        functions.push(declared),
        bindings,
        function.body,
        function.arguments.len() as int,
    );
    assert(arities_of(functions.push(declared)) =~= arities_of(after));
    lemma_module_in_scope_push(functions, after.last());
    assert(after =~= functions.push(after.last()));
}

/// Declaring an external function keeps a module closed.
pub proof fn lemma_extern_in_scope(functions: Seq<BackendFunctionView>, function: ExternFunctionView)
    requires
        module_in_scope(functions),
        lowered_extern(functions, function) is Ok,
    ensures
        module_in_scope(lowered_extern(functions, function)->Ok_0),
{
    let after = lowered_extern(functions, function)->Ok_0;
    lemma_module_in_scope_push(functions, after.last());
    assert(after =~= functions.push(after.last()));
}

/// The linkage that the function of an entry has.
pub open spec fn linkage_of(entry: ModuleFunctionView) -> Linkage {
    match entry {
        ModuleFunctionView::Local(_) => Linkage::Local,
        ModuleFunctionView::External(_) => Linkage::External,
    }
}

/// Lowering the entries of a module declares one function for each entry,
/// in the order of the entries, behind the functions declared before: each
/// has the name of its entry, a body if the entry is local, and none if it
/// is external.
pub proof fn lemma_one_function_per_entry(
    entries: Seq<ModuleFunctionView>,
    done: int,
    functions: Seq<BackendFunctionView>,
)
    requires
        0 <= done <= entries.len(),
        lowered_entries(entries, done, functions) is Ok,
    ensures
        ({
            let after = lowered_entries(entries, done, functions)->Ok_0;
            &&& after.len() == functions.len() + entries.len() - done
            &&& after.take(functions.len() as int) == functions
            &&& forall|k: int|
                #![trigger entries[k]]
                done <= k < entries.len() ==> {
                    let function = after[functions.len() + k - done];
                    &&& function.name == entries[k].name()
                    &&& function.linkage == linkage_of(entries[k])
                    &&& function.body is Some <==> entries[k] is Local
                }
        }),
    decreases entries.len() - done,
{
    let after = lowered_entries(entries, done, functions)->Ok_0;
    if done < entries.len() {
        let declared = lowered_entry(functions, entries[done])->Ok_0;
        lemma_one_function_per_entry(entries, done + 1, declared);
        assert(declared.len() == functions.len() + 1);
        assert(declared.take(functions.len() as int) =~= functions);
        assert(after.take(functions.len() as int) =~= after.take(declared.len() as int).take(
            functions.len() as int,
        ));
        assert(after[functions.len() as int] == after.take(declared.len() as int)[functions.len() as int]);
    } else {
        assert(after.take(functions.len() as int) =~= functions);
    }
}

/// The type of the result of an instruction: that of an arithmetic
/// instruction is the type of its left operand, that of a call the return
/// type of the callee, that of an array the list of its element type and
/// the number of its items.
pub open spec fn result_type(instruction: InstructionView, functions: Seq<BackendFunctionView>) -> BackendType {
    match instruction {
        InstructionView::Add(left, _) => left.value_type(),
        InstructionView::Sub(left, _) => left.value_type(),
        InstructionView::Mul(left, _) => left.value_type(),
        InstructionView::Call(callee, _) => functions[callee as int].return_type,
        InstructionView::Array(element, items) => BackendType::Array(
            Box::new(element),
            items.len() as u32,
        ),
    }
}

/// Whether a handle carries the type of what it names: a parameter that of
/// the parameter, a result that of the instruction.
pub open spec fn well_typed(
    value: Value,
    functions: Seq<BackendFunctionView>,
    parameter_types: Seq<BackendType>,
    emitted: Seq<InstructionView>,
) -> bool {
    match value {
        Value::Constant(_, _) => true,
        Value::Parameter(index, value_type) => index < parameter_types.len() ==> value_type
            == parameter_types[index as int],
        Value::Instruction(index, value_type) => index < emitted.len() ==> value_type
            == result_type(emitted[index as int], functions),
    }
}

/// The handle that lowering returns carries the type of what it names,
/// where the bindings do.
pub proof fn lemma_lowering_well_typed(
    functions: Seq<BackendFunctionView>,
    bindings: Map<Seq<char>, Value>,
    emitted: Seq<InstructionView>,
    expression: ExpressionView,
    parameter_types: Seq<BackendType>,
)
    requires
        functions.len() <= usize::MAX,
        forall|name: Seq<char>|
            bindings.contains_key(name) ==> well_typed(
                #[trigger] bindings[name],
                functions,
                parameter_types,
                emitted,
            ),
        lower_expression(functions, bindings, emitted, expression).outcome is Ok,
        lower_expression(functions, bindings, emitted, expression).emitted.len() <= usize::MAX,
    ensures
        well_typed(
            lower_expression(functions, bindings, emitted, expression).outcome->Ok_0,
            functions,
            parameter_types,
            lower_expression(functions, bindings, emitted, expression).emitted,
        ),
{
    match expression {
        ExpressionView::Variable(variable) => {
            assert(well_typed(bindings[variable.binding], functions, parameter_types, emitted));
        },
        ExpressionView::Call(call) => {
            super::backend::lemma_function_from(functions, call.function_name, 0);
        },
        _ => {},
    }
}

/// The bindings of the parameters carry the types of the parameters.
pub proof fn lemma_parameter_bindings_well_typed(
    arguments: Seq<ArgumentView>,
    types: Seq<BackendType>,
    count: int,
    functions: Seq<BackendFunctionView>,
)
    requires
        0 <= count <= arguments.len() <= usize::MAX,
    ensures
        forall|name: Seq<char>|
            parameter_bindings(arguments, types, count).contains_key(name) ==> well_typed(
                #[trigger] parameter_bindings(arguments, types, count)[name],
                functions,
                types,
                Seq::empty(),
            ),
    decreases count,
{
    if count > 0 {
        lemma_parameter_bindings_well_typed(arguments, types, count - 1, functions);
        let before = parameter_bindings(arguments, types, count - 1);
        let after = parameter_bindings(arguments, types, count);
        assert forall|name: Seq<char>| after.contains_key(name) implies well_typed(
            #[trigger] after[name],
            functions,
            types,
            Seq::empty(),
        ) by {
            if name != arguments[count - 1].binding_name {
                assert(before.contains_key(name));
                assert(well_typed(before[name], functions, types, Seq::empty()));
            }
        }
    }
}

} // verus!
