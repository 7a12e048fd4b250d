//! What an expression means and what a block of instructions does, and that
//! lowering keeps the meaning: running the instructions that an expression
//! is lowered to gives the value of the expression and makes the same calls
//! in the same order.

use super::backend::{
    named_function, BackendBlockView, BackendFunctionView, InstructionView, Terminator, Value,
};
use super::lowering::{
    arithmetic, local_declaration, lower_expression, lower_list, lower_statements, lowered_block,
    lowered_local, parameter_bindings, saturated,
};
use super::scope::{
    all_in_scope, arities_of, bindings_in_scope, in_scope, instructions_in_scope,
    lemma_list_appends, lemma_list_in_scope, lemma_lowering_appends, lemma_lowering_in_scope,
    lemma_parameter_bindings_in_scope, lemma_statements_appends,
};
use crate::parser::expression::{BlockView, ExpressionView, FunctionView};
use crate::parser::tokenizer::BinaryOperator;
use vstd::prelude::*;

verus! {

/// What a value is at run time: a number or a list.
pub enum Datum {
    Number(int),
    List(Seq<Datum>),
}

/// One call of a function: the handle of the callee and the arguments.
pub struct Event {
    pub callee: int,
    pub arguments: Seq<Datum>,
}

/// What functions answer when called: the result of a call may depend on
/// the calls made before it.
pub type Answers = spec_fn(Seq<Event>, Event) -> Datum;

/// The number `n` as 32 bits hold it.
pub open spec fn wrapped(n: int) -> int {
    n % 0x1_0000_0000
}

/// The result of an arithmetic operation: that of the operation on
/// integers, as 32 bits hold it. Arithmetic on lists has no meaning; it is
/// taken to give 0.
pub open spec fn computed(operator: BinaryOperator, left: Datum, right: Datum) -> Datum {
    match (left, right) {
        (Datum::Number(a), Datum::Number(b)) => Datum::Number(
            wrapped(
                match operator {
                    BinaryOperator::Add => a + b,
                    BinaryOperator::Sub => a - b,
                    BinaryOperator::Mul => a * b,
                },
            ),
        ),
        _ => Datum::Number(0),
    }
}

/// What has come of evaluating an expression: its value, if it has one, and
/// the calls made up to then.
pub struct Evaluated {
    pub value: Option<Datum>,
    pub history: Seq<Event>,
}

/// What has come of evaluating a list of expressions.
pub struct EvaluatedList {
    pub values: Option<Seq<Datum>>,
    pub history: Seq<Event>,
}

/// The meaning of an expression where the variables have the values of
/// `environment` and the calls in `history` were made before.
///
/// A literal is its integer part. A binary expression evaluates its right
/// operand, then its left one. A call evaluates its arguments in order and
/// then calls the function declared under its name; the call is added to the
/// history. A list literal evaluates its items in order. An unbound
/// variable, a function that is not declared, and a declaration have no
/// value.
pub open spec fn evaluate(
    functions: Seq<BackendFunctionView>,
    environment: Map<Seq<char>, Datum>,
    answers: Answers,
    history: Seq<Event>,
    expression: ExpressionView,
) -> Evaluated
    decreases expression, 0int,
{
    match expression {
        ExpressionView::NumberLiteral(literal) => Evaluated {
            value: Some(Datum::Number(saturated(literal.number.integer_part()) as int)),
            history,
        },
        ExpressionView::Variable(variable) => Evaluated {
            value: if environment.contains_key(variable.binding) {
                Some(environment[variable.binding])
            } else {
                None
            },
            history,
        },
        ExpressionView::Binary(binary) => {
            let right = evaluate(functions, environment, answers, history, *binary.right);
            match right.value {
                None => right,
                Some(right_value) => {
                    let left = evaluate(
                        functions,
                        environment,
                        answers,
                        right.history,
                        *binary.left,
                    );
                    match left.value {
                        None => left,
                        Some(left_value) => Evaluated {
                            value: Some(computed(binary.operator, left_value, right_value)),
                            history: left.history,
                        },
                    }
                },
            }
        },
        ExpressionView::Call(call) => match named_function(functions, call.function_name) {
            None => Evaluated { value: None, history },
            Some(callee) => {
                let args = evaluate_list(
                    functions,
                    environment,
                    answers,
                    history,
                    call.args,
                    0,
                    Seq::empty(),
                );
                match args.values {
                    None => Evaluated { value: None, history: args.history },
                    Some(arguments) => {
                        let event = Event { callee, arguments };
                        Evaluated {
                            value: Some(answers(args.history, event)),
                            history: args.history.push(event),
                        }
                    },
                }
            },
        },
        ExpressionView::Array(array) => {
            let items = evaluate_list(
                functions,
                environment,
                answers,
                history,
                array.items,
                0,
                Seq::empty(),
            );
            match items.values {
                None => Evaluated { value: None, history: items.history },
                Some(values) => Evaluated {
                    value: Some(Datum::List(values)),
                    history: items.history,
                },
            }
        },
        _ => Evaluated { value: None, history },
    }
}

/// The meaning of the expressions of `items` from index `done` on, in
/// order; `values` are the values of those before.
pub open spec fn evaluate_list(
    functions: Seq<BackendFunctionView>,
    environment: Map<Seq<char>, Datum>,
    answers: Answers,
    history: Seq<Event>,
    items: Seq<ExpressionView>,
    done: int,
    values: Seq<Datum>,
) -> EvaluatedList
    decreases items, items.len() - done,
{
    if 0 <= done < items.len() {
        let item = evaluate(functions, environment, answers, history, items[done]);
        match item.value {
            None => EvaluatedList { values: None, history: item.history },
            Some(value) => evaluate_list(
                functions,
                environment,
                answers,
                item.history,
                items,
                done + 1,
                values.push(value),
            ),
        }
    } else {
        EvaluatedList { values: Some(values), history }
    }
}

/// The state of a function that is running a block: the results of the
/// instructions run so far, and the calls made.
pub struct Machine {
    pub results: Seq<Datum>,
    pub history: Seq<Event>,
}

/// The value that a handle names.
pub open spec fn value_of(value: Value, parameters: Seq<Datum>, results: Seq<Datum>) -> Datum {
    match value {
        Value::Constant(_, number) => Datum::Number(number as int),
        Value::Parameter(index, _) => parameters[index as int],
        Value::Instruction(index, _) => results[index as int],
    }
}

/// The values that a sequence of handles names.
pub open spec fn values_of(values: Seq<Value>, parameters: Seq<Datum>, results: Seq<Datum>) -> Seq<
    Datum,
> {
    values.map_values(|value: Value| value_of(value, parameters, results))
}

/// The state after one instruction: its result is added to the results,
/// and a call is added to the history.
pub open spec fn executed(
    instruction: InstructionView,
    parameters: Seq<Datum>,
    answers: Answers,
    machine: Machine,
) -> Machine {
    match instruction {
        InstructionView::Add(left, right) => Machine {
            results: machine.results.push(
                computed(
                    BinaryOperator::Add,
                    value_of(left, parameters, machine.results),
                    value_of(right, parameters, machine.results),
                ),
            ),
            history: machine.history,
        },
        InstructionView::Sub(left, right) => Machine {
            results: machine.results.push(
                computed(
                    BinaryOperator::Sub,
                    value_of(left, parameters, machine.results),
                    value_of(right, parameters, machine.results),
                ),
            ),
            history: machine.history,
        },
        InstructionView::Mul(left, right) => Machine {
            results: machine.results.push(
                computed(
                    BinaryOperator::Mul,
                    value_of(left, parameters, machine.results),
                    value_of(right, parameters, machine.results),
                ),
            ),
            history: machine.history,
        },
        InstructionView::Call(callee, arguments) => {
            let event = Event {
                callee: callee as int,
                arguments: values_of(arguments, parameters, machine.results),
            };
            Machine {
                results: machine.results.push(answers(machine.history, event)),
                history: machine.history.push(event),
            }
        },
        InstructionView::Array(_, items) => Machine {
            results: machine.results.push(
                Datum::List(values_of(items, parameters, machine.results)),
            ),
            history: machine.history,
        },
    }
}

/// The state after the instructions from index `from` up to index `to`
/// were run, one after the other.
pub open spec fn run(
    instructions: Seq<InstructionView>,
    from: int,
    to: int,
    parameters: Seq<Datum>,
    answers: Answers,
    machine: Machine,
) -> Machine
    decreases to - from,
{
    if from < to {
        executed(
            instructions[to - 1],
            parameters,
            answers,
            run(instructions, from, to - 1, parameters, answers, machine),
        )
    } else {
        machine
    }
}

/// The values of the variables where the bindings name parameters and
/// constants.
pub open spec fn environment_of(bindings: Map<Seq<char>, Value>, parameters: Seq<Datum>) -> Map<
    Seq<char>,
    Datum,
> {
    Map::new(
        |name: Seq<char>| bindings.contains_key(name),
        |name: Seq<char>| value_of(bindings[name], parameters, Seq::empty()),
    )
}

/// Running instructions adds one result for each, and keeps the results
/// that were there.
pub proof fn lemma_run_results(
    instructions: Seq<InstructionView>,
    from: int,
    to: int,
    parameters: Seq<Datum>,
    answers: Answers,
    machine: Machine,
)
    requires
        from <= to,
    ensures
        run(instructions, from, to, parameters, answers, machine).results.len()
            == machine.results.len() + to - from,
        run(instructions, from, to, parameters, answers, machine).results.take(
            machine.results.len() as int,
        ) == machine.results,
    decreases to - from,
{
    if from < to {
        lemma_run_results(instructions, from, to - 1, parameters, answers, machine);
        let before = run(instructions, from, to - 1, parameters, answers, machine);
        let after = run(instructions, from, to, parameters, answers, machine);
        assert(after.results.drop_last() =~= before.results);
        assert(after.results.take(machine.results.len() as int) =~= before.results.take(
            machine.results.len() as int,
        ));
    } else {
        assert(machine.results.take(machine.results.len() as int) =~= machine.results);
    }
}

/// Running a part of a block does not depend on what stands behind it.
pub proof fn lemma_run_prefix(
    longer: Seq<InstructionView>,
    shorter: Seq<InstructionView>,
    from: int,
    to: int,
    parameters: Seq<Datum>,
    answers: Answers,
    machine: Machine,
)
    requires
        0 <= from,
        to <= shorter.len() <= longer.len(),
        longer.take(shorter.len() as int) == shorter,
    ensures
        run(longer, from, to, parameters, answers, machine) == run(
            shorter,
            from,
            to,
            parameters,
            answers,
            machine,
        ),
    decreases to - from,
{
    if from < to {
        lemma_run_prefix(longer, shorter, from, to - 1, parameters, answers, machine);
        assert(longer[to - 1] == longer.take(shorter.len() as int)[to - 1]);
    }
}

/// Running a block is running its first part and then the rest.
pub proof fn lemma_run_split(
    instructions: Seq<InstructionView>,
    from: int,
    middle: int,
    to: int,
    parameters: Seq<Datum>,
    answers: Answers,
    machine: Machine,
)
    requires
        from <= middle <= to,
    ensures
        run(instructions, from, to, parameters, answers, machine) == run(
            instructions,
            middle,
            to,
            parameters,
            answers,
            run(instructions, from, middle, parameters, answers, machine),
        ),
    decreases to - middle,
{
    if middle < to {
        lemma_run_split(instructions, from, middle, to - 1, parameters, answers, machine);
    }
}

/// A value that exists keeps its value as results are added.
pub proof fn lemma_value_stable(
    value: Value,
    parameters: Seq<Datum>,
    results: Seq<Datum>,
    later: Seq<Datum>,
)
    requires
        in_scope(value, parameters.len() as int, results.len() as int),
        results.len() <= later.len(),
        later.take(results.len() as int) == results,
    ensures
        value_of(value, parameters, later) == value_of(value, parameters, results),
{
    match value {
        Value::Instruction(index, _) => {
            assert(later.take(results.len() as int)[index as int] == later[index as int]);
        },
        _ => {},
    }
}

/// Values that exist keep their values as results are added.
pub proof fn lemma_values_stable(
    values: Seq<Value>,
    parameters: Seq<Datum>,
    results: Seq<Datum>,
    later: Seq<Datum>,
)
    requires
        all_in_scope(values, parameters.len() as int, results.len() as int),
        results.len() <= later.len(),
        later.take(results.len() as int) == results,
    ensures
        values_of(values, parameters, later) == values_of(values, parameters, results),
{
    assert forall|k: int| 0 <= k < values.len() implies value_of(values[k], parameters, later)
        == value_of(values[k], parameters, results) by {
        lemma_value_stable(values[k], parameters, results, later);
    }
    assert(values_of(values, parameters, later) =~= values_of(values, parameters, results));
}

/// The state after the instructions that lowering appended behind those in
/// `emitted` were run from the state `machine`.
pub open spec fn state_after(
    after: Seq<InstructionView>,
    emitted: Seq<InstructionView>,
    parameters: Seq<Datum>,
    answers: Answers,
    machine: Machine,
) -> Machine {
    run(after, emitted.len() as int, after.len() as int, parameters, answers, machine)
}

/// Lowering keeps the meaning of an expression. Where an expression is
/// lowered behind the instructions of a block that is closed, running what
/// was appended
/// - gives the value of the expression under the handle that the lowering
///   returned,
/// - makes the calls that evaluating the expression makes, in the same
///   order,
/// - and leaves the results of the instructions before as they were.
pub proof fn lemma_lowering_keeps_meaning(
    functions: Seq<BackendFunctionView>,
    bindings: Map<Seq<char>, Value>,
    emitted: Seq<InstructionView>,
    expression: ExpressionView,
    parameters: Seq<Datum>,
    answers: Answers,
    machine: Machine,
)
    requires
        functions.len() <= usize::MAX,
        instructions_in_scope(emitted, arities_of(functions), parameters.len() as int),
        bindings_in_scope(bindings, parameters.len() as int),
        lower_expression(functions, bindings, emitted, expression).outcome is Ok,
        lower_expression(functions, bindings, emitted, expression).emitted.len() <= usize::MAX,
        machine.results.len() == emitted.len(),
    ensures
        ({
            let lowered = lower_expression(functions, bindings, emitted, expression);
            let after = state_after(lowered.emitted, emitted, parameters, answers, machine);
            let meant = evaluate(
                functions,
                environment_of(bindings, parameters),
                answers,
                machine.history,
                expression,
            );
            &&& after.results.len() == lowered.emitted.len()
            &&& after.results.take(emitted.len() as int) == machine.results
            &&& meant.value == Some(value_of(lowered.outcome->Ok_0, parameters, after.results))
            &&& meant.history == after.history
        }),
    decreases expression, 0int,
{
    let environment = environment_of(bindings, parameters);
    let lowered = lower_expression(functions, bindings, emitted, expression);
    let after = state_after(lowered.emitted, emitted, parameters, answers, machine);
    let start = emitted.len() as int;
    assert(machine.results.take(start) =~= machine.results);
    match expression {
        ExpressionView::NumberLiteral(literal) => {},
        ExpressionView::Variable(variable) => {
            assert(in_scope(bindings[variable.binding], parameters.len() as int, 0));
        },
        ExpressionView::Binary(binary) => {
            let right = lower_expression(functions, bindings, emitted, *binary.right);
            let left = lower_expression(functions, bindings, right.emitted, *binary.left);
            let instruction = arithmetic(
                binary.operator,
                left.outcome->Ok_0,
                right.outcome->Ok_0,
            );
            let middle = right.emitted.len() as int;
            let end = left.emitted.len() as int;
            lemma_lowering_appends(functions, bindings, emitted, *binary.right);
            lemma_lowering_appends(functions, bindings, right.emitted, *binary.left);
            lemma_lowering_in_scope(
                functions,
                bindings,
                emitted,
                *binary.right,
                parameters.len() as int,
            );
            lemma_lowering_in_scope(
                functions,
                bindings,
                right.emitted,
                *binary.left,
                parameters.len() as int,
            );
            lemma_lowering_keeps_meaning(
                functions,
                bindings,
                emitted,
                *binary.right,
                parameters,
                answers,
                machine,
            );
            let after_right = state_after(right.emitted, emitted, parameters, answers, machine);
            lemma_lowering_keeps_meaning(
                functions,
                bindings,
                right.emitted,
                *binary.left,
                parameters,
                answers,
                after_right,
            );
            let after_left = state_after(
                left.emitted,
                right.emitted,
                parameters,
                answers,
                after_right,
            );
            // the whole run is the run of the right operand, then that of the
            // left one, then the arithmetic instruction
            assert(lowered.emitted.take(end) =~= left.emitted);
            lemma_run_prefix(
                lowered.emitted,
                left.emitted,
                start,
                end,
                parameters,
                answers,
                machine,
            );
            lemma_run_split(left.emitted, start, middle, end, parameters, answers, machine);
            lemma_run_prefix(
                left.emitted,
                right.emitted,
                start,
                middle,
                parameters,
                answers,
                machine,
            );
            assert(run(lowered.emitted, start, end, parameters, answers, machine) == after_left);
            assert(lowered.emitted[end] == instruction);
            assert(after == executed(instruction, parameters, answers, after_left));
            lemma_value_stable(
                right.outcome->Ok_0,
                parameters,
                after_right.results,
                after_left.results,
            );
            assert(after.results.take(end) =~= after_left.results);
            lemma_value_stable(
                right.outcome->Ok_0,
                parameters,
                after_left.results,
                after.results,
            );
            lemma_value_stable(
                left.outcome->Ok_0,
                parameters,
                after_left.results,
                after.results,
            );
            assert(after.results.take(start) =~= after_left.results.take(middle).take(start));
        },
        ExpressionView::Call(call) => {
            let callee = named_function(functions, call.function_name)->Some_0;
            let args = lower_list(functions, bindings, emitted, call.args, 0, Seq::empty());
            let end = args.emitted.len() as int;
            super::backend::lemma_function_from(functions, call.function_name, 0);
            lemma_list_appends(functions, bindings, emitted, call.args, 0, Seq::empty());
            lemma_list_in_scope(
                functions,
                bindings,
                emitted,
                call.args,
                0,
                Seq::empty(),
                parameters.len() as int,
            );
            assert(values_of(Seq::<Value>::empty(), parameters, machine.results) =~= Seq::<
                Datum,
            >::empty());
            lemma_list_keeps_meaning(
                functions,
                bindings,
                emitted,
                call.args,
                0,
                Seq::empty(),
                parameters,
                answers,
                machine,
            );
            let after_args = state_after(args.emitted, emitted, parameters, answers, machine);
            assert(lowered.emitted.take(end) =~= args.emitted);
            lemma_run_prefix(
                lowered.emitted,
                args.emitted,
                start,
                end,
                parameters,
                answers,
                machine,
            );
            assert(after.results.drop_last() =~= after_args.results);
            assert(after.results.take(start) =~= after_args.results.take(start));
        },
        ExpressionView::Array(array) => {
            let items = lower_list(functions, bindings, emitted, array.items, 0, Seq::empty());
            let end = items.emitted.len() as int;
            lemma_list_appends(functions, bindings, emitted, array.items, 0, Seq::empty());
            lemma_list_in_scope(
                functions,
                bindings,
                emitted,
                array.items,
                0,
                Seq::empty(),
                parameters.len() as int,
            );
            assert(values_of(Seq::<Value>::empty(), parameters, machine.results) =~= Seq::<
                Datum,
            >::empty());
            lemma_list_keeps_meaning(
                functions,
                bindings,
                emitted,
                array.items,
                0,
                Seq::empty(),
                parameters,
                answers,
                machine,
            );
            let after_items = state_after(items.emitted, emitted, parameters, answers, machine);
            assert(lowered.emitted.take(end) =~= items.emitted);
            lemma_run_prefix(
                lowered.emitted,
                items.emitted,
                start,
                end,
                parameters,
                answers,
                machine,
            );
            assert(after.results.drop_last() =~= after_items.results);
            assert(after.results.take(start) =~= after_items.results.take(start));
        },
        _ => {},
    }
}

/// Lowering keeps the meaning of a list of expressions: running what was
/// appended gives the values of the expressions, in order, under the
/// handles that the lowering returned, and makes the same calls.
pub proof fn lemma_list_keeps_meaning(
    functions: Seq<BackendFunctionView>,
    bindings: Map<Seq<char>, Value>,
    emitted: Seq<InstructionView>,
    items: Seq<ExpressionView>,
    done: int,
    values: Seq<Value>,
    parameters: Seq<Datum>,
    answers: Answers,
    machine: Machine,
)
    requires
        0 <= done <= items.len(),
        functions.len() <= usize::MAX,
        instructions_in_scope(emitted, arities_of(functions), parameters.len() as int),
        bindings_in_scope(bindings, parameters.len() as int),
        all_in_scope(values, parameters.len() as int, emitted.len() as int),
        lower_list(functions, bindings, emitted, items, done, values).outcome is Ok,
        lower_list(functions, bindings, emitted, items, done, values).emitted.len() <= usize::MAX,
        machine.results.len() == emitted.len(),
    ensures
        ({
            let lowered = lower_list(functions, bindings, emitted, items, done, values);
            let after = state_after(lowered.emitted, emitted, parameters, answers, machine);
            let meant = evaluate_list(
                functions,
                environment_of(bindings, parameters),
                answers,
                machine.history,
                items,
                done,
                values_of(values, parameters, machine.results),
            );
            &&& after.results.len() == lowered.emitted.len()
            &&& after.results.take(emitted.len() as int) == machine.results
            &&& meant.values == Some(values_of(lowered.outcome->Ok_0, parameters, after.results))
            &&& meant.history == after.history
        }),
    decreases items, items.len() - done,
{
    let start = emitted.len() as int;
    assert(machine.results.take(start) =~= machine.results);
    if done < items.len() {
        let item = lower_expression(functions, bindings, emitted, items[done]);
        let next = values.push(item.outcome->Ok_0);
        let lowered = lower_list(functions, bindings, emitted, items, done, values);
        let middle = item.emitted.len() as int;
        let end = lowered.emitted.len() as int;
        lemma_lowering_appends(functions, bindings, emitted, items[done]);
        lemma_list_appends(functions, bindings, item.emitted, items, done + 1, next);
        lemma_lowering_in_scope(functions, bindings, emitted, items[done], parameters.len() as int);
        lemma_lowering_keeps_meaning(
            functions,
            bindings,
            emitted,
            items[done],
            parameters,
            answers,
            machine,
        );
        let after_item = state_after(item.emitted, emitted, parameters, answers, machine);
        assert(all_in_scope(next, parameters.len() as int, middle)) by {
            assert forall|k: int| 0 <= k < next.len() implies in_scope(
                #[trigger] next[k],
                parameters.len() as int,
                middle,
            ) by {
                if k < values.len() {
                    assert(in_scope(values[k], parameters.len() as int, start));
                }
            }
        }
        lemma_values_stable(values, parameters, machine.results, after_item.results);
        assert(values_of(next, parameters, after_item.results) =~= values_of(
            values,
            parameters,
            machine.results,
        ).push(value_of(item.outcome->Ok_0, parameters, after_item.results)));
        lemma_list_keeps_meaning(
            functions,
            bindings,
            item.emitted,
            items,
            done + 1,
            next,
            parameters,
            answers,
            after_item,
        );
        let after = state_after(lowered.emitted, emitted, parameters, answers, machine);
        lemma_run_split(lowered.emitted, start, middle, end, parameters, answers, machine);
        lemma_run_prefix(
            lowered.emitted,
            item.emitted,
            start,
            middle,
            parameters,
            answers,
            machine,
        );
        assert(after.results.take(start) =~= after.results.take(middle).take(start));
    }
}

/// What has come of evaluating a body: whether every statement had a
/// value, the value of the last statement, if there is one, and the calls
/// made.
pub struct EvaluatedBody {
    pub completed: bool,
    pub value: Option<Datum>,
    pub history: Seq<Event>,
}

/// The meaning of the statements from index `done` on, evaluated in order;
/// `last` is the value of the statement before, if there is one.
pub open spec fn evaluate_statements(
    functions: Seq<BackendFunctionView>,
    environment: Map<Seq<char>, Datum>,
    answers: Answers,
    history: Seq<Event>,
    statements: Seq<ExpressionView>,
    done: int,
    last: Option<Datum>,
) -> EvaluatedBody
    decreases statements.len() - done,
{
    if 0 <= done < statements.len() {
        let statement = evaluate(functions, environment, answers, history, statements[done]);
        match statement.value {
            None => EvaluatedBody { completed: false, value: None, history: statement.history },
            Some(value) => evaluate_statements(
                functions,
                environment,
                answers,
                statement.history,
                statements,
                done + 1,
                Some(value),
            ),
        }
    } else {
        EvaluatedBody { completed: true, value: last, history }
    }
}

/// The meaning of a body: its statements are evaluated in order, and its
/// value is that of the last statement.
pub open spec fn evaluate_body(
    functions: Seq<BackendFunctionView>,
    environment: Map<Seq<char>, Datum>,
    answers: Answers,
    history: Seq<Event>,
    body: BlockView,
) -> EvaluatedBody {
    evaluate_statements(functions, environment, answers, history, body.expressions, 0, None)
}

/// What running a block comes to: the value it returns, if it returns one,
/// and the calls made.
pub open spec fn returned(
    block: BackendBlockView,
    parameters: Seq<Datum>,
    answers: Answers,
    history: Seq<Event>,
) -> EvaluatedBody {
    let machine = run(
        block.instructions,
        0,
        block.instructions.len() as int,
        parameters,
        answers,
        Machine { results: Seq::empty(), history },
    );
    EvaluatedBody {
        completed: true,
        value: match block.terminator {
            Terminator::Return(value) => Some(value_of(value, parameters, machine.results)),
            Terminator::ReturnVoid => None,
        },
        history: machine.history,
    }
}

/// Lowering keeps the meaning of the statements of a body.
pub proof fn lemma_statements_keep_meaning(
    functions: Seq<BackendFunctionView>,
    bindings: Map<Seq<char>, Value>,
    emitted: Seq<InstructionView>,
    statements: Seq<ExpressionView>,
    done: int,
    last: Option<Value>,
    parameters: Seq<Datum>,
    answers: Answers,
    machine: Machine,
)
    requires
        0 <= done <= statements.len(),
        functions.len() <= usize::MAX,
        instructions_in_scope(emitted, arities_of(functions), parameters.len() as int),
        bindings_in_scope(bindings, parameters.len() as int),
        last matches Some(value) ==> in_scope(value, parameters.len() as int, emitted.len() as int),
        lower_statements(functions, bindings, emitted, statements, done, last).outcome is Ok,
        lower_statements(functions, bindings, emitted, statements, done, last).emitted.len()
            <= usize::MAX,
        machine.results.len() == emitted.len(),
    ensures
        ({
            let lowered = lower_statements(functions, bindings, emitted, statements, done, last);
            let after = state_after(lowered.emitted, emitted, parameters, answers, machine);
            let meant = evaluate_statements(
                functions,
                environment_of(bindings, parameters),
                answers,
                machine.history,
                statements,
                done,
                match last {
                    Some(value) => Some(value_of(value, parameters, machine.results)),
                    None => None,
                },
            );
            &&& meant.completed
            &&& meant.history == after.history
            &&& meant.value == match lowered.outcome->Ok_0 {
                Some(value) => Some(value_of(value, parameters, after.results)),
                None => None,
            }
        }),
    decreases statements.len() - done,
{
    let start = emitted.len() as int;
    if done < statements.len() {
        let statement = lower_expression(functions, bindings, emitted, statements[done]);
        let lowered = lower_statements(functions, bindings, emitted, statements, done, last);
        let middle = statement.emitted.len() as int;
        let end = lowered.emitted.len() as int;
        lemma_lowering_appends(functions, bindings, emitted, statements[done]);
        lemma_statements_appends(
            functions,
            bindings,
            statement.emitted,
            statements,
            done + 1,
            Some(statement.outcome->Ok_0),
        );
        lemma_lowering_in_scope(
            functions,
            bindings,
            emitted,
            statements[done],
            parameters.len() as int,
        );
        lemma_lowering_keeps_meaning(
            functions,
            bindings,
            emitted,
            statements[done],
            parameters,
            answers,
            machine,
        );
        let after_statement = state_after(statement.emitted, emitted, parameters, answers, machine);
        lemma_statements_keep_meaning(
            functions,
            bindings,
            statement.emitted,
            statements,
            done + 1,
            Some(statement.outcome->Ok_0),
            parameters,
            answers,
            after_statement,
        );
        lemma_run_split(lowered.emitted, start, middle, end, parameters, answers, machine);
        lemma_run_prefix(
            lowered.emitted,
            statement.emitted,
            start,
            middle,
            parameters,
            answers,
            machine,
        );
    }
}

/// Lowering keeps the meaning of a body: the block that a body is lowered
/// to returns the value of the body, and makes the calls that evaluating
/// the body makes, in the same order.
pub proof fn lemma_block_keeps_meaning(
    functions: Seq<BackendFunctionView>,
    bindings: Map<Seq<char>, Value>,
    body: BlockView,
    parameters: Seq<Datum>,
    answers: Answers,
    history: Seq<Event>,
)
    requires
        functions.len() <= usize::MAX,
        bindings_in_scope(bindings, parameters.len() as int),
        lowered_block(functions, bindings, body) matches Ok(block) && block.instructions.len()
            <= usize::MAX,
    ensures
        returned(lowered_block(functions, bindings, body)->Ok_0, parameters, answers, history)
            == evaluate_body(
            functions,
            environment_of(bindings, parameters),
            answers,
            history,
            body,
        ),
{
    lemma_statements_keep_meaning(
        functions,
        bindings,
        Seq::empty(),
        body.expressions,
        0,
        None,
        parameters,
        answers,
        Machine { results: Seq::empty(), history },
    );
}

/// Lowering keeps the meaning of a function: called with one argument for
/// each parameter, the body that the function is lowered to returns the
/// value of the function's body where each parameter name stands for the
/// argument at its index (the last of them, where parameters share a name),
/// and makes the same calls. The body sees the functions declared before
/// and the function itself.
pub proof fn lemma_function_keeps_meaning(
    functions: Seq<BackendFunctionView>,
    function: FunctionView,
    arguments: Seq<Datum>,
    answers: Answers,
    history: Seq<Event>,
)
    requires
        functions.len() < usize::MAX,
        arguments.len() == function.arguments.len() <= usize::MAX,
        lowered_local(functions, function) matches Ok(after)
            && after.last().body->Some_0.instructions.len() <= usize::MAX,
    ensures
        returned(
            lowered_local(functions, function)->Ok_0.last().body->Some_0,
            arguments,
            answers,
            history,
        ) == evaluate_body(
            functions.push(local_declaration(function)->Ok_0),
            environment_of(
                parameter_bindings(
                    function.arguments,
                    local_declaration(function)->Ok_0.parameter_types,
                    function.arguments.len() as int,
                ),
                arguments,
            ),
            answers,
            history,
            function.body,
        ),
{
    lemma_parameter_bindings_in_scope(
        function.arguments,
        local_declaration(function)->Ok_0.parameter_types,
        function.arguments.len() as int,
    );
    lemma_block_keeps_meaning(
        functions.push(local_declaration(function)->Ok_0),
        parameter_bindings(
            function.arguments,
            local_declaration(function)->Ok_0.parameter_types,
            function.arguments.len() as int,
        ),
        function.body,
        arguments,
        answers,
        history,
    );
}

} // verus!
