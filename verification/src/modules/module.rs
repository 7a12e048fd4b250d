use super::function::{declaration, ModuleFunction, ModuleFunctionView};
use crate::parser::expression::{expression_views, ExpressionView};
use crate::parser::module::AstModule;
use vstd::prelude::*;

verus! {

/// Model of a [`Module`].
pub struct ModuleView {
    pub functions: Seq<ModuleFunctionView>,
    pub name: Seq<char>,
}

/// The functions of one compilation unit, each under its name. They are
/// held in the order in which their names were first declared, which is the
/// order in which lowering declares them: a function can be called from its
/// own declaration on. No two entries of a module built by
/// [`Module::from_ast_module`] share a name.
#[derive(Debug, PartialEq, Eq)]
pub struct Module {
    pub functions: Vec<ModuleFunction>,
    pub name: String,
}

/// Why a list of top-level expressions makes no module.
#[derive(Clone, Copy, Debug, PartialEq, Eq, Structural)]
pub enum ModuleError {
    /// The expression at this index is neither a function nor the
    /// declaration of an external function.
    InvalidTopLevelExpression(usize),
}

/// The models of a sequence of module entries, in order.
pub open spec fn function_views(functions: Seq<ModuleFunction>) -> Seq<ModuleFunctionView> {
    functions.map_values(|function: ModuleFunction| function@)
}

impl View for Module {
    type V = ModuleView;

    open spec fn view(&self) -> ModuleView {
        ModuleView { functions: function_views(self.functions@), name: self.name@ }
    }
}

/// The index of the first entry from `start` on that is declared under
/// `name`, or the number of entries where there is none.
pub open spec fn find_from(table: Seq<ModuleFunctionView>, name: Seq<char>, start: int) -> int
    decreases table.len() - start,
{
    if 0 <= start < table.len() && table[start].name() != name {
        find_from(table, name, start + 1)
    } else {
        start
    }
}

/// The index of the entry declared under `name`, if there is one.
pub open spec fn find(table: Seq<ModuleFunctionView>, name: Seq<char>) -> Option<int> {
    let index = find_from(table, name, 0);
    if index < table.len() {
        Some(index)
    } else {
        None
    }
}

/// The table with `function` entered: in the place of the entry of the same
/// name where there is one, at the end where there is none.
pub open spec fn declare(table: Seq<ModuleFunctionView>, function: ModuleFunctionView) -> Seq<
    ModuleFunctionView,
> {
    match find(table, function.name()) {
        Some(index) => table.update(index, function),
        None => table.push(function),
    }
}

/// The table that the first `count` top-level expressions make, entered one
/// after the other, or the first of them that is no declaration.
pub open spec fn table_of(declarations: Seq<ExpressionView>, count: int) -> Result<
    Seq<ModuleFunctionView>,
    ModuleError,
>
    decreases count,
{
    if count <= 0 {
        Ok(Seq::empty())
    } else {
        match table_of(declarations, count - 1) {
            Err(error) => Err(error),
            Ok(table) => match declaration(declarations[count - 1]) {
                Some(function) => Ok(declare(table, function)),
                None => Err(ModuleError::InvalidTopLevelExpression((count - 1) as usize)),
            },
        }
    }
}

/// Whether no two entries of the table share a name.
pub open spec fn distinct_names(table: Seq<ModuleFunctionView>) -> bool {
    forall|i: int, j: int|
        0 <= i < j < table.len() ==> (#[trigger] table[i]).name() != (#[trigger] table[j]).name()
}

/// The first entry of a name stands where no entry before it has that name.
pub proof fn lemma_find_from(table: Seq<ModuleFunctionView>, name: Seq<char>, start: int)
    requires
        0 <= start <= table.len(),
    ensures
        start <= find_from(table, name, start) <= table.len(),
        forall|k: int| start <= k < find_from(table, name, start) ==> table[k].name() != name,
        find_from(table, name, start) < table.len() ==> table[find_from(table, name, start)].name()
            == name,
    decreases table.len() - start,
{
    if start < table.len() && table[start].name() != name {
        lemma_find_from(table, name, start + 1);
    }
}

/// Where the entries before `index` have other names and the entry at
/// `index` has the name, `index` is where the name is found.
pub proof fn lemma_find_is(table: Seq<ModuleFunctionView>, name: Seq<char>, start: int, index: int)
    requires
        0 <= start <= index <= table.len(),
        forall|k: int| start <= k < index ==> table[k].name() != name,
        index < table.len() ==> table[index].name() == name,
    ensures
        find_from(table, name, start) == index,
    decreases index - start,
{
    if start < index {
        lemma_find_is(table, name, start + 1, index);
    }
}

/// Entering a function keeps the names of a table distinct, leaves the
/// other entries as they were, and makes the function the entry of its name.
pub proof fn lemma_declare(table: Seq<ModuleFunctionView>, function: ModuleFunctionView)
    requires
        distinct_names(table),
    ensures
        distinct_names(declare(table, function)),
        find(declare(table, function), function.name()) is Some,
        declare(table, function)[find(declare(table, function), function.name())->Some_0]
            == function,
        forall|name: Seq<char>|
            name != function.name() ==> find(declare(table, function), name) == find(table, name),
        forall|name: Seq<char>|
            name != function.name() && find(table, name) is Some ==> declare(
                table,
                function,
            )[find(table, name)->Some_0] == table[find(table, name)->Some_0],
{
    let after = declare(table, function);
    let index = find_from(table, function.name(), 0);
    lemma_find_from(table, function.name(), 0);
    assert(index < table.len() ==> after == table.update(index, function));
    assert(index >= table.len() ==> after == table.push(function));
    assert forall|i: int, j: int| 0 <= i < j < after.len() implies (#[trigger] after[i]).name() != (
    #[trigger] after[j]).name() by {
        if index < table.len() {
            assert(table[i].name() != table[j].name());
            if i == index {
                assert(table[index].name() == function.name());
            }
            if j == index {
                assert(table[index].name() == function.name());
            }
        } else {
            if j < table.len() {
                assert(table[i].name() != table[j].name());
            }
        }
    }
    lemma_find_is(after, function.name(), 0, if index < table.len() { index } else { table.len() as int });
    assert forall|name: Seq<char>| name != function.name() implies find(after, name) == find(
        table,
        name,
    ) by {
        lemma_find_from(table, name, 0);
        let k = find_from(table, name, 0);
        if k < table.len() {
            lemma_find_is(after, name, 0, k);
        } else {
            lemma_find_is(after, name, 0, after.len() as int);
        }
    }
    assert forall|name: Seq<char>|
        name != function.name() && find(table, name) is Some implies after[find(
        table,
        name,
    )->Some_0] == table[find(table, name)->Some_0] by {
        lemma_find_from(table, name, 0);
    }
}

/// A later declaration replaces an earlier one of the same name: in the
/// table of a list of declarations no two entries share a name, every entry
/// is one of the declarations, and each declaration that no later one shares
/// its name with is the entry of its name.
pub proof fn lemma_later_declaration_wins(declarations: Seq<ExpressionView>, count: int)
    requires
        0 <= count <= declarations.len(),
        table_of(declarations, count) is Ok,
    ensures
        distinct_names(table_of(declarations, count)->Ok_0),
        forall|i: int|
            0 <= i < table_of(declarations, count)->Ok_0.len() ==> exists|k: int|
                0 <= k < count && declaration(declarations[k]) == Some(
                    #[trigger] table_of(declarations, count)->Ok_0[i],
                ),
        forall|k: int|
            #![trigger declarations[k]]
            0 <= k < count && (forall|later: int|
                k < later < count ==> declaration(declarations[later])->Some_0.name()
                    != declaration(declarations[k])->Some_0.name()) ==> {
                let function = declaration(declarations[k])->Some_0;
                let table = table_of(declarations, count)->Ok_0;
                &&& declaration(declarations[k]) is Some
                &&& find(table, function.name()) is Some
                &&& table[find(table, function.name())->Some_0] == function
            },
    decreases count,
{
    if count > 0 {
        lemma_later_declaration_wins(declarations, count - 1);
        let before = table_of(declarations, count - 1)->Ok_0;
        let last = declaration(declarations[count - 1])->Some_0;
        let table = table_of(declarations, count)->Ok_0;
        assert(table == declare(before, last));
        lemma_declare(before, last);
        lemma_find_from(before, last.name(), 0);
        assert forall|i: int| 0 <= i < table.len() implies exists|k: int|
            0 <= k < count && declaration(declarations[k]) == Some(#[trigger] table[i]) by {
            if table[i] == last {
                assert(declaration(declarations[count - 1]) == Some(table[i]));
            } else {
                assert(table[i] == before[i]);
                let k = choose|k: int|
                    0 <= k < count - 1 && declaration(declarations[k]) == Some(before[i]);
                assert(declaration(declarations[k]) == Some(table[i]));
            }
        }
        assert forall|k: int|
            #![trigger declarations[k]]
            0 <= k < count && (forall|later: int|
                k < later < count ==> declaration(declarations[later])->Some_0.name()
                    != declaration(declarations[k])->Some_0.name()) implies {
            let function = declaration(declarations[k])->Some_0;
            &&& declaration(declarations[k]) is Some
            &&& find(table, function.name()) is Some
            &&& table[find(table, function.name())->Some_0] == function
        } by {
            if k < count - 1 {
                lemma_table_of_declarations(declarations, count - 1, k);
                let function = declaration(declarations[k])->Some_0;
                assert(function.name() != last.name());
                assert(find(before, function.name()) is Some);
            }
        }
    }
}

/// Where a list of expressions makes a table, each of them is a
/// declaration.
pub proof fn lemma_table_of_declarations(declarations: Seq<ExpressionView>, count: int, k: int)
    requires
        0 <= k < count,
        table_of(declarations, count) is Ok,
    ensures
        declaration(declarations[k]) is Some,
        table_of(declarations, k + 1) is Ok,
    decreases count,
{
    if k < count - 1 {
        lemma_table_of_declarations(declarations, count - 1, k);
    }
}

/// An error in the first expressions of a list is the error of the whole
/// list.
pub proof fn lemma_table_error_stays(declarations: Seq<ExpressionView>, first: int, count: int)
    requires
        first <= count,
        table_of(declarations, first) is Err,
    ensures
        table_of(declarations, count) == table_of(declarations, first),
    decreases count - first,
{
    if first < count {
        lemma_table_error_stays(declarations, first, count - 1);
    }
}

/// The models of the entries after one more entry was appended.
proof fn lemma_function_views_push(functions: Seq<ModuleFunction>, function: ModuleFunction)
    ensures
        function_views(functions.push(function)) == function_views(functions).push(function@),
{
    assert(function_views(functions.push(function)) =~= function_views(functions).push(
        function@,
    ));
}

impl Module {
    /// The index of the entry declared under `name`, if there is one.
    pub fn position(&self, name: &String) -> (index: Option<usize>)
        ensures
            match index {
                Some(found) => find(self@.functions, name@) == Some(found as int),
                None => find(self@.functions, name@) is None,
            },
    {
        let mut i: usize = 0;
        while i < self.functions.len()
            invariant
                i <= self.functions.len(),
                find_from(self@.functions, name@, 0) == find_from(self@.functions, name@, i as int),
            decreases self.functions.len() - i,
        {
            if *self.functions[i].name() == *name {
                return Some(i);
            }
            i = i + 1;
        }
        None
    }

    /// Builds the module of a list of top-level declarations, entered one
    /// after the other under their names: a declaration takes the place of
    /// an earlier one of the same name. An expression that is no declaration
    /// is an error.
    pub fn from_ast_module(module: AstModule) -> (built: Result<Module, ModuleError>)
        ensures
            match table_of(module@.expressions, module@.expressions.len() as int) {
                Ok(table) => built matches Ok(m) && m@ == (ModuleView {
                    functions: table,
                    name: module@.name,
                }),
                Err(error) => built == Err::<Module, ModuleError>(error),
            },
            built matches Ok(m) ==> distinct_names(m@.functions),
    {
        let ghost declarations = module@.expressions;
        let mut result = Module { functions: Vec::new(), name: module.name.clone() };
        proof {
            assert(function_views(result.functions@) =~= Seq::<ModuleFunctionView>::empty());
        }
        let mut i: usize = 0;
        while i < module.expressions.len()
            invariant
                i <= module.expressions.len(),
                declarations == expression_views(module.expressions@),
                result.name@ == module@.name,
                table_of(declarations, i as int) == Ok::<Seq<ModuleFunctionView>, ModuleError>(
                    result@.functions,
                ),
            decreases module.expressions.len() - i,
        {
            let ghost table = result@.functions;
            match ModuleFunction::from(&module.expressions[i]) {
                Some(function) => {
                    let ghost entered = function@;
                    match result.position(function.name()) {
                        Some(index) => {
                            result.functions[index] = function;
                            assert(result@.functions =~= table.update(index as int, entered));
                        },
                        None => {
                            proof {
                                lemma_function_views_push(result.functions@, function);
                            }
                            result.functions.push(function);
                        },
                    }
                },
                None => {
                    proof {
                        lemma_table_error_stays(
                            declarations,
                            i + 1,
                            module.expressions.len() as int,
                        );
                    }
                    return Err(ModuleError::InvalidTopLevelExpression(i));
                },
            }
            i = i + 1;
        }
        proof {
            lemma_later_declaration_wins(declarations, declarations.len() as int);
        }
        Ok(result)
    }
}

} // verus!
