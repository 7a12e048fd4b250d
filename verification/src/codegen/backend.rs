//! What the lowering engine hands to the code generator: a module of
//! declared functions, each local one with the instructions of its body.
//! Values are named by handles that the code generator resolves.

use vstd::prelude::*;
use vstd::std_specs::cmp::PartialEqSpecImpl;

verus! {

/// A type as the code generator knows it.
#[derive(Debug)]
pub enum BackendType {
    /// A 32 bit integer.
    Int32,
    /// No value.
    Void,
    /// An array of the given element type and length.
    Array(Box<BackendType>, u32),
}

/// Whether a function is defined in the module or elsewhere.
#[derive(Clone, Copy, Debug, PartialEq, Eq, Structural)]
pub enum Linkage {
    Local,
    External,
}

/// A handle of a value inside one function, with the type of the value.
#[derive(Debug, PartialEq, Eq)]
pub enum Value {
    /// An integer constant of the given type.
    Constant(BackendType, u64),
    /// The parameter of the function at the given index.
    Parameter(usize, BackendType),
    /// The result of the instruction at the given index of the block.
    Instruction(usize, BackendType),
}

/// Model of an [`Instruction`].
pub enum InstructionView {
    Add(Value, Value),
    Sub(Value, Value),
    Mul(Value, Value),
    Call(usize, Seq<Value>),
    Array(BackendType, Seq<Value>),
}

/// One instruction of a block. An arithmetic instruction holds its left and
/// its right operand; none checks for overflow.
#[derive(Debug, PartialEq, Eq)]
pub enum Instruction {
    Add(Value, Value),
    Sub(Value, Value),
    Mul(Value, Value),
    /// A call of the function at the given index of the module, with its
    /// arguments in order.
    Call(usize, Vec<Value>),
    /// An array of the given element type, made of the given items.
    Array(BackendType, Vec<Value>),
}

/// How a block ends.
#[derive(Debug, PartialEq, Eq)]
pub enum Terminator {
    /// The function returns the value.
    Return(Value),
    /// The function returns nothing.
    ReturnVoid,
}

/// Model of a [`BackendBlock`].
pub struct BackendBlockView {
    pub instructions: Seq<InstructionView>,
    pub terminator: Terminator,
}

/// The instructions of a function body, and how it ends.
#[derive(Debug, PartialEq, Eq)]
pub struct BackendBlock {
    pub instructions: Vec<Instruction>,
    pub terminator: Terminator,
}

/// Model of a [`BackendFunction`].
pub struct BackendFunctionView {
    pub name: Seq<char>,
    pub parameter_types: Seq<BackendType>,
    pub parameter_names: Seq<Seq<char>>,
    pub return_type: BackendType,
    pub linkage: Linkage,
    pub body: Option<BackendBlockView>,
}

/// A function as declared to the code generator. A local function names its
/// parameters and, once lowered, has a body; an external one has neither.
#[derive(Debug, PartialEq, Eq)]
pub struct BackendFunction {
    pub name: String,
    pub parameter_types: Vec<BackendType>,
    pub parameter_names: Vec<String>,
    pub return_type: BackendType,
    pub linkage: Linkage,
    pub body: Option<BackendBlock>,
}

/// Model of a [`BackendModule`].
pub struct BackendModuleView {
    pub name: Seq<char>,
    pub functions: Seq<BackendFunctionView>,
}

/// The functions declared to the code generator, in the order of their
/// declaration.
#[derive(Debug, PartialEq, Eq)]
pub struct BackendModule {
    pub name: String,
    pub functions: Vec<BackendFunction>,
}

impl View for Instruction {
    type V = InstructionView;

    open spec fn view(&self) -> InstructionView {
        match self {
            Instruction::Add(left, right) => InstructionView::Add(*left, *right),
            Instruction::Sub(left, right) => InstructionView::Sub(*left, *right),
            Instruction::Mul(left, right) => InstructionView::Mul(*left, *right),
            Instruction::Call(callee, args) => InstructionView::Call(*callee, args@),
            Instruction::Array(element, items) => InstructionView::Array(*element, items@),
        }
    }
}

/// The models of a sequence of instructions, in order.
pub open spec fn instruction_views(instructions: Seq<Instruction>) -> Seq<InstructionView> {
    instructions.map_values(|instruction: Instruction| instruction@)
}

/// The texts of a sequence of names, in order.
pub open spec fn name_views(names: Seq<String>) -> Seq<Seq<char>> {
    names.map_values(|name: String| name@)
}

impl View for BackendBlock {
    type V = BackendBlockView;

    open spec fn view(&self) -> BackendBlockView {
        BackendBlockView {
            instructions: instruction_views(self.instructions@),
            terminator: self.terminator,
        }
    }
}

impl View for BackendFunction {
    type V = BackendFunctionView;

    open spec fn view(&self) -> BackendFunctionView {
        BackendFunctionView {
            name: self.name@,
            parameter_types: self.parameter_types@,
            parameter_names: name_views(self.parameter_names@),
            return_type: self.return_type,
            linkage: self.linkage,
            body: match self.body {
                Some(block) => Some(block@),
                None => None,
            },
        }
    }
}

/// The models of a sequence of functions, in order.
pub open spec fn backend_function_views(functions: Seq<BackendFunction>) -> Seq<
    BackendFunctionView,
> {
    functions.map_values(|function: BackendFunction| function@)
}

impl View for BackendModule {
    type V = BackendModuleView;

    open spec fn view(&self) -> BackendModuleView {
        BackendModuleView { name: self.name@, functions: backend_function_views(self.functions@) }
    }
}

impl PartialEq for BackendType {
    fn eq(&self, other: &BackendType) -> (same: bool)
        decreases self,
    {
        match self {
            BackendType::Int32 => matches!(other, BackendType::Int32),
            BackendType::Void => matches!(other, BackendType::Void),
            BackendType::Array(element, length) => match other {
                BackendType::Array(other_element, other_length) => {
                    let same_element = (**element).eq(&**other_element);
                    same_element && *length == *other_length
                },
                _ => false,
            },
        }
    }
}

impl PartialEqSpecImpl for BackendType {
    open spec fn obeys_eq_spec() -> bool {
        true
    }

    open spec fn eq_spec(&self, other: &BackendType) -> bool {
        *self == *other
    }
}

impl Eq for BackendType {}

impl Clone for BackendType {
    fn clone(&self) -> (copy: BackendType)
        ensures
            copy == *self,
        decreases self,
    {
        match self {
            BackendType::Int32 => BackendType::Int32,
            BackendType::Void => BackendType::Void,
            BackendType::Array(element, length) => BackendType::Array(
                Box::new((**element).clone()),
                *length,
            ),
        }
    }
}

impl Clone for Value {
    fn clone(&self) -> (copy: Value)
        ensures
            copy == *self,
    {
        match self {
            Value::Constant(value_type, value) => Value::Constant(value_type.clone(), *value),
            Value::Parameter(index, value_type) => Value::Parameter(*index, value_type.clone()),
            Value::Instruction(index, value_type) => Value::Instruction(
                *index,
                value_type.clone(),
            ),
        }
    }
}

impl Value {
    /// The type of the value.
    pub open spec fn value_type(self) -> BackendType {
        match self {
            Value::Constant(value_type, _) => value_type,
            Value::Parameter(_, value_type) => value_type,
            Value::Instruction(_, value_type) => value_type,
        }
    }

    /// The type of the value.
    pub fn type_of(&self) -> (value_type: &BackendType)
        ensures
            *value_type == self.value_type(),
    {
        match self {
            Value::Constant(value_type, _) => value_type,
            Value::Parameter(_, value_type) => value_type,
            Value::Instruction(_, value_type) => value_type,
        }
    }
}

/// The index of the first function from `start` on that is declared under
/// `name`, or the number of functions where there is none.
pub open spec fn function_from(functions: Seq<BackendFunctionView>, name: Seq<char>, start: int) -> int
    decreases functions.len() - start,
{
    if 0 <= start < functions.len() && functions[start].name != name {
        function_from(functions, name, start + 1)
    } else {
        start
    }
}

/// The handle of the function declared under `name`: the index of the
/// first function of that name, if there is one.
pub open spec fn named_function(functions: Seq<BackendFunctionView>, name: Seq<char>) -> Option<
    int,
> {
    let index = function_from(functions, name, 0);
    if index < functions.len() {
        Some(index)
    } else {
        None
    }
}

/// The first function of a name stands where no function before it has
/// that name.
pub proof fn lemma_function_from(functions: Seq<BackendFunctionView>, name: Seq<char>, start: int)
    requires
        0 <= start <= functions.len(),
    ensures
        start <= function_from(functions, name, start) <= functions.len(),
        forall|k: int|
            start <= k < function_from(functions, name, start) ==> functions[k].name != name,
        function_from(functions, name, start) < functions.len() ==> functions[function_from(
            functions,
            name,
            start,
        )].name == name,
    decreases functions.len() - start,
{
    if start < functions.len() && functions[start].name != name {
        lemma_function_from(functions, name, start + 1);
    }
}

impl BackendModule {
    /// A module of the given name in which nothing is declared yet.
    pub fn new(name: String) -> (module: BackendModule)
        ensures
            module@ == (BackendModuleView { name: name@, functions: Seq::empty() }),
    {
        let module = BackendModule { name, functions: Vec::new() };
        assert(module@.functions =~= Seq::empty());
        module
    }

    /// The handle of the function declared under `name`, if there is one.
    pub fn get_named_function(&self, name: &String) -> (handle: Option<usize>)
        ensures
            match handle {
                Some(index) => named_function(self@.functions, name@) == Some(index as int),
                None => named_function(self@.functions, name@) is None,
            },
    {
        let mut i: usize = 0;
        while i < self.functions.len()
            invariant
                i <= self.functions.len(),
                function_from(self@.functions, name@, 0) == function_from(
                    self@.functions,
                    name@,
                    i as int,
                ),
            decreases self.functions.len() - i,
        {
            if self.functions[i].name == *name {
                return Some(i);
            }
            i = i + 1;
        }
        None
    }

    /// The number of parameters of the function with the given handle.
    pub fn count_params(&self, handle: usize) -> (count: usize)
        requires
            handle < self.functions.len(),
        ensures
            count == self@.functions[handle as int].parameter_types.len(),
    {
        self.functions[handle].parameter_types.len()
    }
}

} // verus!
