use crate::parser::expression::{
    lemma_expression_view, Expression, ExpressionView, ExternFunctionExpression,
    ExternFunctionView, FunctionExpression, FunctionView,
};
use vstd::prelude::*;

verus! {

/// Model of a [`ModuleFunction`].
pub enum ModuleFunctionView {
    Local(FunctionView),
    External(ExternFunctionView),
}

/// An entry of a module: a function defined in it, or one declared as
/// defined elsewhere.
#[derive(Debug, PartialEq, Eq)]
pub enum ModuleFunction {
    Local(FunctionExpression),
    External(ExternFunctionExpression),
}

impl ModuleFunctionView {
    /// The name under which the function is declared.
    pub open spec fn name(self) -> Seq<char> {
        match self {
            ModuleFunctionView::Local(function) => function.name,
            ModuleFunctionView::External(function) => function.name,
        }
    }
}

impl View for ModuleFunction {
    type V = ModuleFunctionView;

    open spec fn view(&self) -> ModuleFunctionView {
        match self {
            ModuleFunction::Local(function) => ModuleFunctionView::Local(function@),
            ModuleFunction::External(function) => ModuleFunctionView::External(function@),
        }
    }
}

/// The module entry that a top-level expression declares, if it is a
/// declaration.
pub open spec fn declaration(expression: ExpressionView) -> Option<ModuleFunctionView> {
    match expression {
        ExpressionView::Function(function) => Some(ModuleFunctionView::Local(function)),
        ExpressionView::ExternFunction(function) => Some(ModuleFunctionView::External(function)),
        _ => None,
    }
}

impl ModuleFunction {
    /// The module entry of a declaration: a copy of the function or of the
    /// external declaration. An expression of any other kind makes no entry.
    pub fn from(value: &Expression) -> (entry: Option<ModuleFunction>)
        ensures
            match declaration(value@) {
                Some(function) => entry matches Some(f) && f@ == function,
                None => entry is None,
            },
    {
        proof {
            lemma_expression_view(*value);
        }
        match value {
            Expression::Function(expr) => Some(ModuleFunction::Local((**expr).clone())),
            Expression::ExternFunction(expr) => Some(ModuleFunction::External((**expr).clone())),
            _ => None,
        }
    }

    /// The name under which the function is declared.
    pub fn name(&self) -> (name: &String)
        ensures
            name@ == self@.name(),
    {
        match self {
            ModuleFunction::Local(function) => &function.name,
            ModuleFunction::External(function) => &function.name,
        }
    }
}

} // verus!
