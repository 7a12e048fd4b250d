use super::expression::{expression_views, Expression, ExpressionView};
use vstd::prelude::*;
use vstd::string::StringExecFns;

verus! {

/// Model of an [`AstModule`].
pub struct AstModuleView {
    pub name: Seq<char>,
    pub expressions: Seq<ExpressionView>,
}

/// The top-level declarations of one compilation unit, in source order.
#[derive(Debug, PartialEq, Eq)]
pub struct AstModule {
    pub name: String,
    pub expressions: Vec<Expression>,
}

impl View for AstModule {
    type V = AstModuleView;

    open spec fn view(&self) -> AstModuleView {
        AstModuleView { name: self.name@, expressions: expression_views(self.expressions@) }
    }
}

/// The name that a module has from the start.
pub open spec fn main_module_name() -> Seq<char> {
    "Main"@
}

impl AstModule {
    /// The module `Main`, with no declarations.
    pub fn new() -> (module: AstModule)
        ensures
            module@ == (AstModuleView { name: main_module_name(), expressions: Seq::empty() }),
    {
        let module = AstModule { name: String::from_str("Main"), expressions: Vec::new() };
        assert(module@.expressions =~= Seq::empty());
        module
    }
}

} // verus!
