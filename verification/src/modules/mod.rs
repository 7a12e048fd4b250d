pub mod function;
pub mod module;

pub use function::ModuleFunction;
pub use module::Module;
