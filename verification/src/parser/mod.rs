pub mod expression;
pub mod grammar;
pub mod module;
pub mod parser;
pub mod number;
pub mod tokenizer;
pub mod types;

pub use expression::{
    ArrayExpression, BinaryExpression, BlockExpression, CallExpression, Expression,
    ExternFunctionExpression, FunctionArgument, FunctionExpression, NumberLiteralExpression,
    VariableExpression,
};
pub use module::AstModule;
pub use number::Number;
pub use types::Type;
