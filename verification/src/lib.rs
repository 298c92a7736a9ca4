//! The value model and the selection-set execution rules of a typed query
//! language runtime: values and scalars, input values, schema metadata,
//! instance resolution, and the completion of resolver answers into one
//! response value with its recorded failures.

pub mod scalar;
pub mod value;
pub mod render;
pub mod settle;
pub mod laws;
pub mod input;
pub mod ast;
pub mod schema;
pub mod executor;
pub mod convert;
pub mod instance;
pub mod pointers;
pub mod custom_scalars;
pub mod codegen;
