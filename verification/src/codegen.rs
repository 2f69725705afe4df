//! Code generation over a parsed document: the data-model abstraction, the
//! strategy interface, and the (largely unimplemented) Go strategy.

use vstd::prelude::*;

use crate::objects::YamlObject;

verus! {

/// A data model a code generator can consume.
pub enum DataModel<'a> {
    /// A parsed document tree.
    Yaml(&'a Vec<YamlObject>),
    JsonSchema,
    Json,
}

/// A failure during code generation.
#[derive(Debug, PartialEq)]
pub struct CodeGenError {
    pub message: String,
}

/// A code-generation strategy: turns a data model into source code in one
/// target language.
pub trait CodeGenStrategy<'a>: Sized {
    /// Generate source code from the given data model.
    fn generate(&'a self, model: &'a DataModel<'_>) -> Result<(), CodeGenError>;
}

/// The Go strategy. Generation itself is not implemented yet; the strategy
/// accepts every model.
pub struct Golang;

impl<'a> CodeGenStrategy<'a> for Golang {
    fn generate(&'a self, model: &'a DataModel<'_>) -> (r: Result<(), CodeGenError>)
        ensures
            r is Ok,
    {
        Ok(())
    }
}

} // verus!
