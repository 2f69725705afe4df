//! The visitor interface over a parsed document, and the node type its
//! source-code visitor produces.

use vstd::prelude::*;

verus! {

/// A failure during a visit over a parsed document.
#[derive(Debug, PartialEq)]
pub enum VisitErr {
    /// A described failure during the visit.
    Any(String),
    /// A failure with no further description.
    Unknown,
}

impl VisitErr {
    /// A short description of the failure.
    pub fn message(&self) -> String {
        match self {
            VisitErr::Any(text) => text.clone(),
            VisitErr::Unknown => String::from_str("unknown visit failure"),
        }
    }
}

/// A placeholder node type kept for visitors that build their own tree.
pub struct YamlNode {
}

/// A visitor over a parsed document that builds a value of type `T`.
pub trait YamlVisitor<T>: Sized {
    /// Visit a sequence of nodes.
    fn visit_array() -> Result<(), VisitErr>;

    /// The value the visitor built.
    fn result() -> T;
}

/// An intermediate node of generated source code: a name and its
/// documentation.
pub struct SourceCodeIRNode {
    pub name: String,
    pub doc_str: Option<String>,
}

impl SourceCodeIRNode {
    /// Whether the node is ready for code generation.
    pub fn verify(&self) -> (b: bool)
        ensures
            b,
    {
        true
    }
}

/// The visitor that turns a parsed document into source-code IR nodes.
pub struct VisitSrc {
}

impl YamlVisitor<SourceCodeIRNode> for VisitSrc {
    fn visit_array() -> (r: Result<(), VisitErr>)
        ensures
            r is Ok,
    {
        Ok(())
    }

    fn result() -> (n: SourceCodeIRNode)
        ensures
            n.name@.len() == 0,
            n.doc_str is None,
    {
        SourceCodeIRNode { name: String::new(), doc_str: None }
    }
}

} // verus!
