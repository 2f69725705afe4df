//! The visitor interface over the source-code intermediate representation:
//! one method per kind of node a code generator must handle.

use vstd::prelude::*;

use crate::src_ir::BagMetaNode;
use crate::src_ir::CharMetaNode;
use crate::src_ir::ObjMetaNode;

verus! {

/// A visitor over the source-code IR. Implementations hold whatever output
/// state their code generator needs.
pub trait OutVisitor: Sized {
    /// Visit an object (struct-like) node.
    fn visit_obj(&mut self, obj: &ObjMetaNode<'_>);

    /// Visit a character or text node.
    fn visit_char(&mut self, string: &CharMetaNode<'_>);

    /// Visit a collection node.
    fn visit_collection(&mut self, bag: &BagMetaNode<'_>);
}

} // verus!
