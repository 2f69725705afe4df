//! The source-code intermediate representation: metadata-bearing node types
//! from which a code generator can emit data-model declarations in a target
//! language.

use vstd::prelude::*;

use crate::src_visit::OutVisitor;

verus! {

/// Visibility metadata for a generated declaration.
pub enum VisibilityMeta {
    Public,
    Private,
    /// A visibility some languages add beyond public/private, named by the
    /// target language.
    Custom(String),
}

/// Metadata shared by every generated node: documentation, visibility,
/// mutability, nullability, and whether the value is held by reference.
pub struct MetaNode {
    pub comment: Option<String>,
    pub visibility: Option<VisibilityMeta>,
    pub mutability: Option<bool>,
    pub nullable: Option<bool>,
    pub pointer: Option<bool>,
}

impl MetaNode {
    /// Metadata with the given fields.
    pub fn new(
        comment: Option<String>,
        visibility: Option<VisibilityMeta>,
        mutability: Option<bool>,
        nullable: Option<bool>,
        pointer: Option<bool>,
    ) -> (m: MetaNode)
        ensures
            m.comment == comment,
            m.visibility == visibility,
            m.mutability == mutability,
            m.nullable == nullable,
            m.pointer == pointer,
    {
        MetaNode { comment, visibility, mutability, nullable, pointer }
    }
}

/// A node that a code-generation visitor can traverse.
pub trait SrcNode {
    /// Let the given visitor visit this node.
    fn accept<V: OutVisitor>(&self, visitor: &mut V);
}

/// The node for an object (struct-like) data model.
pub struct ObjMetaNode<'a> {
    pub metadata: &'a MetaNode,
}

impl<'a> ObjMetaNode<'a> {
    /// An object node with the given metadata.
    pub fn new(metadata: &'a MetaNode) -> (n: ObjMetaNode<'a>)
        ensures
            n.metadata == metadata,
    {
        ObjMetaNode { metadata }
    }
}

impl SrcNode for ObjMetaNode<'_> {
    fn accept<V: OutVisitor>(&self, visitor: &mut V) {
        visitor.visit_obj(self);
    }
}

/// A character-like value: one character or a text.
pub enum CharNode {
    Char(char),
    Str(String),
}

/// The node for a character or text data model.
pub struct CharMetaNode<'a> {
    pub metadata: &'a MetaNode,
    pub tipe: &'a CharNode,
}

impl<'a> CharMetaNode<'a> {
    /// A character node with the given metadata and value type.
    pub fn new(metadata: &'a MetaNode, tipe: &'a CharNode) -> (n: CharMetaNode<'a>)
        ensures
            n.metadata == metadata,
            n.tipe == tipe,
    {
        CharMetaNode { metadata, tipe }
    }
}

impl SrcNode for CharMetaNode<'_> {
    fn accept<V: OutVisitor>(&self, visitor: &mut V) {
        visitor.visit_char(self);
    }
}

/// A list type: the name of its element type, or a nested collection.
pub struct ListType {
    pub item_type: Option<String>,
    pub complex_type: Box<Option<BagNode>>,
}

/// A map type: its key type, and the name of its value type or a nested
/// collection.
pub struct MapType {
    pub key_type: String,
    pub value_type: Option<String>,
    pub complex_value: Box<Option<BagNode>>,
}

/// A collection data model: a list, a map, or an enumeration of names.
pub enum BagNode {
    ListNode(ListType),
    MapNode(MapType),
    Enum(Vec<String>),
}

/// The node for a collection data model.
pub struct BagMetaNode<'a> {
    pub metadata: &'a MetaNode,
    pub tipe: &'a BagNode,
}

impl<'a> BagMetaNode<'a> {
    /// A collection node with the given metadata and collection type.
    pub fn new(metadata: &'a MetaNode, tipe: &'a BagNode) -> (n: BagMetaNode<'a>)
        ensures
            n.metadata == metadata,
            n.tipe == tipe,
    {
        BagMetaNode { metadata, tipe }
    }
}

impl SrcNode for BagMetaNode<'_> {
    fn accept<V: OutVisitor>(&self, visitor: &mut V) {
        visitor.visit_collection(self);
    }
}

} // verus!
