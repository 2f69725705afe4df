//! The intermediate representation produced by the parser: a tree of nodes,
//! together with its mathematical model.

use vstd::prelude::*;

verus! {

/// A node of the parsed document tree.
///
/// Each node owns its children; the tree has no sharing and no cycles.
/// Flow-style collections, multiline block scalars and other recognized but
/// unimplemented constructs appear as `Unsupported` leaves instead of
/// aborting the parse.
#[derive(Debug, PartialEq)]
pub enum YamlObject {
    /// The root produced by one parse call.
    Document(Vec<YamlObject>),
    /// One `key: value` entry; the flag records whether flow-style `{}`
    /// delimiters were used (always `false` in block style).
    Mapping(String, Box<YamlObject>, bool),
    /// An ordered list of items, from `-` entries or from the entries of a
    /// nested block mapping with several keys.
    Sequence(Vec<YamlObject>),
    Str(String),
    Int(i64),
    /// A decimal scalar, kept as its source text.
    Float(String),
    Bool(bool),
    Null,
    /// A comment line, recorded as a sibling of the entries around it.
    Comment(String),
    /// A recognized but unimplemented construct; the payload says which.
    Unsupported(String),
}

/// The mathematical model of a node: the same shape as [`YamlObject`], with
/// text as character sequences and child lists as `Seq`.
pub enum GNode {
    Document(Seq<GNode>),
    Mapping(Seq<char>, Box<GNode>, bool),
    Sequence(Seq<GNode>),
    Str(Seq<char>),
    Int(i64),
    Float(Seq<char>),
    Bool(bool),
    Null,
    Comment(Seq<char>),
    Unsupported(Seq<char>),
}

/// The model of one node: text payloads become character sequences, child
/// vectors become sequences of models.
pub open spec fn node_view(n: YamlObject) -> GNode
    decreases n, 1int,
{
    match n {
        YamlObject::Document(children) => GNode::Document(nodes_view(children@)),
        YamlObject::Mapping(key, value, flow) => GNode::Mapping(
            key@,
            Box::new(node_view(*value)),
            flow,
        ),
        YamlObject::Sequence(items) => GNode::Sequence(nodes_view(items@)),
        YamlObject::Str(s) => GNode::Str(s@),
        YamlObject::Int(v) => GNode::Int(v),
        YamlObject::Float(s) => GNode::Float(s@),
        YamlObject::Bool(b) => GNode::Bool(b),
        YamlObject::Null => GNode::Null,
        YamlObject::Comment(s) => GNode::Comment(s@),
        YamlObject::Unsupported(s) => GNode::Unsupported(s@),
    }
}

/// The models of a sequence of nodes, in order.
pub open spec fn nodes_view(nodes: Seq<YamlObject>) -> Seq<GNode>
    decreases nodes, 0int,
{
    if nodes.len() == 0 {
        Seq::empty()
    } else {
        seq![node_view(nodes[0])] + nodes_view(nodes.subrange(1, nodes.len() as int))
    }
}

pub proof fn lemma_nodes_view(nodes: Seq<YamlObject>)
    ensures
        nodes_view(nodes).len() == nodes.len(),
        forall|i: int|
            0 <= i < nodes.len() ==> nodes_view(nodes)[i] == node_view(#[trigger] nodes[i]),
    decreases nodes.len(),
{
    if nodes.len() > 0 {
        let rest = nodes.subrange(1, nodes.len() as int);
        lemma_nodes_view(rest);
        assert forall|i: int| 0 <= i < nodes.len() implies nodes_view(nodes)[i] == node_view(
            #[trigger] nodes[i],
        ) by {
            if i > 0 {
                assert(rest[i - 1] == nodes[i]);
                assert(nodes_view(nodes)[i] == nodes_view(rest)[i - 1]);
            }
        }
    }
}

pub proof fn lemma_nodes_view_push(nodes: Seq<YamlObject>, n: YamlObject)
    ensures
        nodes_view(nodes.push(n)) == nodes_view(nodes).push(node_view(n)),
{
    lemma_nodes_view(nodes);
    lemma_nodes_view(nodes.push(n));
    assert forall|i: int| 0 <= i < nodes.len() + 1 implies nodes_view(nodes.push(n))[i]
        == nodes_view(nodes).push(node_view(n))[i] by {
        assert(nodes_view(nodes.push(n))[i] == node_view(nodes.push(n)[i]));
        if i < nodes.len() {
            assert(nodes.push(n)[i] == nodes[i]);
        } else {
            assert(nodes.push(n)[i] == n);
        }
    }
    assert(nodes_view(nodes.push(n)) =~= nodes_view(nodes).push(node_view(n)));
}

impl DeepView for YamlObject {
    type V = GNode;

    open spec fn deep_view(&self) -> GNode {
        node_view(*self)
    }
}

/// A scope boundary found in the token stream: kept for callers that want to
/// record where an indentation level opened or closed.
pub enum YamlScope {
    /// A new scope opened at the given token position.
    OpenScope(u32),
    /// A scope closed; the positions where it opened and where it closed.
    CloseScope(u32, u32),
    /// A malformed scope, with a description of the problem.
    InvalidScope(String),
}

} // verus!
