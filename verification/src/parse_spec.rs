//! The mathematical model of parsing: recursive functions from a token
//! sequence to the node tree it denotes, or to the first parse error.
//!
//! Nesting is decided by indentation width: the number of consecutive
//! `Space` tokens at the start of a line. A value line opens a scope when it
//! is wider than the enclosing scope; a line of the same width is a sibling;
//! a narrower line closes the scope, and after closing, its width must match
//! an enclosing scope exactly (or be zero at document level) or the
//! indentation is inconsistent. Tabs never count as indentation.

use vstd::prelude::*;

use crate::errors::GParseErr;
use crate::errors::ParseErrorKind;
use crate::objects::GNode;
use crate::tokens::GToken;

verus! {

/// The reason recorded on the `Unsupported` node for flow-style `[...]` and
/// `{...}` collections.
pub open spec fn flow_reason() -> Seq<char> {
    "flow collections are not supported"@
}

/// The reason recorded on the `Unsupported` node for `|` and `>` multiline
/// block scalars.
pub open spec fn multiline_reason() -> Seq<char> {
    "multiline block scalars are not supported"@
}

/// A bare or quoted scalar text, normalized: `true` and `false` become
/// booleans, `null` and `~` become null, anything else stays text.
pub open spec fn normalize_scalar_view(t: Seq<char>) -> GNode {
    if t == "true"@ {
        GNode::Bool(true)
    } else if t == "false"@ {
        GNode::Bool(false)
    } else if t == "null"@ || t == "~"@ {
        GNode::Null
    } else {
        GNode::Str(t)
    }
}

/// The first position at or after `pos` that does not hold a `Space` token,
/// or the end of the sequence; its distance from `pos` is the indentation
/// width when `pos` is a line start.
pub open spec fn spaces_end(toks: Seq<GToken>, pos: int) -> int
    decreases toks.len() - pos,
        when 0 <= pos <= toks.len()
{
    if pos < toks.len() && toks[pos] is Space {
        spaces_end(toks, pos + 1)
    } else {
        pos
    }
}

pub proof fn lemma_spaces_end(toks: Seq<GToken>, pos: int)
    requires
        0 <= pos <= toks.len(),
    ensures
        pos <= spaces_end(toks, pos) <= toks.len(),
        forall|m: int| pos <= m < spaces_end(toks, pos) ==> #[trigger] toks[m] is Space,
        spaces_end(toks, pos) < toks.len() ==> !(toks[spaces_end(toks, pos)] is Space),
    decreases toks.len() - pos,
{
    if pos < toks.len() && toks[pos] is Space {
        lemma_spaces_end(toks, pos + 1);
    }
}

/// Walks a flow-style collection without building structure: counts opening
/// and closing brackets until the depth returns to zero. `Ok` carries the
/// position after the final closing bracket; `Err` the position where the
/// stream ended with the collection still open.
pub open spec fn skip_flow(toks: Seq<GToken>, pos: int, depth: int) -> Result<int, int>
    decreases toks.len() - pos,
        when 0 <= pos <= toks.len()
{
    if pos >= toks.len() {
        Err(pos)
    } else {
        match toks[pos] {
            GToken::EOF => Err(pos),
            GToken::LeftSquare => skip_flow(toks, pos + 1, depth + 1),
            GToken::LeftCurly => skip_flow(toks, pos + 1, depth + 1),
            GToken::RightSquare => if depth <= 1 {
                Ok(pos + 1)
            } else {
                skip_flow(toks, pos + 1, depth - 1)
            },
            GToken::RightCurly => if depth <= 1 {
                Ok(pos + 1)
            } else {
                skip_flow(toks, pos + 1, depth - 1)
            },
            _ => skip_flow(toks, pos + 1, depth),
        }
    }
}

pub proof fn lemma_skip_flow(toks: Seq<GToken>, pos: int, depth: int)
    requires
        0 <= pos <= toks.len(),
    ensures
        match skip_flow(toks, pos, depth) {
            Ok(p) => pos < p <= toks.len(),
            Err(stuck) => pos <= stuck <= toks.len(),
        },
    decreases toks.len() - pos,
{
    if pos < toks.len() {
        match toks[pos] {
            GToken::EOF => {},
            GToken::LeftSquare => lemma_skip_flow(toks, pos + 1, depth + 1),
            GToken::LeftCurly => lemma_skip_flow(toks, pos + 1, depth + 1),
            GToken::RightSquare => if depth > 1 {
                lemma_skip_flow(toks, pos + 1, depth - 1);
            },
            GToken::RightCurly => if depth > 1 {
                lemma_skip_flow(toks, pos + 1, depth - 1);
            },
            _ => lemma_skip_flow(toks, pos + 1, depth),
        }
    }
}

/// What a line boundary inside an open scope of width `w` decides.
pub enum GBoundary {
    /// The next line is a sibling at width `w`: `pos` is the start of its
    /// (unconsumed) indentation run; comment lines crossed on the way are
    /// collected in order.
    Sib { comments: Seq<GNode>, pos: int },
    /// The scope closes: `pos` is the start of the unconsumed indentation
    /// run of the narrower line, or the position of `EOF`, or the end of the
    /// sequence.
    End { comments: Seq<GNode>, pos: int },
    /// The next line is wider than `w` (a child of a finished value), or a
    /// tab stands in its indentation.
    Fail(GParseErr),
}

/// Decides, at a line boundary inside a scope of width `w`, whether the next
/// line is a sibling, closes the scope, or is malformed. Comment lines are
/// recorded and never take part in the width comparison.
pub open spec fn boundary(toks: Seq<GToken>, pos: int, w: int) -> GBoundary
    decreases toks.len() - pos,
        when 0 <= pos <= toks.len()
{
    let e = spaces_end(toks, pos);
    proof {
        lemma_spaces_end(toks, pos);
    }
    if e >= toks.len() {
        GBoundary::End { comments: Seq::empty(), pos: e }
    } else {
        match toks[e] {
            GToken::TabSpace => GBoundary::Fail(
                GParseErr { kind: ParseErrorKind::InconsistentIndentation, pos: e },
            ),
            GToken::EOF => GBoundary::End { comments: Seq::empty(), pos: e },
            GToken::Comment(text) => match boundary(toks, e + 1, w) {
                GBoundary::Sib { comments, pos: p } => GBoundary::Sib {
                    comments: seq![GNode::Comment(text)] + comments,
                    pos: p,
                },
                GBoundary::End { comments, pos: p } => GBoundary::End {
                    comments: seq![GNode::Comment(text)] + comments,
                    pos: p,
                },
                GBoundary::Fail(err) => GBoundary::Fail(err),
            },
            _ => {
                let width = e - pos;
                if width > w {
                    GBoundary::Fail(
                        GParseErr { kind: ParseErrorKind::InconsistentIndentation, pos: e },
                    )
                } else if width == w {
                    GBoundary::Sib { comments: Seq::empty(), pos }
                } else {
                    GBoundary::End { comments: Seq::empty(), pos }
                }
            },
        }
    }
}

pub proof fn lemma_boundary(toks: Seq<GToken>, pos: int, w: int)
    requires
        0 <= pos <= toks.len(),
    ensures
        match boundary(toks, pos, w) {
            GBoundary::Sib { comments, pos: p } => pos <= p && spaces_end(toks, p) == p + w
                && p + w < toks.len(),
            GBoundary::End { comments, pos: p } => pos <= p <= toks.len(),
            GBoundary::Fail(err) => err.kind == ParseErrorKind::InconsistentIndentation,
        },
    decreases toks.len() - pos,
{
    lemma_spaces_end(toks, pos);
    let e = spaces_end(toks, pos);
    if e < toks.len() && toks[e] is Comment {
        lemma_boundary(toks, e + 1, w);
    }
}

/// Whether a value line of width `w` may open a new scope under the
/// enclosing scope `encl` (`None` when no scope is open).
pub open spec fn can_open(encl: Option<int>, w: int) -> bool {
    match encl {
        Option::None => true,
        Option::Some(top) => w > top,
    }
}

/// The value of a mapping entry, after its `key:` has been consumed:
/// an inline scalar, a flow or multiline placeholder, a nested sequence of
/// `-` items, or a nested block mapping, each found by the indentation rule.
/// `Ok` carries the value node and the position after the value, with the
/// indentation run of the next shallower line left unconsumed.
pub open spec fn p_value(toks: Seq<GToken>, pos: int, encl: Option<int>) -> Result<
    (GNode, int),
    GParseErr,
>
    decreases toks.len() - pos, 2int,
        when 0 <= pos <= toks.len()
{
    let e = spaces_end(toks, pos);
    let w = e - pos;
    proof {
        lemma_spaces_end(toks, pos);
    }
    if e >= toks.len() {
        Err(GParseErr { kind: ParseErrorKind::InvalidMappingValue, pos: e })
    } else {
        match toks[e] {
            GToken::TabSpace => Err(
                GParseErr { kind: ParseErrorKind::InconsistentIndentation, pos: e },
            ),
            GToken::LeftSquare => match skip_flow(toks, e + 1, 1) {
                Ok(p2) => Ok((GNode::Unsupported(flow_reason()), p2)),
                Err(stuck) => Err(
                    GParseErr { kind: ParseErrorKind::UnterminatedDocument, pos: stuck },
                ),
            },
            GToken::LeftCurly => match skip_flow(toks, e + 1, 1) {
                Ok(p2) => Ok((GNode::Unsupported(flow_reason()), p2)),
                Err(stuck) => Err(
                    GParseErr { kind: ParseErrorKind::UnterminatedDocument, pos: stuck },
                ),
            },
            GToken::Multiline(_) => Ok((GNode::Unsupported(multiline_reason()), e + 1)),
            GToken::IntVal(v) => if w <= 1 {
                Ok((GNode::Int(v), e + 1))
            } else {
                Err(GParseErr { kind: ParseErrorKind::InvalidMappingValue, pos: e })
            },
            GToken::FloatVal(t) => if w <= 1 {
                Ok((GNode::Float(t), e + 1))
            } else {
                Err(GParseErr { kind: ParseErrorKind::InvalidMappingValue, pos: e })
            },
            GToken::StringVal(t) => if w <= 1 {
                Ok((normalize_scalar_view(t), e + 1))
            } else {
                Err(GParseErr { kind: ParseErrorKind::InvalidMappingValue, pos: e })
            },
            GToken::BoolVal(b) => if w <= 1 {
                Ok((GNode::Bool(b), e + 1))
            } else {
                Err(GParseErr { kind: ParseErrorKind::InvalidMappingValue, pos: e })
            },
            GToken::NullVal => if w <= 1 {
                Ok((GNode::Null, e + 1))
            } else {
                Err(GParseErr { kind: ParseErrorKind::InvalidMappingValue, pos: e })
            },
            GToken::Dash => if can_open(encl, w) {
                match p_seq_items(toks, e, w) {
                    Ok((items, p)) => Ok((GNode::Sequence(items), p)),
                    Err(er) => Err(er),
                }
            } else {
                Err(GParseErr { kind: ParseErrorKind::InvalidMappingValue, pos: e })
            },
            GToken::Identifier(name) => if e + 1 < toks.len() && toks[e + 1] is Colon {
                if can_open(encl, w) {
                    match p_map_entries(toks, e, w) {
                        Ok((entries, p)) => Ok(
                            (
                                if entries.len() == 1 {
                                    entries[0]
                                } else {
                                    GNode::Sequence(entries)
                                },
                                p,
                            ),
                        ),
                        Err(er) => Err(er),
                    }
                } else {
                    Err(GParseErr { kind: ParseErrorKind::InvalidMappingValue, pos: e })
                }
            } else if w <= 1 {
                Ok((normalize_scalar_view(name), e + 1))
            } else {
                Err(GParseErr { kind: ParseErrorKind::InvalidMappingValue, pos: e })
            },
            _ => Err(GParseErr { kind: ParseErrorKind::InvalidMappingValue, pos: e }),
        }
    }
}

/// The items of a sequence scope of width `w`, starting at a `Dash`. Each
/// item is a literal scalar, a flow or multiline placeholder, or a
/// `key:`-entry whose value is parsed under this scope.
pub open spec fn p_seq_items(toks: Seq<GToken>, pos: int, w: int) -> Result<
    (Seq<GNode>, int),
    GParseErr,
>
    decreases toks.len() - pos, 0int,
        when 0 <= pos <= toks.len() && 0 <= w
{
    if pos >= toks.len() || !(toks[pos] is Dash) {
        Err(GParseErr { kind: ParseErrorKind::InternalInconsistency, pos })
    } else {
        let q = if pos + 1 < toks.len() && toks[pos + 1] is Space {
            pos + 2
        } else {
            pos + 1
        };
        if q >= toks.len() {
            Err(GParseErr { kind: ParseErrorKind::InvalidMappingValue, pos: q })
        } else {
            match toks[q] {
                GToken::IntVal(v) => p_seq_rest(toks, q + 1, GNode::Int(v), w),
                GToken::FloatVal(t) => p_seq_rest(toks, q + 1, GNode::Float(t), w),
                GToken::StringVal(t) => p_seq_rest(toks, q + 1, normalize_scalar_view(t), w),
                GToken::BoolVal(b) => p_seq_rest(toks, q + 1, GNode::Bool(b), w),
                GToken::NullVal => p_seq_rest(toks, q + 1, GNode::Null, w),
                GToken::LeftSquare => match skip_flow(toks, q + 1, 1) {
                    Ok(p2) => {
                        proof {
                            lemma_skip_flow(toks, q + 1, 1);
                        }
                        p_seq_rest(toks, p2, GNode::Unsupported(flow_reason()), w)
                    },
                    Err(stuck) => Err(
                        GParseErr { kind: ParseErrorKind::UnterminatedDocument, pos: stuck },
                    ),
                },
                GToken::LeftCurly => match skip_flow(toks, q + 1, 1) {
                    Ok(p2) => {
                        proof {
                            lemma_skip_flow(toks, q + 1, 1);
                        }
                        p_seq_rest(toks, p2, GNode::Unsupported(flow_reason()), w)
                    },
                    Err(stuck) => Err(
                        GParseErr { kind: ParseErrorKind::UnterminatedDocument, pos: stuck },
                    ),
                },
                GToken::Multiline(_) => p_seq_rest(
                    toks,
                    q + 1,
                    GNode::Unsupported(multiline_reason()),
                    w,
                ),
                GToken::Identifier(name) => if q + 1 < toks.len() && toks[q + 1] is Colon {
                    match p_value(toks, q + 2, Some(w)) {
                        Ok((vnode, p2)) => if p2 <= pos || p2 > toks.len() {
                            Err(GParseErr { kind: ParseErrorKind::InternalInconsistency, pos: p2 })
                        } else {
                            p_seq_rest(
                                toks,
                                p2,
                                GNode::Mapping(name, Box::new(vnode), false),
                                w,
                            )
                        },
                        Err(er) => Err(er),
                    }
                } else {
                    p_seq_rest(toks, q + 1, normalize_scalar_view(name), w)
                },
                GToken::TabSpace => Err(
                    GParseErr { kind: ParseErrorKind::InconsistentIndentation, pos: q },
                ),
                _ => Err(GParseErr { kind: ParseErrorKind::InvalidMappingValue, pos: q }),
            }
        }
    }
}

/// After one sequence item ending at `p2`: append the item, record comment
/// lines, and either continue with the sibling `Dash` at the same width or
/// close the scope.
pub open spec fn p_seq_rest(toks: Seq<GToken>, p2: int, node: GNode, w: int) -> Result<
    (Seq<GNode>, int),
    GParseErr,
>
    decreases toks.len() - p2, 1int,
        when 0 <= p2 <= toks.len() && 0 <= w
{
    match boundary(toks, p2, w) {
        GBoundary::Fail(err) => Err(err),
        GBoundary::End { comments, pos: p3 } => Ok((seq![node] + comments, p3)),
        GBoundary::Sib { comments, pos: p3 } => {
            let e2 = p3 + w;
            proof {
                lemma_boundary(toks, p2, w);
            }
            if e2 < toks.len() && toks[e2] is Dash {
                match p_seq_items(toks, e2, w) {
                    Ok((rest, p4)) => Ok((seq![node] + comments + rest, p4)),
                    Err(er) => Err(er),
                }
            } else {
                Ok((seq![node] + comments, p3))
            }
        },
    }
}

/// The entries of a block mapping scope of width `w`, starting at an
/// `Identifier` key.
pub open spec fn p_map_entries(toks: Seq<GToken>, pos: int, w: int) -> Result<
    (Seq<GNode>, int),
    GParseErr,
>
    decreases toks.len() - pos, 0int,
        when 0 <= pos <= toks.len() && 0 <= w
{
    if pos >= toks.len() || !(toks[pos] is Identifier) {
        Err(GParseErr { kind: ParseErrorKind::InternalInconsistency, pos })
    } else if !(pos + 1 < toks.len() && toks[pos + 1] is Colon) {
        Err(GParseErr { kind: ParseErrorKind::MalformedDocument, pos: pos + 1 })
    } else {
        let name = toks[pos]->Identifier_0;
        match p_value(toks, pos + 2, Some(w)) {
            Ok((vnode, p2)) => if p2 <= pos || p2 > toks.len() {
                Err(GParseErr { kind: ParseErrorKind::InternalInconsistency, pos: p2 })
            } else {
                p_map_rest(toks, p2, GNode::Mapping(name, Box::new(vnode), false), w)
            },
            Err(er) => Err(er),
        }
    }
}

/// After one mapping entry ending at `p2`: append the entry, record comment
/// lines, and either continue with the sibling key at the same width or
/// close the scope.
pub open spec fn p_map_rest(toks: Seq<GToken>, p2: int, node: GNode, w: int) -> Result<
    (Seq<GNode>, int),
    GParseErr,
>
    decreases toks.len() - p2, 1int,
        when 0 <= p2 <= toks.len() && 0 <= w
{
    match boundary(toks, p2, w) {
        GBoundary::Fail(err) => Err(err),
        GBoundary::End { comments, pos: p3 } => Ok((seq![node] + comments, p3)),
        GBoundary::Sib { comments, pos: p3 } => {
            let e2 = p3 + w;
            proof {
                lemma_boundary(toks, p2, w);
            }
            if e2 < toks.len() && toks[e2] is Identifier {
                match p_map_entries(toks, e2, w) {
                    Ok((rest, p4)) => Ok((seq![node] + comments + rest, p4)),
                    Err(er) => Err(er),
                }
            } else {
                Ok((seq![node] + comments, p3))
            }
        },
    }
}

/// One document-level entry `key: value`, starting at its `Identifier`,
/// followed by the rest of the document.
pub open spec fn p_doc_entry(toks: Seq<GToken>, pos: int) -> Result<Seq<GNode>, GParseErr>
    decreases toks.len() - pos, 0int,
        when 0 <= pos <= toks.len()
{
    if pos >= toks.len() || !(toks[pos] is Identifier) {
        Err(GParseErr { kind: ParseErrorKind::InternalInconsistency, pos })
    } else if !(pos + 1 < toks.len() && toks[pos + 1] is Colon) {
        Err(GParseErr { kind: ParseErrorKind::MalformedDocument, pos: pos + 1 })
    } else {
        let name = toks[pos]->Identifier_0;
        match p_value(toks, pos + 2, None) {
            Ok((vnode, p2)) => if p2 <= pos || p2 > toks.len() {
                Err(GParseErr { kind: ParseErrorKind::InternalInconsistency, pos: p2 })
            } else {
                match p_doc(toks, p2) {
                    Ok(children) => Ok(
                        seq![GNode::Mapping(name, Box::new(vnode), false)] + children,
                    ),
                    Err(er) => Err(er),
                }
            },
            Err(er) => Err(er),
        }
    }
}

/// The document loop: entries, comments, and one optional leading `---`
/// marker, until `EOF`. On success the indentation stack of the parser is
/// empty again: every scope opened inside an entry is closed before the loop
/// sees the next entry.
pub open spec fn p_doc(toks: Seq<GToken>, pos: int) -> Result<Seq<GNode>, GParseErr>
    decreases toks.len() - pos, 1int,
        when 0 <= pos <= toks.len()
{
    if pos >= toks.len() {
        Err(GParseErr { kind: ParseErrorKind::UnterminatedDocument, pos })
    } else {
        match toks[pos] {
            GToken::EOF => Ok(Seq::empty()),
            GToken::Comment(text) => match p_doc(toks, pos + 1) {
                Ok(children) => Ok(seq![GNode::Comment(text)] + children),
                Err(er) => Err(er),
            },
            GToken::Identifier(_) => p_doc_entry(toks, pos),
            GToken::StartDoc => if pos + 1 < toks.len() && toks[pos + 1] is Identifier {
                p_doc_entry(toks, pos + 1)
            } else {
                Err(GParseErr { kind: ParseErrorKind::MalformedDocument, pos: pos + 1 })
            },
            GToken::Space => Err(
                GParseErr { kind: ParseErrorKind::InconsistentIndentation, pos },
            ),
            GToken::TabSpace => Err(
                GParseErr { kind: ParseErrorKind::InconsistentIndentation, pos },
            ),
            _ => Err(GParseErr { kind: ParseErrorKind::MalformedDocument, pos }),
        }
    }
}

/// One `key: value` entry, starting at its `Identifier` key: the key must be
/// followed by `Colon`, and its value is parsed under the enclosing scope
/// `encl`. This is the shape shared by document-level entries, block-mapping
/// entries and `- key:` sequence items.
pub open spec fn p_entry(toks: Seq<GToken>, pos: int, encl: Option<int>) -> Result<
    (GNode, int),
    GParseErr,
> {
    if pos < 0 || pos >= toks.len() || !(toks[pos] is Identifier) {
        Err(GParseErr { kind: ParseErrorKind::InternalInconsistency, pos })
    } else if !(pos + 1 < toks.len() && toks[pos + 1] is Colon) {
        Err(GParseErr { kind: ParseErrorKind::MalformedDocument, pos: pos + 1 })
    } else {
        let name = toks[pos]->Identifier_0;
        match p_value(toks, pos + 2, encl) {
            Ok((vnode, p2)) => Ok((GNode::Mapping(name, Box::new(vnode), false), p2)),
            Err(er) => Err(er),
        }
    }
}

/// A document-level entry is one `key: value` entry parsed with no scope
/// open, followed by the rest of the document.
pub proof fn lemma_doc_entry(toks: Seq<GToken>, pos: int)
    requires
        0 <= pos <= toks.len(),
    ensures
        p_doc_entry(toks, pos) == (match p_entry(toks, pos, Option::None) {
            Ok((node, p2)) => if p2 <= pos || p2 > toks.len() {
                Err(GParseErr { kind: ParseErrorKind::InternalInconsistency, pos: p2 })
            } else {
                match p_doc(toks, p2) {
                    Ok(children) => Ok(seq![node] + children),
                    Err(er) => Err(er),
                }
            },
            Err(er) => Err::<Seq<GNode>, GParseErr>(er),
        }),
{
}

/// The model of parsing a whole token sequence into one document.
pub open spec fn p_document(toks: Seq<GToken>) -> Result<GNode, GParseErr> {
    match p_doc(toks, 0) {
        Ok(children) => Ok(GNode::Document(children)),
        Err(er) => Err(er),
    }
}

/// A parsed value always consumes at least one token and never runs past
/// the end of the sequence.
pub proof fn lemma_value_bounds(toks: Seq<GToken>, pos: int, encl: Option<int>)
    requires
        0 <= pos <= toks.len(),
    ensures
        p_value(toks, pos, encl) matches Ok((node, p2)) ==> pos < p2 <= toks.len(),
    decreases toks.len() - pos, 2int,
{
    lemma_spaces_end(toks, pos);
    let e = spaces_end(toks, pos);
    let w = e - pos;
    if e < toks.len() {
        match toks[e] {
            GToken::LeftSquare => lemma_skip_flow(toks, e + 1, 1),
            GToken::LeftCurly => lemma_skip_flow(toks, e + 1, 1),
            GToken::Dash => {
                if can_open(encl, w) {
                    lemma_seq_items_bounds(toks, e, w);
                }
            },
            GToken::Identifier(_) => {
                if e + 1 < toks.len() && toks[e + 1] is Colon && can_open(encl, w) {
                    lemma_map_entries_bounds(toks, e, w);
                }
            },
            _ => {},
        }
    }
}

/// Sequence items always consume at least one token and never run past the
/// end of the sequence.
pub proof fn lemma_seq_items_bounds(toks: Seq<GToken>, pos: int, w: int)
    requires
        0 <= pos <= toks.len(),
        0 <= w,
    ensures
        p_seq_items(toks, pos, w) matches Ok((items, p)) ==> pos < p <= toks.len(),
    decreases toks.len() - pos, 0int,
{
    if pos < toks.len() && toks[pos] is Dash {
        let q = if pos + 1 < toks.len() && toks[pos + 1] is Space {
            pos + 2
        } else {
            pos + 1
        };
        if q < toks.len() {
            match toks[q] {
                GToken::LeftSquare => {
                    lemma_skip_flow(toks, q + 1, 1);
                    match skip_flow(toks, q + 1, 1) {
                        Ok(p2) => lemma_seq_rest_bounds(
                            toks,
                            pos,
                            p2,
                            GNode::Unsupported(flow_reason()),
                            w,
                        ),
                        Err(_) => {},
                    }
                },
                GToken::LeftCurly => {
                    lemma_skip_flow(toks, q + 1, 1);
                    match skip_flow(toks, q + 1, 1) {
                        Ok(p2) => lemma_seq_rest_bounds(
                            toks,
                            pos,
                            p2,
                            GNode::Unsupported(flow_reason()),
                            w,
                        ),
                        Err(_) => {},
                    }
                },
                GToken::Identifier(name) => {
                    if q + 1 < toks.len() && toks[q + 1] is Colon {
                        lemma_value_bounds(toks, q + 2, Some(w));
                        match p_value(toks, q + 2, Some(w)) {
                            Ok((vnode, p2)) => {
                                if pos < p2 <= toks.len() {
                                    lemma_seq_rest_bounds(
                                        toks,
                                        pos,
                                        p2,
                                        GNode::Mapping(name, Box::new(vnode), false),
                                        w,
                                    );
                                }
                            },
                            Err(_) => {},
                        }
                    } else {
                        lemma_seq_rest_bounds(toks, pos, q + 1, normalize_scalar_view(name), w);
                    }
                },
                GToken::IntVal(v) => lemma_seq_rest_bounds(toks, pos, q + 1, GNode::Int(v), w),
                GToken::FloatVal(t) => lemma_seq_rest_bounds(toks, pos, q + 1, GNode::Float(t), w),
                GToken::StringVal(t) => lemma_seq_rest_bounds(
                    toks,
                    pos,
                    q + 1,
                    normalize_scalar_view(t),
                    w,
                ),
                GToken::BoolVal(b) => lemma_seq_rest_bounds(toks, pos, q + 1, GNode::Bool(b), w),
                GToken::NullVal => lemma_seq_rest_bounds(toks, pos, q + 1, GNode::Null, w),
                GToken::Multiline(_) => lemma_seq_rest_bounds(
                    toks,
                    pos,
                    q + 1,
                    GNode::Unsupported(multiline_reason()),
                    w,
                ),
                _ => {},
            }
        }
    }
}

/// The continuation after one sequence item never moves backwards past the
/// item's end and never runs past the end of the sequence.
pub proof fn lemma_seq_rest_bounds(toks: Seq<GToken>, pos: int, p2: int, node: GNode, w: int)
    requires
        0 <= pos < p2 <= toks.len(),
        0 <= w,
    ensures
        p_seq_rest(toks, p2, node, w) matches Ok((items, p)) ==> pos < p <= toks.len(),
    decreases toks.len() - p2, 1int,
{
    lemma_boundary(toks, p2, w);
    match boundary(toks, p2, w) {
        GBoundary::Sib { comments, pos: p3 } => {
            let e2 = p3 + w;
            if e2 < toks.len() && toks[e2] is Dash {
                lemma_seq_items_bounds(toks, e2, w);
            }
        },
        _ => {},
    }
}

/// Block-mapping entries always consume at least one token and never run
/// past the end of the sequence.
pub proof fn lemma_map_entries_bounds(toks: Seq<GToken>, pos: int, w: int)
    requires
        0 <= pos <= toks.len(),
        0 <= w,
    ensures
        p_map_entries(toks, pos, w) matches Ok((entries, p)) ==> pos < p <= toks.len(),
    decreases toks.len() - pos, 0int,
{
    if pos < toks.len() && toks[pos] is Identifier && pos + 1 < toks.len() && toks[pos + 1]
        is Colon {
        let name = toks[pos]->Identifier_0;
        lemma_value_bounds(toks, pos + 2, Some(w));
        match p_value(toks, pos + 2, Some(w)) {
            Ok((vnode, p2)) => {
                if pos < p2 <= toks.len() {
                    lemma_map_rest_bounds(
                        toks,
                        pos,
                        p2,
                        GNode::Mapping(name, Box::new(vnode), false),
                        w,
                    );
                }
            },
            Err(_) => {},
        }
    }
}

/// The continuation after one block-mapping entry never moves backwards past
/// the entry's end and never runs past the end of the sequence.
pub proof fn lemma_map_rest_bounds(toks: Seq<GToken>, pos: int, p2: int, node: GNode, w: int)
    requires
        0 <= pos < p2 <= toks.len(),
        0 <= w,
    ensures
        p_map_rest(toks, p2, node, w) matches Ok((entries, p)) ==> pos < p <= toks.len(),
    decreases toks.len() - p2, 1int,
{
    lemma_boundary(toks, p2, w);
    match boundary(toks, p2, w) {
        GBoundary::Sib { comments, pos: p3 } => {
            let e2 = p3 + w;
            if e2 < toks.len() && toks[e2] is Identifier {
                lemma_map_entries_bounds(toks, e2, w);
            }
        },
        _ => {},
    }
}

/// A value parse never fails with `InternalInconsistency`.
pub proof fn lemma_value_no_internal(toks: Seq<GToken>, pos: int, encl: Option<int>)
    requires
        0 <= pos <= toks.len(),
    ensures
        p_value(toks, pos, encl) matches Err(g) ==> g.kind != ParseErrorKind::InternalInconsistency,
    decreases toks.len() - pos, 2int,
{
    lemma_spaces_end(toks, pos);
    let e = spaces_end(toks, pos);
    let w = e - pos;
    if e < toks.len() {
        match toks[e] {
            GToken::Dash => {
                if can_open(encl, w) {
                    lemma_seq_items_no_internal(toks, e, w);
                }
            },
            GToken::Identifier(_) => {
                if e + 1 < toks.len() && toks[e + 1] is Colon && can_open(encl, w) {
                    lemma_map_entries_no_internal(toks, e, w);
                }
            },
            _ => {},
        }
    }
}

/// A sequence-items parse that starts at a `Dash` never fails with
/// `InternalInconsistency`.
pub proof fn lemma_seq_items_no_internal(toks: Seq<GToken>, pos: int, w: int)
    requires
        0 <= pos < toks.len(),
        0 <= w,
        toks[pos] is Dash,
    ensures
        p_seq_items(toks, pos, w) matches Err(g) ==> g.kind
            != ParseErrorKind::InternalInconsistency,
    decreases toks.len() - pos, 0int,
{
    let q = if pos + 1 < toks.len() && toks[pos + 1] is Space {
        pos + 2
    } else {
        pos + 1
    };
    if q < toks.len() {
        match toks[q] {
            GToken::LeftSquare => {
                lemma_skip_flow(toks, q + 1, 1);
                match skip_flow(toks, q + 1, 1) {
                    Ok(p2) => lemma_seq_rest_no_internal(
                        toks,
                        pos,
                        p2,
                        GNode::Unsupported(flow_reason()),
                        w,
                    ),
                    Err(_) => {},
                }
            },
            GToken::LeftCurly => {
                lemma_skip_flow(toks, q + 1, 1);
                match skip_flow(toks, q + 1, 1) {
                    Ok(p2) => lemma_seq_rest_no_internal(
                        toks,
                        pos,
                        p2,
                        GNode::Unsupported(flow_reason()),
                        w,
                    ),
                    Err(_) => {},
                }
            },
            GToken::Identifier(name) => {
                if q + 1 < toks.len() && toks[q + 1] is Colon {
                    lemma_value_bounds(toks, q + 2, Some(w));
                    lemma_value_no_internal(toks, q + 2, Some(w));
                    match p_value(toks, q + 2, Some(w)) {
                        Ok((vnode, p2)) => {
                            lemma_seq_rest_no_internal(
                                toks,
                                pos,
                                p2,
                                GNode::Mapping(name, Box::new(vnode), false),
                                w,
                            );
                        },
                        Err(_) => {},
                    }
                } else {
                    lemma_seq_rest_no_internal(toks, pos, q + 1, normalize_scalar_view(name), w);
                }
            },
            GToken::IntVal(v) => lemma_seq_rest_no_internal(toks, pos, q + 1, GNode::Int(v), w),
            GToken::FloatVal(t) => lemma_seq_rest_no_internal(
                toks,
                pos,
                q + 1,
                GNode::Float(t),
                w,
            ),
            GToken::StringVal(t) => lemma_seq_rest_no_internal(
                toks,
                pos,
                q + 1,
                normalize_scalar_view(t),
                w,
            ),
            GToken::BoolVal(b) => lemma_seq_rest_no_internal(toks, pos, q + 1, GNode::Bool(b), w),
            GToken::NullVal => lemma_seq_rest_no_internal(toks, pos, q + 1, GNode::Null, w),
            GToken::Multiline(_) => lemma_seq_rest_no_internal(
                toks,
                pos,
                q + 1,
                GNode::Unsupported(multiline_reason()),
                w,
            ),
            _ => {},
        }
    }
}

/// The continuation after one sequence item never fails with
/// `InternalInconsistency`.
pub proof fn lemma_seq_rest_no_internal(toks: Seq<GToken>, pos: int, p2: int, node: GNode, w: int)
    requires
        0 <= pos < p2 <= toks.len(),
        0 <= w,
    ensures
        p_seq_rest(toks, p2, node, w) matches Err(g) ==> g.kind
            != ParseErrorKind::InternalInconsistency,
    decreases toks.len() - p2, 1int,
{
    lemma_boundary(toks, p2, w);
    match boundary(toks, p2, w) {
        GBoundary::Sib { comments, pos: p3 } => {
            let e2 = p3 + w;
            if e2 < toks.len() && toks[e2] is Dash {
                lemma_seq_items_no_internal(toks, e2, w);
            }
        },
        _ => {},
    }
}

/// A block-mapping parse that starts at an `Identifier` never fails with
/// `InternalInconsistency`.
pub proof fn lemma_map_entries_no_internal(toks: Seq<GToken>, pos: int, w: int)
    requires
        0 <= pos < toks.len(),
        0 <= w,
        toks[pos] is Identifier,
    ensures
        p_map_entries(toks, pos, w) matches Err(g) ==> g.kind
            != ParseErrorKind::InternalInconsistency,
    decreases toks.len() - pos, 0int,
{
    if pos + 1 < toks.len() && toks[pos + 1] is Colon {
        let name = toks[pos]->Identifier_0;
        lemma_value_bounds(toks, pos + 2, Some(w));
        lemma_value_no_internal(toks, pos + 2, Some(w));
        match p_value(toks, pos + 2, Some(w)) {
            Ok((vnode, p2)) => {
                lemma_map_rest_no_internal(
                    toks,
                    pos,
                    p2,
                    GNode::Mapping(name, Box::new(vnode), false),
                    w,
                );
            },
            Err(_) => {},
        }
    }
}

/// The continuation after one block-mapping entry never fails with
/// `InternalInconsistency`.
pub proof fn lemma_map_rest_no_internal(toks: Seq<GToken>, pos: int, p2: int, node: GNode, w: int)
    requires
        0 <= pos < p2 <= toks.len(),
        0 <= w,
    ensures
        p_map_rest(toks, p2, node, w) matches Err(g) ==> g.kind
            != ParseErrorKind::InternalInconsistency,
    decreases toks.len() - p2, 1int,
{
    lemma_boundary(toks, p2, w);
    match boundary(toks, p2, w) {
        GBoundary::Sib { comments, pos: p3 } => {
            let e2 = p3 + w;
            if e2 < toks.len() && toks[e2] is Identifier {
                lemma_map_entries_no_internal(toks, e2, w);
            }
        },
        _ => {},
    }
}

/// The document loop never fails with `InternalInconsistency`.
pub proof fn lemma_doc_no_internal(toks: Seq<GToken>, pos: int)
    requires
        0 <= pos <= toks.len(),
    ensures
        p_doc(toks, pos) matches Err(g) ==> g.kind != ParseErrorKind::InternalInconsistency,
    decreases toks.len() - pos, 1int,
{
    if pos < toks.len() {
        match toks[pos] {
            GToken::Comment(_) => lemma_doc_no_internal(toks, pos + 1),
            GToken::Identifier(_) => lemma_doc_entry_no_internal(toks, pos),
            GToken::StartDoc => {
                if pos + 1 < toks.len() && toks[pos + 1] is Identifier {
                    lemma_doc_entry_no_internal(toks, pos + 1);
                }
            },
            _ => {},
        }
    }
}

/// A document-level entry never fails with `InternalInconsistency`.
pub proof fn lemma_doc_entry_no_internal(toks: Seq<GToken>, pos: int)
    requires
        0 <= pos < toks.len(),
        toks[pos] is Identifier,
    ensures
        p_doc_entry(toks, pos) matches Err(g) ==> g.kind != ParseErrorKind::InternalInconsistency,
    decreases toks.len() - pos, 0int,
{
    if pos + 1 < toks.len() && toks[pos + 1] is Colon {
        lemma_value_bounds(toks, pos + 2, Option::None);
        lemma_value_no_internal(toks, pos + 2, Option::None);
        match p_value(toks, pos + 2, Option::None) {
            Ok((vnode, p2)) => {
                lemma_doc_no_internal(toks, p2);
            },
            Err(_) => {},
        }
    }
}

/// `InternalInconsistency` marks a defect of the parser, never of the input:
/// no token sequence at all makes the parse model fail with it, so by the
/// exact contract of `Parser::parse`, no input makes the parser report it.
pub proof fn lemma_no_internal_inconsistency(toks: Seq<GToken>)
    ensures
        p_document(toks) matches Err(g) ==> g.kind != ParseErrorKind::InternalInconsistency,
{
    lemma_doc_no_internal(toks, 0);
}

/// Tabs are rejected at document level: a document whose first token is a
/// tab — or any leading whitespace at all, since document entries stand at
/// width zero — fails with `InconsistentIndentation`, and with the parser's
/// exact contract this holds of `parse` itself.
pub proof fn lemma_tab_at_document_start(toks: Seq<GToken>)
    requires
        toks.len() > 0,
        toks[0] is TabSpace || toks[0] is Space,
    ensures
        p_document(toks) matches Err(g) && g.kind == ParseErrorKind::InconsistentIndentation,
{
}

/// Tabs are rejected inside the leading whitespace of a value line: when the
/// token after the space run at a value position is a tab, the value parse
/// fails with `InconsistentIndentation`, whatever the enclosing scope is.
pub proof fn lemma_tab_in_value_indentation(toks: Seq<GToken>, pos: int, encl: Option<int>)
    requires
        0 <= pos <= toks.len(),
        spaces_end(toks, pos) < toks.len(),
        toks[spaces_end(toks, pos)] is TabSpace,
    ensures
        p_value(toks, pos, encl) matches Err(g) && g.kind
            == ParseErrorKind::InconsistentIndentation,
{
    lemma_spaces_end(toks, pos);
}

/// Tabs are rejected inside the leading whitespace of a sibling line: a tab
/// after the space run at a line boundary makes the boundary fail with
/// `InconsistentIndentation`, whatever the scope width is.
pub proof fn lemma_tab_at_boundary(toks: Seq<GToken>, pos: int, w: int)
    requires
        0 <= pos <= toks.len(),
        spaces_end(toks, pos) < toks.len(),
        toks[spaces_end(toks, pos)] is TabSpace,
    ensures
        boundary(toks, pos, w) matches GBoundary::Fail(g) && g.kind
            == ParseErrorKind::InconsistentIndentation,
{
    lemma_spaces_end(toks, pos);
}

} // verus!
