//! The indentation round-trip law: a synthetic document built with a known,
//! strictly increasing indentation pattern parses to a chain of nested
//! mappings whose depth equals the number of distinct indentation widths
//! used, in that order.

use vstd::prelude::*;

use crate::errors::GParseErr;
use crate::objects::GNode;
use crate::parse_spec::can_open;
use crate::parse_spec::p_doc;
use crate::parse_spec::p_document;
use crate::parse_spec::p_entry;
use crate::parse_spec::p_map_entries;
use crate::parse_spec::p_map_rest;
use crate::parse_spec::p_value;
use crate::parse_spec::spaces_end;
use crate::parse_spec::boundary;
use crate::parse_spec::GBoundary;
use crate::parse_spec::lemma_doc_entry;
use crate::tokens::GToken;

verus! {

/// An indentation run: `w` `Space` tokens.
pub open spec fn pad(w: int) -> Seq<GToken> {
    Seq::new(w as nat, |i: int| GToken::Space)
}

/// The space run starting at `pos` ends exactly after the `w` spaces that
/// stand there.
proof fn lemma_spaces_end_run(toks: Seq<GToken>, pos: int, w: int)
    requires
        0 <= pos,
        0 <= w,
        pos + w <= toks.len(),
        forall|d: int| 0 <= d < w ==> #[trigger] toks[pos + d] is Space,
        pos + w == toks.len() || !(toks[pos + w] is Space),
    ensures
        spaces_end(toks, pos) == pos + w,
    decreases w,
{
    if w > 0 {
        assert(toks[pos + 0] is Space);
        assert forall|d: int| 0 <= d < w - 1 implies #[trigger] toks[pos + 1 + d] is Space by {
            assert(toks[pos + (d + 1)] is Space);
        }
        lemma_spaces_end_run(toks, pos + 1, w - 1);
    }
}

/// The tokens of the synthetic document from the value of level `i` on: the
/// innermost value is ` 1` followed by the final `EOF`; every outer value is
/// the next level's indented `key:` line.
pub open spec fn chain_value_toks(names: Seq<Seq<char>>, widths: Seq<int>, i: int) -> Seq<GToken>
    decreases names.len() - i,
        when 0 <= i < names.len() && names.len() == widths.len()
{
    if i == names.len() - 1 {
        seq![GToken::Space, GToken::IntVal(1), GToken::EOF]
    } else {
        pad(widths[i + 1]) + seq![GToken::Identifier(names[i + 1]), GToken::Colon]
            + chain_value_toks(names, widths, i + 1)
    }
}

/// The node that the value of level `i` parses to: the innermost scalar, or
/// the next level's mapping.
pub open spec fn chain_value_node(names: Seq<Seq<char>>, i: int) -> GNode
    decreases names.len() - i,
        when 0 <= i < names.len()
{
    if i == names.len() - 1 {
        GNode::Int(1)
    } else {
        GNode::Mapping(names[i + 1], Box::new(chain_value_node(names, i + 1)), false)
    }
}

/// The whole synthetic document: the level-zero key at width zero, then the
/// chain of nested values.
pub open spec fn chain_doc_toks(names: Seq<Seq<char>>, widths: Seq<int>) -> Seq<GToken> {
    seq![GToken::Identifier(names[0]), GToken::Colon] + chain_value_toks(names, widths, 0)
}

/// The nesting depth of a node: how many mapping levels it holds on its
/// single spine.
pub open spec fn mapping_depth(n: GNode) -> int
    decreases n,
{
    match n {
        GNode::Mapping(_, value, _) => 1 + mapping_depth(*value),
        _ => 0,
    }
}

/// The widths are strictly increasing and start non-negative.
pub open spec fn increasing_widths(widths: Seq<int>) -> bool {
    &&& forall|j: int| 0 <= j < widths.len() ==> #[trigger] widths[j] >= 0
    &&& forall|j: int| 0 <= j < widths.len() - 1 ==> #[trigger] widths[j] < widths[j + 1]
}

/// The value of level `i` of the synthetic document parses exactly to the
/// chain node of level `i`, consuming everything up to the final `EOF`.
proof fn lemma_chain_value(
    toks: Seq<GToken>,
    names: Seq<Seq<char>>,
    widths: Seq<int>,
    i: int,
    pos: int,
    encl: Option<int>,
)
    requires
        names.len() == widths.len(),
        0 <= i < names.len(),
        increasing_widths(widths),
        0 <= pos <= toks.len(),
        toks.subrange(pos, toks.len() as int) == chain_value_toks(names, widths, i),
        i + 1 < names.len() ==> can_open(encl, widths[i + 1]),
    ensures
        p_value(toks, pos, encl) == Ok::<(GNode, int), GParseErr>(
            (chain_value_node(names, i), toks.len() - 1),
        ),
        toks[toks.len() - 1] is EOF,
        mapping_depth(chain_value_node(names, i)) == names.len() - 1 - i,
    decreases names.len() - i,
{
    let suffix = chain_value_toks(names, widths, i);
    let n = toks.len() as int;
    assert(suffix.len() == n - pos);
    assert forall|d: int| 0 <= d < suffix.len() implies toks[pos + d] == #[trigger] suffix[d] by {
        assert(toks.subrange(pos, n)[d] == toks[pos + d]);
    }
    if i == names.len() - 1 {
        assert(toks[pos] == suffix[0]);
        assert(toks[pos + 1] == suffix[1]);
        assert(toks[pos + 2] == suffix[2]);
        assert(toks[n - 1] is EOF);
        lemma_spaces_end_run(toks, pos, 1);
        assert(p_value(toks, pos, encl) == Ok::<(GNode, int), GParseErr>(
            (GNode::Int(1), pos + 2),
        ));
    } else {
        let w = widths[i + 1];
        let rest = chain_value_toks(names, widths, i + 1);
        assert(suffix == pad(w) + seq![GToken::Identifier(names[i + 1]), GToken::Colon] + rest);
        assert forall|d: int| 0 <= d < w implies #[trigger] suffix[d] is Space by {
            assert(suffix[d] == pad(w)[d]);
        }
        assert(suffix[w] == GToken::Identifier(names[i + 1]));
        assert(suffix[w + 1] == GToken::Colon);
        assert forall|d: int| 0 <= d < w implies #[trigger] toks[pos + d] is Space by {
            assert(toks[pos + d] == suffix[d]);
        }
        let e = pos + w;
        assert(toks[e] == GToken::Identifier(names[i + 1]));
        assert(toks[e + 1] == GToken::Colon);
        lemma_spaces_end_run(toks, pos, w);
        // the suffix that the nested value starts with
        assert(forall|d: int| 0 <= d < rest.len() ==> rest[d] == #[trigger] suffix[w + 2 + d]);
        assert(toks.subrange(e + 2, n) =~= rest) by {
            assert(rest.len() == n - (e + 2));
            assert forall|d: int| 0 <= d < rest.len() implies toks.subrange(e + 2, n)[d]
                == rest[d] by {
                assert(toks.subrange(e + 2, n)[d] == toks[e + 2 + d]);
                assert(toks[e + 2 + d] == suffix[w + 2 + d]);
            }
        }
        lemma_chain_value(toks, names, widths, i + 1, e + 2, Some(w));
        let inner = chain_value_node(names, i + 1);
        let entry = GNode::Mapping(names[i + 1], Box::new(inner), false);
        assert(p_entry(toks, e, Some(w)) == Ok::<(GNode, int), GParseErr>((entry, n - 1)));
        // the boundary after the nested value: the final EOF closes the scope
        assert(spaces_end(toks, n - 1) == n - 1) by {
            lemma_spaces_end_run(toks, n - 1, 0);
        }
        assert(boundary(toks, n - 1, w) == (GBoundary::End {
            comments: Seq::<GNode>::empty(),
            pos: n - 1,
        }));
        assert(p_map_rest(toks, n - 1, entry, w) == Ok::<(Seq<GNode>, int), GParseErr>(
            (seq![entry] + Seq::<GNode>::empty(), n - 1),
        ));
        assert(seq![entry] + Seq::<GNode>::empty() =~= seq![entry]);
        assert(p_map_entries(toks, e, w) == Ok::<(Seq<GNode>, int), GParseErr>(
            (seq![entry], n - 1),
        ));
        assert(can_open(encl, w));
        assert(p_value(toks, pos, encl) == Ok::<(GNode, int), GParseErr>((entry, n - 1)));
    }
}

/// Indentation round-trip: a synthetic document whose levels use strictly
/// increasing indentation widths, the outermost at width zero, parses to one
/// chain of nested mappings whose depth equals the number of levels — which
/// is the number of distinct widths used, in the same order. With the exact
/// contract of `Parser::parse`, the same holds of the parser itself.
pub proof fn lemma_indentation_round_trip(names: Seq<Seq<char>>, widths: Seq<int>)
    requires
        names.len() == widths.len(),
        names.len() >= 1,
        widths[0] == 0,
        increasing_widths(widths),
    ensures
        p_document(chain_doc_toks(names, widths)) == Ok::<GNode, GParseErr>(
            GNode::Document(
                seq![GNode::Mapping(names[0], Box::new(chain_value_node(names, 0)), false)],
            ),
        ),
        mapping_depth(
            GNode::Mapping(names[0], Box::new(chain_value_node(names, 0)), false),
        ) == names.len(),
{
    let toks = chain_doc_toks(names, widths);
    let rest = chain_value_toks(names, widths, 0);
    let n = toks.len() as int;
    assert(toks[0] == GToken::Identifier(names[0]));
    assert(toks[1] == GToken::Colon);
    assert(toks.subrange(2, n) =~= rest) by {
        assert forall|d: int| 0 <= d < rest.len() implies toks.subrange(2, n)[d] == rest[d] by {
            assert(toks.subrange(2, n)[d] == toks[2 + d]);
            assert(toks[2 + d] == rest[d]);
        }
    }
    lemma_chain_value(toks, names, widths, 0, 2, Option::None);
    let value = chain_value_node(names, 0);
    let entry = GNode::Mapping(names[0], Box::new(value), false);
    assert(p_entry(toks, 0, Option::None) == Ok::<(GNode, int), GParseErr>((entry, n - 1)));
    assert(toks[n - 1] is EOF);
    assert(p_doc(toks, n - 1) == Ok::<Seq<GNode>, GParseErr>(Seq::empty()));
    lemma_doc_entry(toks, 0);
    assert(seq![entry] + Seq::<GNode>::empty() =~= seq![entry]);
    assert(p_doc(toks, 0) == Ok::<Seq<GNode>, GParseErr>(seq![entry]));
}

} // verus!
