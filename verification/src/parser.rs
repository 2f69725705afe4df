//! The parser: indentation-stack recursive descent over the token sequence,
//! producing exactly the tree that [`crate::parse_spec::p_document`]
//! describes, or the parse error it names. No input makes it panic.

use vstd::prelude::*;
use vstd::string::StringExecFns;

use crate::errors::GParseErr;
use crate::errors::ParseErrorKind;
use crate::errors::YamlParserError;
use crate::errors::parse_err_matches;
use crate::objects::GNode;
use crate::objects::YamlObject;
use crate::objects::lemma_nodes_view;
use crate::objects::lemma_nodes_view_push;
use crate::objects::node_view;
use crate::objects::nodes_view;
use crate::parse_spec::GBoundary;
use crate::parse_spec::boundary;
use crate::parse_spec::can_open;
use crate::parse_spec::flow_reason;
use crate::parse_spec::lemma_boundary;
use crate::parse_spec::lemma_doc_entry;
use crate::parse_spec::lemma_skip_flow;
use crate::parse_spec::lemma_spaces_end;
use crate::parse_spec::normalize_scalar_view;
use crate::parse_spec::p_doc;
use crate::parse_spec::p_document;
use crate::parse_spec::p_entry;
use crate::parse_spec::p_map_entries;
use crate::parse_spec::p_map_rest;
use crate::parse_spec::p_seq_items;
use crate::parse_spec::p_seq_rest;
use crate::parse_spec::p_value;
use crate::parse_spec::skip_flow;
use crate::parse_spec::spaces_end;
use crate::scan_spec::toks_view;
use crate::tokens::GToken;
use crate::tokens::YamlToken;
use crate::tracer::DummyTracer;
use crate::tracer::Tracer;

verus! {

/// The enclosing scope that the indentation stack presents: `None` when no
/// scope is open, otherwise the innermost (widest) open width.
pub open spec fn top_opt(stack: Seq<usize>) -> Option<int> {
    if stack.len() == 0 {
        Option::None
    } else {
        Option::Some(stack.last() as int)
    }
}

/// The indentation stack invariant: widths strictly increase from the
/// outermost scope to the innermost.
pub open spec fn wf_stack(stack: Seq<usize>) -> bool {
    forall|i: int, j: int| 0 <= i < j < stack.len() ==> stack[i] < stack[j]
}

/// The parser: a cursor position into the token sequence, the stack of open
/// indentation widths, and an injected diagnostics sink.
pub struct Parser<T: Tracer> {
    current_pos: usize,
    stack: Vec<usize>,
    tracer: T,
}

impl Parser<DummyTracer> {
    /// A parser with the default, silent diagnostics sink.
    pub fn new() -> (p: Parser<DummyTracer>)
        ensures
            p.indent_depth() == 0,
    {
        Parser::new_with_tracer(DummyTracer)
    }
}

impl<T: Tracer> Parser<T> {
    /// A parser that reports informational messages to the given sink.
    pub fn new_with_tracer(tracer: T) -> (p: Parser<T>)
        ensures
            p.indent_depth() == 0,
    {
        Parser { current_pos: 0, stack: Vec::new(), tracer }
    }

    /// How many indentation scopes are open. Zero after every successful
    /// parse.
    pub closed spec fn indent_depth(&self) -> nat {
        self.stack@.len()
    }

    /// Take the token at the current position of the stream.
    fn take<'a>(&self, tokens: &'a Vec<YamlToken>) -> (t: &'a YamlToken)
        requires
            self.current_pos < tokens@.len(),
        ensures
            *t == tokens@[self.current_pos as int],
    {
        &tokens[self.current_pos]
    }

    /// Consume the token at the current position without keeping it.
    fn consume(&mut self, tokens: &Vec<YamlToken>)
        requires
            old(self).current_pos < tokens@.len(),
        ensures
            final(self).current_pos == old(self).current_pos + 1,
            final(self).stack == old(self).stack,
            final(self).tracer == old(self).tracer,
    {
        // the executable length pins tokens@.len() within usize
        let _n = tokens.len();
        self.current_pos = self.current_pos + 1;
    }

    /// The number of consecutive `Space` tokens at the current position: the
    /// indentation width when the position is a line start.
    fn count_spaces(&self, tokens: &Vec<YamlToken>) -> (w: usize)
        requires
            self.current_pos as int <= tokens@.len(),
        ensures
            self.current_pos + w == spaces_end(toks_view(tokens@), self.current_pos as int),
            self.current_pos + w <= tokens@.len(),
    {
        let ghost gt = toks_view(tokens@);
        let n = tokens.len();
        let mut j = self.current_pos;
        while j < n && matches!(tokens[j], YamlToken::Space)
            invariant
                self.current_pos <= j <= n,
                n == tokens@.len(),
                gt == toks_view(tokens@),
                spaces_end(gt, self.current_pos as int) == spaces_end(gt, j as int),
            decreases n - j,
        {
            proof {
                assert(gt[j as int] == tokens@[j as int]@);
            }
            j = j + 1;
        }
        proof {
            if j < n {
                assert(gt[j as int] == tokens@[j as int]@);
            }
        }
        j - self.current_pos
    }

    /// Consume exactly the `w` `Space` tokens of a sibling line's
    /// indentation.
    fn consume_scope(&mut self, tokens: &Vec<YamlToken>, w: usize)
        requires
            old(self).current_pos + w <= tokens@.len(),
        ensures
            final(self).current_pos == old(self).current_pos + w,
            final(self).stack == old(self).stack,
            final(self).tracer == old(self).tracer,
    {
        // the executable length pins tokens@.len() within usize
        let _n = tokens.len();
        self.current_pos = self.current_pos + w;
    }

    /// Consume one `Space` token if the current position holds one: the
    /// optional separator after `:` or `-`.
    fn consume_space_if_exit(&mut self, tokens: &Vec<YamlToken>)
        requires
            old(self).current_pos as int <= tokens@.len(),
        ensures
            final(self).current_pos as int == if old(self).current_pos < tokens@.len()
                && toks_view(tokens@)[old(self).current_pos as int] is Space {
                old(self).current_pos as int + 1
            } else {
                old(self).current_pos as int
            },
            final(self).stack == old(self).stack,
            final(self).tracer == old(self).tracer,
    {
        let n = tokens.len();
        if self.current_pos < n {
            proof {
                assert(toks_view(tokens@)[self.current_pos as int] == tokens@[self.current_pos as int]@);
            }
            if matches!(tokens[self.current_pos], YamlToken::Space) {
                self.current_pos = self.current_pos + 1;
            }
        }
    }

    /// Open a new indentation scope of width `w`; only called when `w` is
    /// wider than every open scope.
    fn open_scope(&mut self, w: usize)
        requires
            wf_stack(old(self).stack@),
            can_open(top_opt(old(self).stack@), w as int),
        ensures
            final(self).stack@ == old(self).stack@.push(w),
            wf_stack(final(self).stack@),
            top_opt(final(self).stack@) == Option::Some(w as int),
            final(self).current_pos == old(self).current_pos,
            final(self).tracer == old(self).tracer,
    {
        proof {
            let st = self.stack@;
            assert forall|i: int, j: int|
                0 <= i < j < st.push(w).len() implies st.push(w)[i] < st.push(w)[j] by {
                if j < st.len() {
                } else {
                    if st.len() > 0 {
                        assert(st[i] <= st.last() || i == st.len() - 1 || st[i] < st[st.len() - 1]);
                        assert(st[i] <= st[st.len() - 1]);
                    }
                }
            }
        }
        self.stack.push(w);
    }

    /// Close the innermost indentation scope.
    fn close_scope(&mut self)
        requires
            wf_stack(old(self).stack@),
            old(self).stack@.len() > 0,
        ensures
            final(self).stack@ == old(self).stack@.drop_last(),
            wf_stack(final(self).stack@),
            final(self).current_pos == old(self).current_pos,
            final(self).tracer == old(self).tracer,
    {
        let _ = self.stack.pop();
        proof {
            assert(self.stack@ =~= old(self).stack@.drop_last());
        }
    }

    /// A short description of a token, for error reports.
    fn token_desc(t: &YamlToken) -> String {
        match t {
            YamlToken::Identifier(_) => String::from_str("identifier"),
            YamlToken::NullVal => String::from_str("null literal"),
            YamlToken::IntVal(_) => String::from_str("integer literal"),
            YamlToken::FloatVal(_) => String::from_str("float literal"),
            YamlToken::StringVal(_) => String::from_str("string literal"),
            YamlToken::BoolVal(_) => String::from_str("boolean literal"),
            YamlToken::StartDoc => String::from_str("start-of-document marker"),
            YamlToken::EndDoc => String::from_str("end-of-document marker"),
            YamlToken::Space => String::from_str("space"),
            YamlToken::TabSpace => String::from_str("tab"),
            YamlToken::Colon => String::from_str("colon"),
            YamlToken::Comment(_) => String::from_str("comment"),
            YamlToken::Dash => String::from_str("dash"),
            YamlToken::Comma => String::from_str("comma"),
            YamlToken::LeftCurly => String::from_str("left curly brace"),
            YamlToken::RightCurly => String::from_str("right curly brace"),
            YamlToken::LeftSquare => String::from_str("left square brace"),
            YamlToken::RightSquare => String::from_str("right square brace"),
            YamlToken::Multiline(_) => String::from_str("multiline marker"),
            YamlToken::EOF => String::from_str("end of stream"),
        }
    }

    /// Build the error value for a failure of the given kind at the given
    /// token position.
    fn return_error(
        &self,
        kind: ParseErrorKind,
        pos: usize,
        tokens: &Vec<YamlToken>,
    ) -> (e: YamlParserError)
        ensures
            e.kind == kind,
            e.pos == pos,
    {
        let token = if pos < tokens.len() {
            Self::token_desc(&tokens[pos])
        } else {
            String::from_str("end of stream")
        };
        YamlParserError { kind, pos, token }
    }

    /// Normalize a bare or quoted scalar text into its node: `true` and
    /// `false` become booleans, `null` and `~` become null, anything else
    /// stays text.
    fn normalize_scalar(text: String) -> (node: YamlObject)
        ensures
            node_view(node) == normalize_scalar_view(text@),
    {
        if text == String::from_str("true") {
            YamlObject::Bool(true)
        } else if text == String::from_str("false") {
            YamlObject::Bool(false)
        } else if text == String::from_str("null") || text == String::from_str("~") {
            YamlObject::Null
        } else {
            YamlObject::Str(text)
        }
    }

    /// Consume one literal token and produce its scalar node; bare
    /// identifiers and quoted text are normalized alike.
    fn parse_literal_val(&mut self, tokens: &Vec<YamlToken>) -> (node: YamlObject)
        requires
            old(self).current_pos < tokens@.len(),
            is_literal(toks_view(tokens@)[old(self).current_pos as int]),
        ensures
            node_view(node) == lit_view(toks_view(tokens@)[old(self).current_pos as int]),
            final(self).current_pos == old(self).current_pos + 1,
            final(self).stack == old(self).stack,
            final(self).tracer == old(self).tracer,
    {
        proof {
            assert(toks_view(tokens@)[self.current_pos as int]
                == tokens@[self.current_pos as int]@);
        }
        let node = match &tokens[self.current_pos] {
            YamlToken::IntVal(v) => YamlObject::Int(*v),
            YamlToken::FloatVal(s) => YamlObject::Float(s.clone()),
            YamlToken::StringVal(s) => Self::normalize_scalar(s.clone()),
            YamlToken::BoolVal(b) => YamlObject::Bool(*b),
            YamlToken::NullVal => YamlObject::Null,
            YamlToken::Identifier(s) => Self::normalize_scalar(s.clone()),
            _ => YamlObject::Null,
        };
        self.consume(tokens);
        node
    }

    /// Walk over a flow-style collection, which the tree keeps only as an
    /// `Unsupported` placeholder; the opening bracket stands at the current
    /// position. A collection still open at the end of the stream is an
    /// `UnterminatedDocument` error.
    #[verifier::loop_isolation(false)]
    fn parse_flow_collection(&mut self, tokens: &Vec<YamlToken>) -> (r: Result<
        YamlObject,
        YamlParserError,
    >)
        requires
            old(self).current_pos < tokens@.len(),
        ensures
            final(self).stack == old(self).stack,
            final(self).tracer == old(self).tracer,
            final(self).current_pos as int <= tokens@.len(),
            match r {
                Ok(node) => skip_flow(toks_view(tokens@), old(self).current_pos + 1, 1) matches Ok(
                    p2,
                ) && final(self).current_pos as int == p2 && node_view(node) == GNode::Unsupported(
                    flow_reason(),
                ),
                Err(e) => skip_flow(toks_view(tokens@), old(self).current_pos + 1, 1) matches Err(
                    stuck,
                ) && e.kind == ParseErrorKind::UnterminatedDocument && e.pos as int == stuck,
            },
    {
        let ghost gt = toks_view(tokens@);
        let ghost pos0 = self.current_pos as int;
        let ghost st0 = self.stack@;
        let ghost tr0 = self.tracer;
        let n = tokens.len();
        self.consume(tokens);
        let mut depth: usize = 1;
        loop
            invariant
                pos0 + 1 <= self.current_pos as int <= n as int,
                n == tokens@.len(),
                gt == toks_view(tokens@),
                1 <= depth,
                depth as int <= self.current_pos as int - pos0,
                self.stack@ == st0,
                self.stack == old(self).stack,
                self.tracer == tr0,
                self.tracer == old(self).tracer,
                skip_flow(gt, pos0 + 1, 1) == skip_flow(
                    gt,
                    self.current_pos as int,
                    depth as int,
                ),
            decreases n - self.current_pos,
        {
            if self.current_pos >= n {
                return Err(
                    self.return_error(
                        ParseErrorKind::UnterminatedDocument,
                        self.current_pos,
                        tokens,
                    ),
                );
            }
            proof {
                assert(gt[self.current_pos as int] == tokens@[self.current_pos as int]@);
            }
            match self.take(tokens) {
                YamlToken::EOF => {
                    return Err(
                        self.return_error(
                            ParseErrorKind::UnterminatedDocument,
                            self.current_pos,
                            tokens,
                        ),
                    );
                },
                YamlToken::LeftSquare => {
                    depth = depth + 1;
                    self.consume(tokens);
                },
                YamlToken::LeftCurly => {
                    depth = depth + 1;
                    self.consume(tokens);
                },
                YamlToken::RightSquare => {
                    if depth <= 1 {
                        self.consume(tokens);
                        return Ok(
                            YamlObject::Unsupported(
                                String::from_str("flow collections are not supported"),
                            ),
                        );
                    } else {
                        depth = depth - 1;
                        self.consume(tokens);
                    }
                },
                YamlToken::RightCurly => {
                    if depth <= 1 {
                        self.consume(tokens);
                        return Ok(
                            YamlObject::Unsupported(
                                String::from_str("flow collections are not supported"),
                            ),
                        );
                    } else {
                        depth = depth - 1;
                        self.consume(tokens);
                    }
                },
                _ => {
                    self.consume(tokens);
                },
            }
        }
    }

    /// Decide, at a line boundary inside a scope of width `w`, whether the
    /// next line continues the scope as a sibling (`Ok(true)`, with its
    /// indentation left unconsumed) or closes it (`Ok(false)`). Comment
    /// lines crossed on the way are recorded as siblings and never take part
    /// in the width comparison.
    #[verifier::loop_isolation(false)]
    fn consume_or_close_scope(
        &mut self,
        tokens: &Vec<YamlToken>,
        w: usize,
        siblings: &mut Vec<YamlObject>,
    ) -> (r: Result<bool, YamlParserError>)
        requires
            old(self).current_pos as int <= tokens@.len(),
        ensures
            final(self).stack == old(self).stack,
            final(self).tracer == old(self).tracer,
            final(self).current_pos as int <= tokens@.len(),
            old(self).current_pos <= final(self).current_pos,
            match r {
                Ok(sib) => if sib {
                    boundary(toks_view(tokens@), old(self).current_pos as int, w as int) matches
                        GBoundary::Sib { comments, pos } && final(self).current_pos as int == pos
                        && nodes_view(final(siblings)@) == nodes_view(old(siblings)@) + comments
                } else {
                    boundary(toks_view(tokens@), old(self).current_pos as int, w as int) matches
                        GBoundary::End { comments, pos } && final(self).current_pos as int == pos
                        && nodes_view(final(siblings)@) == nodes_view(old(siblings)@) + comments
                },
                Err(e) => boundary(toks_view(tokens@), old(self).current_pos as int, w as int)
                    matches GBoundary::Fail(g) && parse_err_matches(e, g),
            },
    {
        let ghost gt = toks_view(tokens@);
        let ghost pos0 = self.current_pos as int;
        let ghost st0 = self.stack@;
        let ghost tr0 = self.tracer;
        let ghost sib0 = siblings@;
        let ghost mut done: Seq<GNode> = Seq::empty();
        let n = tokens.len();
        proof {
            assert(nodes_view(siblings@) =~= nodes_view(sib0) + done);
        }
        loop
            invariant
                pos0 <= self.current_pos as int <= n as int,
                n == tokens@.len(),
                gt == toks_view(tokens@),
                self.stack@ == st0,
                self.stack == old(self).stack,
                self.tracer == tr0,
                self.tracer == old(self).tracer,
                sib0 == old(siblings)@,
                nodes_view(siblings@) == nodes_view(sib0) + done,
                match boundary(gt, self.current_pos as int, w as int) {
                    GBoundary::Sib { comments, pos } => boundary(gt, pos0, w as int) == (
                    GBoundary::Sib { comments: done + comments, pos }),
                    GBoundary::End { comments, pos } => boundary(gt, pos0, w as int) == (
                    GBoundary::End { comments: done + comments, pos }),
                    GBoundary::Fail(g) => boundary(gt, pos0, w as int) == GBoundary::Fail(g),
                },
            decreases n - self.current_pos,
        {
            let ghost cur = self.current_pos as int;
            let w2 = self.count_spaces(tokens);
            let e = self.current_pos + w2;
            proof {
                lemma_spaces_end(gt, cur);
            }
            if e >= n {
                self.consume_scope(tokens, w2);
                proof {
                    assert(boundary(gt, cur, w as int) == (GBoundary::End {
                        comments: Seq::<GNode>::empty(),
                        pos: e as int,
                    }));
                    assert(done + Seq::<GNode>::empty() =~= done);
                }
                return Ok(false);
            }
            proof {
                assert(gt[e as int] == tokens@[e as int]@);
            }
            match &tokens[e] {
                YamlToken::Comment(text) => {
                    let node = YamlObject::Comment(text.clone());
                    proof {
                        lemma_nodes_view_push(siblings@, node);
                    }
                    siblings.push(node);
                    proof {
                        let c = GNode::Comment(text@);
                        assert((nodes_view(sib0) + done).push(c) =~= nodes_view(sib0) + done.push(
                            c,
                        ));
                        let ghost next = boundary(gt, e as int + 1, w as int);
                        match next {
                            GBoundary::Sib { comments, pos } => {
                                assert(boundary(gt, cur, w as int) == (GBoundary::Sib {
                                    comments: seq![c] + comments,
                                    pos,
                                }));
                                assert(done + (seq![c] + comments) =~= done.push(c) + comments);
                            },
                            GBoundary::End { comments, pos } => {
                                assert(boundary(gt, cur, w as int) == (GBoundary::End {
                                    comments: seq![c] + comments,
                                    pos,
                                }));
                                assert(done + (seq![c] + comments) =~= done.push(c) + comments);
                            },
                            GBoundary::Fail(g) => {},
                        }
                        done = done.push(c);
                    }
                    self.consume_scope(tokens, w2);
                    self.consume(tokens);
                },
                YamlToken::TabSpace => {
                    return Err(
                        self.return_error(ParseErrorKind::InconsistentIndentation, e, tokens),
                    );
                },
                YamlToken::EOF => {
                    self.consume_scope(tokens, w2);
                    proof {
                        assert(boundary(gt, cur, w as int) == (GBoundary::End {
                            comments: Seq::<GNode>::empty(),
                            pos: e as int,
                        }));
                        assert(done + Seq::<GNode>::empty() =~= done);
                    }
                    return Ok(false);
                },
                _ => {
                    if w2 > w {
                        return Err(
                            self.return_error(ParseErrorKind::InconsistentIndentation, e, tokens),
                        );
                    } else if w2 == w {
                        proof {
                            assert(boundary(gt, cur, w as int) == (GBoundary::Sib {
                                comments: Seq::<GNode>::empty(),
                                pos: cur,
                            }));
                            assert(done + Seq::<GNode>::empty() =~= done);
                        }
                        return Ok(true);
                    } else {
                        proof {
                            assert(boundary(gt, cur, w as int) == (GBoundary::End {
                                comments: Seq::<GNode>::empty(),
                                pos: cur,
                            }));
                            assert(done + Seq::<GNode>::empty() =~= done);
                        }
                        return Ok(false);
                    }
                },
            }
        }
    }
    /// Parse one `key: value` entry whose `Identifier` key stands at the
    /// current position; `name` is that key's text. The entry's value is
    /// parsed under the innermost open scope.
    fn parse_identifier(&mut self, name: &String, tokens: &Vec<YamlToken>) -> (r: Result<
        YamlObject,
        YamlParserError,
    >)
        requires
            old(self).current_pos < tokens@.len(),
            toks_view(tokens@)[old(self).current_pos as int] == GToken::Identifier(name@),
            wf_stack(old(self).stack@),
        ensures
            final(self).tracer == old(self).tracer,
            final(self).current_pos as int <= tokens@.len(),
            match r {
                Ok(node) => p_entry(
                    toks_view(tokens@),
                    old(self).current_pos as int,
                    top_opt(old(self).stack@),
                ) matches Ok((gn, p2)) && node_view(node) == gn && final(self).current_pos as int
                    == p2 && final(self).stack@ == old(self).stack@ && wf_stack(
                    final(self).stack@,
                ),
                Err(e) => p_entry(
                    toks_view(tokens@),
                    old(self).current_pos as int,
                    top_opt(old(self).stack@),
                ) matches Err(g) && parse_err_matches(e, g),
            },
        decreases tokens@.len() - self.current_pos, 0int,
    {
        let ghost gt = toks_view(tokens@);
        let ghost pos0 = self.current_pos as int;
        let n = tokens.len();
        self.consume(tokens);
        if self.current_pos >= n {
            return Err(
                self.return_error(ParseErrorKind::MalformedDocument, self.current_pos, tokens),
            );
        }
        proof {
            assert(gt[self.current_pos as int] == tokens@[self.current_pos as int]@);
        }
        if !matches!(tokens[self.current_pos], YamlToken::Colon) {
            return Err(
                self.return_error(ParseErrorKind::MalformedDocument, self.current_pos, tokens),
            );
        }
        self.consume(tokens);
        match self.parse_mapping(tokens) {
            Ok(value) => Ok(YamlObject::Mapping(name.clone(), Box::new(value), false)),
            Err(e) => Err(e),
        }
    }

    /// Parse the value of a mapping entry, the current position standing
    /// just after its `Colon`: an inline scalar, a flow or multiline
    /// placeholder, or a nested sequence or block mapping opened by the
    /// indentation rule.
    fn parse_mapping(&mut self, tokens: &Vec<YamlToken>) -> (r: Result<
        YamlObject,
        YamlParserError,
    >)
        requires
            old(self).current_pos as int <= tokens@.len(),
            wf_stack(old(self).stack@),
        ensures
            final(self).tracer == old(self).tracer,
            final(self).current_pos as int <= tokens@.len(),
            match r {
                Ok(node) => p_value(
                    toks_view(tokens@),
                    old(self).current_pos as int,
                    top_opt(old(self).stack@),
                ) matches Ok((gn, p2)) && node_view(node) == gn && final(self).current_pos as int
                    == p2 && final(self).stack@ == old(self).stack@ && wf_stack(
                    final(self).stack@,
                ),
                Err(e) => p_value(
                    toks_view(tokens@),
                    old(self).current_pos as int,
                    top_opt(old(self).stack@),
                ) matches Err(g) && parse_err_matches(e, g),
            },
        decreases tokens@.len() - self.current_pos, 2int,
    {
        let ghost gt = toks_view(tokens@);
        let ghost pos0 = self.current_pos as int;
        let ghost st0 = self.stack@;
        let n = tokens.len();
        let w = self.count_spaces(tokens);
        let e = self.current_pos + w;
        proof {
            lemma_spaces_end(gt, pos0);
        }
        if e >= n {
            return Err(self.return_error(ParseErrorKind::InvalidMappingValue, e, tokens));
        }
        proof {
            assert(gt[e as int] == tokens@[e as int]@);
        }
        let openable = if self.stack.len() == 0 {
            true
        } else {
            w > self.stack[self.stack.len() - 1]
        };
        proof {
            assert(openable == can_open(top_opt(st0), w as int));
        }
        match &tokens[e] {
            YamlToken::TabSpace => Err(
                self.return_error(ParseErrorKind::InconsistentIndentation, e, tokens),
            ),
            YamlToken::LeftSquare => {
                self.consume_scope(tokens, w);
                self.parse_flow_collection(tokens)
            },
            YamlToken::LeftCurly => {
                self.consume_scope(tokens, w);
                self.parse_flow_collection(tokens)
            },
            YamlToken::Multiline(_) => {
                self.consume_scope(tokens, w);
                self.consume(tokens);
                Ok(
                    YamlObject::Unsupported(
                        String::from_str("multiline block scalars are not supported"),
                    ),
                )
            },
            YamlToken::IntVal(_) | YamlToken::FloatVal(_) | YamlToken::StringVal(_)
                | YamlToken::BoolVal(_) | YamlToken::NullVal => {
                if w <= 1 {
                    self.consume_scope(tokens, w);
                    let node = self.parse_literal_val(tokens);
                    Ok(node)
                } else {
                    Err(self.return_error(ParseErrorKind::InvalidMappingValue, e, tokens))
                }
            },
            YamlToken::Dash => {
                if openable {
                    self.consume_scope(tokens, w);
                    self.open_scope(w);
                    match self.parse_scalar_to_sequence(tokens, w) {
                        Ok(node) => {
                            proof {
                                assert(st0.push(w).drop_last() =~= st0);
                            }
                            Ok(node)
                        },
                        Err(er) => Err(er),
                    }
                } else {
                    Err(self.return_error(ParseErrorKind::InvalidMappingValue, e, tokens))
                }
            },
            YamlToken::Identifier(name) => {
                let has_colon = e + 1 < n && matches!(tokens[e + 1], YamlToken::Colon);
                proof {
                    if e + 1 < n {
                        assert(gt[e as int + 1] == tokens@[e as int + 1]@);
                    }
                }
                if has_colon {
                    if openable {
                        self.consume_scope(tokens, w);
                        self.open_scope(w);
                        match self.parse_mapping_entries(tokens, w) {
                            Ok(mut entries) => {
                                proof {
                                    assert(st0.push(w).drop_last() =~= st0);
                                    lemma_nodes_view(entries@);
                                }
                                if entries.len() == 1 {
                                    match entries.pop() {
                                        Some(node) => Ok(node),
                                        None => Err(
                                            self.return_error(
                                                ParseErrorKind::InternalInconsistency,
                                                e,
                                                tokens,
                                            ),
                                        ),
                                    }
                                } else {
                                    Ok(YamlObject::Sequence(entries))
                                }
                            },
                            Err(er) => Err(er),
                        }
                    } else {
                        Err(self.return_error(ParseErrorKind::InvalidMappingValue, e, tokens))
                    }
                } else if w <= 1 {
                    self.consume_scope(tokens, w);
                    let node = self.parse_literal_val(tokens);
                    Ok(node)
                } else {
                    Err(self.return_error(ParseErrorKind::InvalidMappingValue, e, tokens))
                }
            },
            _ => Err(self.return_error(ParseErrorKind::InvalidMappingValue, e, tokens)),
        }
    }

    /// Parse the items of a sequence scope of width `w`, the first `Dash`
    /// standing at the current position; the scope was just opened and is
    /// closed again before returning.
    #[verifier::loop_isolation(false)]
    #[verifier::rlimit(60)]
    fn parse_scalar_to_sequence(&mut self, tokens: &Vec<YamlToken>, w: usize) -> (r: Result<
        YamlObject,
        YamlParserError,
    >)
        requires
            old(self).current_pos < tokens@.len(),
            toks_view(tokens@)[old(self).current_pos as int] is Dash,
            wf_stack(old(self).stack@),
            old(self).stack@.len() > 0,
            old(self).stack@.last() == w,
        ensures
            final(self).tracer == old(self).tracer,
            final(self).current_pos as int <= tokens@.len(),
            match r {
                Ok(node) => p_seq_items(
                    toks_view(tokens@),
                    old(self).current_pos as int,
                    w as int,
                ) matches Ok((items, p)) && node_view(node) == GNode::Sequence(items) && final(self).current_pos as int == p && final(self).stack@ == old(self).stack@.drop_last()
                    && wf_stack(final(self).stack@),
                Err(e) => p_seq_items(toks_view(tokens@), old(self).current_pos as int, w as int)
                    matches Err(g) && parse_err_matches(e, g),
            },
        decreases tokens@.len() - self.current_pos, 1int,
    {
        let ghost gt = toks_view(tokens@);
        let ghost pos_start = self.current_pos as int;
        let n = tokens.len();
        let mut items: Vec<YamlObject> = Vec::new();
        proof {
            lemma_nodes_view(items@);
        }
        loop
            invariant
                self.current_pos < n,
                pos_start <= self.current_pos as int,
                gt[self.current_pos as int] is Dash,
                self.stack@ == old(self).stack@,
                self.tracer == old(self).tracer,
                match p_seq_items(gt, self.current_pos as int, w as int) {
                    Ok(rp) => p_seq_items(gt, pos_start, w as int) == Ok::<
                        (Seq<GNode>, int),
                        GParseErr,
                    >((nodes_view(items@) + rp.0, rp.1)),
                    Err(g) => p_seq_items(gt, pos_start, w as int) == Err::<
                        (Seq<GNode>, int),
                        GParseErr,
                    >(g),
                },
            decreases n - self.current_pos,
        {
            let dpos = self.current_pos;
            let ghost items_head = items@;
            self.consume(tokens);
            self.consume_space_if_exit(tokens);
            let ghost q = self.current_pos as int;
            if self.current_pos >= n {
                return Err(
                    self.return_error(ParseErrorKind::InvalidMappingValue, self.current_pos, tokens),
                );
            }
            proof {
                assert(gt[q] == tokens@[q]@);
            }
            let node_res: Result<YamlObject, YamlParserError> = match self.take(tokens) {
                YamlToken::IntVal(_) | YamlToken::FloatVal(_) | YamlToken::StringVal(_)
                    | YamlToken::BoolVal(_) | YamlToken::NullVal => Ok(
                    self.parse_literal_val(tokens),
                ),
                YamlToken::LeftSquare | YamlToken::LeftCurly => {
                    let rr = self.parse_flow_collection(tokens);
                    proof {
                        lemma_skip_flow(gt, q + 1, 1);
                    }
                    rr
                },
                YamlToken::Multiline(_) => {
                    self.consume(tokens);
                    Ok(
                        YamlObject::Unsupported(
                            String::from_str("multiline block scalars are not supported"),
                        ),
                    )
                },
                YamlToken::Identifier(name) => {
                    let has_colon = self.current_pos + 1 < n && matches!(
                        tokens[self.current_pos + 1],
                        YamlToken::Colon,
                    );
                    proof {
                        if q + 1 < n as int {
                            assert(gt[q + 1] == tokens@[q + 1]@);
                        }
                    }
                    if has_colon {
                        match self.parse_identifier(name, tokens) {
                            Ok(nd) => {
                                if self.current_pos <= dpos {
                                    return Err(
                                        self.return_error(
                                            ParseErrorKind::InternalInconsistency,
                                            self.current_pos,
                                            tokens,
                                        ),
                                    );
                                }
                                Ok(nd)
                            },
                            Err(er) => Err(er),
                        }
                    } else {
                        Ok(self.parse_literal_val(tokens))
                    }
                },
                YamlToken::TabSpace => Err(
                    self.return_error(
                        ParseErrorKind::InconsistentIndentation,
                        self.current_pos,
                        tokens,
                    ),
                ),
                _ => Err(
                    self.return_error(ParseErrorKind::InvalidMappingValue, self.current_pos, tokens),
                ),
            };
            let node = match node_res {
                Ok(nd) => nd,
                Err(er) => {
                    return Err(er);
                },
            };
            let ghost gnode = node_view(node);
            let ghost p2 = self.current_pos as int;
            proof {
                assert(p_seq_items(gt, dpos as int, w as int) == p_seq_rest(gt, p2, gnode, w as int));
                lemma_nodes_view_push(items@, node);
            }
            items.push(node);
            let sib = match self.consume_or_close_scope(tokens, w, &mut items) {
                Ok(b) => b,
                Err(er) => {
                    return Err(er);
                },
            };
            let ghost bnd = boundary(gt, p2, w as int);
            proof {
                lemma_boundary(gt, p2, w as int);
                assert(nodes_view(items_head.push(node)) =~= nodes_view(items_head) + seq![gnode]);
            }
            if !sib {
                self.close_scope();
                proof {
                    match bnd {
                        GBoundary::End { comments, pos: p3 } => {
                            assert(nodes_view(items@) =~= (nodes_view(items_head) + seq![gnode])
                                + comments);
                            assert(nodes_view(items_head) + (seq![gnode] + comments) =~= nodes_view(
                                items@,
                            ));
                        },
                        _ => {
                            assert(false);
                        },
                    }
                }
                return Ok(YamlObject::Sequence(items));
            }
            let e2 = self.current_pos + w;
            proof {
                assert(gt[e2 as int] == tokens@[e2 as int]@);
            }
            if matches!(tokens[e2], YamlToken::Dash) {
                self.consume_scope(tokens, w);
                proof {
                    match bnd {
                        GBoundary::Sib { comments, pos: p3 } => {
                            assert(nodes_view(items@) =~= (nodes_view(items_head) + seq![gnode])
                                + comments);
                            match p_seq_items(gt, e2 as int, w as int) {
                                Ok(rp) => {
                                    assert(nodes_view(items_head) + (seq![gnode] + comments + rp.0)
                                        =~= nodes_view(items@) + rp.0);
                                },
                                Err(_) => {},
                            }
                        },
                        _ => {
                            assert(false);
                        },
                    }
                }
            } else {
                self.close_scope();
                proof {
                    match bnd {
                        GBoundary::Sib { comments, pos: p3 } => {
                            assert(nodes_view(items@) =~= (nodes_view(items_head) + seq![gnode])
                                + comments);
                            assert(nodes_view(items_head) + (seq![gnode] + comments) =~= nodes_view(
                                items@,
                            ));
                        },
                        _ => {
                            assert(false);
                        },
                    }
                }
                return Ok(YamlObject::Sequence(items));
            }
        }
    }

    /// Parse the entries of a block mapping scope of width `w`, the first
    /// `Identifier` key standing at the current position; the scope was just
    /// opened and is closed again before returning.
    #[verifier::loop_isolation(false)]
    #[verifier::rlimit(60)]
    fn parse_mapping_entries(&mut self, tokens: &Vec<YamlToken>, w: usize) -> (r: Result<
        Vec<YamlObject>,
        YamlParserError,
    >)
        requires
            old(self).current_pos < tokens@.len(),
            toks_view(tokens@)[old(self).current_pos as int] is Identifier,
            wf_stack(old(self).stack@),
            old(self).stack@.len() > 0,
            old(self).stack@.last() == w,
        ensures
            final(self).tracer == old(self).tracer,
            final(self).current_pos as int <= tokens@.len(),
            match r {
                Ok(entries) => p_map_entries(
                    toks_view(tokens@),
                    old(self).current_pos as int,
                    w as int,
                ) matches Ok((gentries, p)) && nodes_view(entries@) == gentries && final(self).current_pos as int == p && final(self).stack@ == old(self).stack@.drop_last()
                    && wf_stack(final(self).stack@),
                Err(e) => p_map_entries(toks_view(tokens@), old(self).current_pos as int, w as int)
                    matches Err(g) && parse_err_matches(e, g),
            },
        decreases tokens@.len() - self.current_pos, 1int,
    {
        let ghost gt = toks_view(tokens@);
        let ghost pos_start = self.current_pos as int;
        let n = tokens.len();
        let mut entries: Vec<YamlObject> = Vec::new();
        proof {
            lemma_nodes_view(entries@);
        }
        loop
            invariant
                self.current_pos < n,
                pos_start <= self.current_pos as int,
                gt[self.current_pos as int] is Identifier,
                self.stack@ == old(self).stack@,
                self.tracer == old(self).tracer,
                match p_map_entries(gt, self.current_pos as int, w as int) {
                    Ok(rp) => p_map_entries(gt, pos_start, w as int) == Ok::<
                        (Seq<GNode>, int),
                        GParseErr,
                    >((nodes_view(entries@) + rp.0, rp.1)),
                    Err(g) => p_map_entries(gt, pos_start, w as int) == Err::<
                        (Seq<GNode>, int),
                        GParseErr,
                    >(g),
                },
            decreases n - self.current_pos,
        {
            let ipos = self.current_pos;
            let ghost entries_head = entries@;
            let node = match self.take(tokens) {
                YamlToken::Identifier(name) => {
                    match self.parse_identifier(name, tokens) {
                        Ok(nd) => {
                            if self.current_pos <= ipos {
                                return Err(
                                    self.return_error(
                                        ParseErrorKind::InternalInconsistency,
                                        self.current_pos,
                                        tokens,
                                    ),
                                );
                            }
                            nd
                        },
                        Err(er) => {
                            return Err(er);
                        },
                    }
                },
                _ => {
                    return Err(
                        self.return_error(
                            ParseErrorKind::InternalInconsistency,
                            self.current_pos,
                            tokens,
                        ),
                    );
                },
            };
            let ghost gnode = node_view(node);
            let ghost p2 = self.current_pos as int;
            proof {
                assert(p_map_entries(gt, ipos as int, w as int) == p_map_rest(gt, p2, gnode, w as int));
                lemma_nodes_view_push(entries@, node);
            }
            entries.push(node);
            let sib = match self.consume_or_close_scope(tokens, w, &mut entries) {
                Ok(b) => b,
                Err(er) => {
                    return Err(er);
                },
            };
            let ghost bnd = boundary(gt, p2, w as int);
            proof {
                lemma_boundary(gt, p2, w as int);
                assert(nodes_view(entries_head.push(node)) =~= nodes_view(entries_head)
                    + seq![gnode]);
            }
            if !sib {
                self.close_scope();
                proof {
                    match bnd {
                        GBoundary::End { comments, pos: p3 } => {
                            assert(nodes_view(entries@) =~= (nodes_view(entries_head)
                                + seq![gnode]) + comments);
                            assert(nodes_view(entries_head) + (seq![gnode] + comments)
                                =~= nodes_view(entries@));
                        },
                        _ => {
                            assert(false);
                        },
                    }
                }
                return Ok(entries);
            }
            let e2 = self.current_pos + w;
            proof {
                assert(gt[e2 as int] == tokens@[e2 as int]@);
            }
            if matches!(tokens[e2], YamlToken::Identifier(_)) {
                self.consume_scope(tokens, w);
                proof {
                    match bnd {
                        GBoundary::Sib { comments, pos: p3 } => {
                            assert(nodes_view(entries@) =~= (nodes_view(entries_head)
                                + seq![gnode]) + comments);
                            match p_map_entries(gt, e2 as int, w as int) {
                                Ok(rp) => {
                                    assert(nodes_view(entries_head) + (seq![gnode] + comments
                                        + rp.0) =~= nodes_view(entries@) + rp.0);
                                },
                                Err(_) => {},
                            }
                        },
                        _ => {
                            assert(false);
                        },
                    }
                }
            } else {
                self.close_scope();
                proof {
                    match bnd {
                        GBoundary::Sib { comments, pos: p3 } => {
                            assert(nodes_view(entries@) =~= (nodes_view(entries_head)
                                + seq![gnode]) + comments);
                            assert(nodes_view(entries_head) + (seq![gnode] + comments)
                                =~= nodes_view(entries@));
                        },
                        _ => {
                            assert(false);
                        },
                    }
                }
                return Ok(entries);
            }
        }
    }

    /// The document loop: entries, comments and one optional leading `---`
    /// marker, until `EOF`. Every indentation scope opened inside an entry
    /// is closed before the next entry is read.
    #[verifier::loop_isolation(false)]
    fn parse_document(&mut self, tokens: &Vec<YamlToken>) -> (r: Result<
        Vec<YamlObject>,
        YamlParserError,
    >)
        requires
            old(self).current_pos as int <= tokens@.len(),
            old(self).stack@.len() == 0,
        ensures
            final(self).tracer == old(self).tracer,
            match r {
                Ok(children) => p_doc(toks_view(tokens@), old(self).current_pos as int) matches Ok(
                    gch,
                ) && nodes_view(children@) == gch && final(self).stack@.len() == 0,
                Err(e) => p_doc(toks_view(tokens@), old(self).current_pos as int) matches Err(g)
                    && parse_err_matches(e, g),
            },
    {
        let ghost gt = toks_view(tokens@);
        let ghost pos0 = self.current_pos as int;
        let n = tokens.len();
        let mut children: Vec<YamlObject> = Vec::new();
        proof {
            lemma_nodes_view(children@);
        }
        self.tracer.info(&String::from_str("start parsing a document"));
        loop
            invariant
                self.current_pos as int <= n as int,
                pos0 <= self.current_pos as int,
                self.stack@.len() == 0,
                self.tracer == old(self).tracer,
                match p_doc(gt, self.current_pos as int) {
                    Ok(rest) => p_doc(gt, pos0) == Ok::<Seq<GNode>, GParseErr>(
                        nodes_view(children@) + rest,
                    ),
                    Err(g) => p_doc(gt, pos0) == Err::<Seq<GNode>, GParseErr>(g),
                },
            decreases n - self.current_pos,
        {
            let ghost children_head = children@;
            if self.current_pos >= n {
                return Err(
                    self.return_error(
                        ParseErrorKind::UnterminatedDocument,
                        self.current_pos,
                        tokens,
                    ),
                );
            }
            proof {
                assert(gt[self.current_pos as int] == tokens@[self.current_pos as int]@);
            }
            match self.take(tokens) {
                YamlToken::EOF => {
                    proof {
                        assert(nodes_view(children@) + Seq::<GNode>::empty() =~= nodes_view(
                            children@,
                        ));
                    }
                    return Ok(children);
                },
                YamlToken::Comment(text) => {
                    let node = YamlObject::Comment(text.clone());
                    proof {
                        lemma_nodes_view_push(children@, node);
                    }
                    children.push(node);
                    self.consume(tokens);
                    proof {
                        let c = node_view(node);
                        match p_doc(gt, self.current_pos as int) {
                            Ok(rest) => {
                                assert(nodes_view(children_head) + (seq![c] + rest) =~= nodes_view(
                                    children@,
                                ) + rest);
                            },
                            Err(_) => {},
                        }
                    }
                },
                YamlToken::Identifier(name) => {
                    let epos = self.current_pos;
                    proof {
                        lemma_doc_entry(gt, epos as int);
                    }
                    let node = match self.parse_identifier(name, tokens) {
                        Ok(nd) => nd,
                        Err(er) => {
                            return Err(er);
                        },
                    };
                    if self.current_pos <= epos {
                        return Err(
                            self.return_error(
                                ParseErrorKind::InternalInconsistency,
                                self.current_pos,
                                tokens,
                            ),
                        );
                    }
                    let ghost gnode = node_view(node);
                    proof {
                        lemma_nodes_view_push(children@, node);
                    }
                    children.push(node);
                    proof {
                        match p_doc(gt, self.current_pos as int) {
                            Ok(rest) => {
                                assert(nodes_view(children_head) + (seq![gnode] + rest)
                                    =~= nodes_view(children@) + rest);
                            },
                            Err(_) => {},
                        }
                    }
                },
                YamlToken::StartDoc => {
                    self.consume(tokens);
                    if self.current_pos >= n {
                        return Err(
                            self.return_error(
                                ParseErrorKind::MalformedDocument,
                                self.current_pos,
                                tokens,
                            ),
                        );
                    }
                    proof {
                        assert(gt[self.current_pos as int] == tokens@[self.current_pos as int]@);
                    }
                    match self.take(tokens) {
                        YamlToken::Identifier(name) => {
                            let epos = self.current_pos;
                            proof {
                                lemma_doc_entry(gt, epos as int);
                            }
                            let node = match self.parse_identifier(name, tokens) {
                                Ok(nd) => nd,
                                Err(er) => {
                                    return Err(er);
                                },
                            };
                            if self.current_pos <= epos {
                                return Err(
                                    self.return_error(
                                        ParseErrorKind::InternalInconsistency,
                                        self.current_pos,
                                        tokens,
                                    ),
                                );
                            }
                            let ghost gnode = node_view(node);
                            proof {
                                lemma_nodes_view_push(children@, node);
                            }
                            children.push(node);
                            proof {
                                match p_doc(gt, self.current_pos as int) {
                                    Ok(rest) => {
                                        assert(nodes_view(children_head) + (seq![gnode] + rest)
                                            =~= nodes_view(children@) + rest);
                                    },
                                    Err(_) => {},
                                }
                            }
                        },
                        _ => {
                            return Err(
                                self.return_error(
                                    ParseErrorKind::MalformedDocument,
                                    self.current_pos,
                                    tokens,
                                ),
                            );
                        },
                    }
                },
                YamlToken::Space => {
                    return Err(
                        self.return_error(
                            ParseErrorKind::InconsistentIndentation,
                            self.current_pos,
                            tokens,
                        ),
                    );
                },
                YamlToken::TabSpace => {
                    return Err(
                        self.return_error(
                            ParseErrorKind::InconsistentIndentation,
                            self.current_pos,
                            tokens,
                        ),
                    );
                },
                _ => {
                    return Err(
                        self.return_error(
                            ParseErrorKind::MalformedDocument,
                            self.current_pos,
                            tokens,
                        ),
                    );
                },
            }
        }
    }

    /// Parse a whole token sequence into one `Document` node, or report the
    /// first parse error. The result is exactly what the parse model
    /// describes, and on success the indentation stack is empty again.
    pub fn parse(&mut self, tokens: &Vec<YamlToken>) -> (r: Result<YamlObject, YamlParserError>)
        ensures
            match r {
                Ok(doc) => p_document(toks_view(tokens@)) matches Ok(g) && node_view(doc) == g,
                Err(e) => p_document(toks_view(tokens@)) matches Err(g) && parse_err_matches(e, g),
            },
            r is Ok ==> final(self).indent_depth() == 0,
    {
        self.current_pos = 0;
        self.stack = Vec::new();
        match self.parse_document(tokens) {
            Ok(children) => Ok(YamlObject::Document(children)),
            Err(e) => Err(e),
        }
    }
}

/// Whether a token can stand alone as a scalar value.
pub open spec fn is_literal(t: GToken) -> bool {
    ||| t is IntVal
    ||| t is FloatVal
    ||| t is StringVal
    ||| t is BoolVal
    ||| t is NullVal
    ||| t is Identifier
}

/// The scalar node a literal token denotes.
pub open spec fn lit_view(t: GToken) -> GNode {
    match t {
        GToken::IntVal(v) => GNode::Int(v),
        GToken::FloatVal(x) => GNode::Float(x),
        GToken::StringVal(x) => normalize_scalar_view(x),
        GToken::BoolVal(b) => GNode::Bool(b),
        GToken::NullVal => GNode::Null,
        GToken::Identifier(x) => normalize_scalar_view(x),
        _ => GNode::Null,
    }
}

} // verus!
