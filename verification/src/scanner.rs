//! The scanner: turns a text buffer into the token sequence that
//! [`crate::scan_spec::scan_from`] describes, or reports the first scan
//! error. No input makes it panic.

use vstd::prelude::*;
use vstd::string::StrSliceExecFns;
use vstd::string::StringExecFns;

use crate::errors::GScanErr;
use crate::errors::ScanError;
use crate::errors::ScanErrorKind;
use crate::errors::scan_err_matches;
use crate::scan_spec::digits_end;
use crate::scan_spec::digits_val;
use crate::scan_spec::ident_end;
use crate::scan_spec::is_digit_char;
use crate::scan_spec::is_ident_char;
use crate::scan_spec::lemma_digits_end;
use crate::scan_spec::lemma_digits_val_grows;
use crate::scan_spec::line_end;
use crate::scan_spec::quote_end;
use crate::scan_spec::scan_from;
use crate::scan_spec::scan_result;
use crate::scan_spec::cons_tok;
use crate::scan_spec::toks_view;
use crate::tokens::GToken;
use crate::tokens::YamlToken;

verus! {

/// The interface of a scanner: create one, then scan a text into tokens.
pub trait YamlScanner<T>: Sized {
    /// Create a new instance of the scanner.
    fn new() -> Self;

    /// Scan the given text into a token sequence, or report the first scan
    /// error.
    fn scan(&mut self, content: &str) -> Result<Vec<T>, ScanError>;
}

/// A scan is at a clean token boundary: what was emitted so far, together
/// with what scanning the rest yields, is exactly the model of scanning the
/// whole input.
pub open spec fn scan_ok(s: Seq<char>, toks: Seq<YamlToken>, pos: int, line: int) -> bool {
    match scan_from(s, pos, line) {
        Ok(rest) => scan_result(s) == Ok::<Seq<GToken>, GScanErr>(toks_view(toks) + rest),
        Err(e) => scan_result(s) == Err::<Seq<GToken>, GScanErr>(e),
    }
}

/// Emitting the token that the model emits at this boundary moves the scan
/// to the next clean boundary.
proof fn lemma_scan_ok_step(
    s: Seq<char>,
    toks: Seq<YamlToken>,
    t: YamlToken,
    pos: int,
    line: int,
    pos2: int,
    line2: int,
)
    requires
        scan_ok(s, toks, pos, line),
        scan_from(s, pos, line) == cons_tok(t@, scan_from(s, pos2, line2)),
    ensures
        scan_ok(s, toks.push(t), pos2, line2),
{
    let tv = toks_view(toks);
    assert(toks_view(toks.push(t)) =~= tv + seq![t@]);
    match scan_from(s, pos2, line2) {
        Ok(rest2) => {
            assert((tv + seq![t@]) + rest2 =~= tv + (seq![t@] + rest2));
        },
        Err(_) => {},
    }
}

/// The scanner: a position and a line counter over the input, and the tokens
/// found so far.
pub struct Scanner {
    pos: usize,
    line: u64,
    tokens: Vec<YamlToken>,
}

impl Scanner {
    /// The scanner stands at a clean token boundary of the input `s`.
    spec fn st_ok(self, s: Seq<char>) -> bool {
        &&& self.pos as int <= s.len()
        &&& self.line as int <= self.pos as int
        &&& scan_ok(s, self.tokens@, self.pos as int, self.line as int)
    }

    /// A scanner that has not consumed anything yet: position and line are
    /// zero and no token has been emitted.
    pub closed spec fn is_fresh(self) -> bool {
        self.pos == 0 && self.line == 0 && self.tokens@.len() == 0
    }

    /// Whether a character is a decimal digit.
    fn digit_char(c: char) -> (b: bool)
        ensures
            b == is_digit_char(c),
    {
        let u = c as u32;
        '0' as u32 <= u && u <= '9' as u32
    }

    /// Check if a char is a valid symbol for an identifier: an ASCII letter,
    /// a digit, or an underscore.
    fn valid_identifier_symbol(c: char) -> (b: bool)
        ensures
            b == is_ident_char(c),
    {
        let u = c as u32;
        Self::digit_char(c) || 'a' as u32 <= u && u <= 'z' as u32 || 'A' as u32 <= u && u
            <= 'Z' as u32 || c == '_'
    }

    /// Peek the character at the current position.
    fn peek(&self, stream: &str) -> (c: char)
        requires
            self.pos < stream@.len(),
        ensures
            c == stream@[self.pos as int],
    {
        stream.get_char(self.pos)
    }

    /// Consume and return the character at the current position.
    fn next(&mut self, stream: &str) -> (c: char)
        requires
            old(self).pos < stream@.len(),
            stream@.len() <= usize::MAX as int,
        ensures
            c == stream@[old(self).pos as int],
            final(self).pos == old(self).pos + 1,
            final(self).line == old(self).line,
            final(self).tokens == old(self).tokens,
    {
        let c = stream.get_char(self.pos);
        self.pos = self.pos + 1;
        c
    }

    /// Advance by one position if the current character matches the target;
    /// report whether it did.
    fn advance_if_match(&mut self, stream: &str, target: char) -> (r: bool)
        requires
            old(self).pos as int <= stream@.len(),
    ensures
            r == (old(self).pos < stream@.len() && stream@[old(self).pos as int] == target),
            r ==> final(self).pos == old(self).pos + 1,
            !r ==> final(self).pos == old(self).pos,
            final(self).line == old(self).line,
            final(self).tokens == old(self).tokens,
    {
        if self.pos < stream.unicode_len() {
            let c = stream.get_char(self.pos);
            if c == target {
                self.pos = self.pos + 1;
                return true;
            }
        }
        false
    }

    /// Append a token to the tokens found so far.
    fn add_token(&mut self, token: YamlToken)
        ensures
            final(self).tokens@ == old(self).tokens@.push(token),
            final(self).pos == old(self).pos,
            final(self).line == old(self).line,
    {
        self.tokens.push(token);
    }

    /// Check whether the current position has reached the end of the input.
    fn is_at_end(&self, content: &str) -> (b: bool)
        ensures
            b == (self.pos as int >= content@.len()),
    {
        content.unicode_len() <= self.pos
    }

    /// The end of the digit run that starts at `from`.
    fn digits_run(content: &str, from: usize, n: usize) -> (j: usize)
        requires
            from as int <= content@.len(),
            n as int == content@.len(),
        ensures
            j as int == digits_end(content@, from as int),
            from <= j <= n,
    {
        let mut j = from;
        while j < n && Self::digit_char(content.get_char(j))
            invariant
                from <= j <= n,
                n as int == content@.len(),
                digits_end(content@, from as int) == digits_end(content@, j as int),
            decreases n - j,
        {
            j = j + 1;
        }
        j
    }

    /// The end of the identifier run that starts at `from`.
    fn ident_run(content: &str, from: usize, n: usize) -> (j: usize)
        requires
            from as int <= content@.len(),
            n as int == content@.len(),
        ensures
            j as int == ident_end(content@, from as int),
            from <= j <= n,
    {
        let mut j = from;
        while j < n && Self::valid_identifier_symbol(content.get_char(j))
            invariant
                from <= j <= n,
                n as int == content@.len(),
                ident_end(content@, from as int) == ident_end(content@, j as int),
            decreases n - j,
        {
            j = j + 1;
        }
        j
    }

    /// The position of the closing quote or newline that ends the quoted
    /// text starting at `from`, or the end of the input.
    fn quote_run(content: &str, from: usize, n: usize, quote: char) -> (j: usize)
        requires
            from as int <= content@.len(),
            n as int == content@.len(),
        ensures
            j as int == quote_end(content@, from as int, quote),
            from <= j <= n,
    {
        let mut j = from;
        while j < n && content.get_char(j) != quote && content.get_char(j) != '\n'
            invariant
                from <= j <= n,
                n as int == content@.len(),
                quote_end(content@, from as int, quote) == quote_end(content@, j as int, quote),
            decreases n - j,
        {
            j = j + 1;
        }
        j
    }

    /// The position of the newline that ends the line containing `from`, or
    /// the end of the input.
    fn line_run(content: &str, from: usize, n: usize) -> (j: usize)
        requires
            from as int <= content@.len(),
            n as int == content@.len(),
        ensures
            j as int == line_end(content@, from as int),
            from <= j <= n,
    {
        let mut j = from;
        while j < n && content.get_char(j) != '\n'
            invariant
                from <= j <= n,
                n as int == content@.len(),
                line_end(content@, from as int) == line_end(content@, j as int),
            decreases n - j,
        {
            j = j + 1;
        }
        j
    }

    /// The value of the digit run `content[from..to)`, or `None` when it
    /// does not fit an `i64`.
    fn parse_int_value(content: &str, from: usize, to: usize) -> (r: Option<i64>)
        requires
            from <= to,
            to as int <= content@.len(),
            forall|m: int| from as int <= m < to as int ==> is_digit_char(#[trigger] content@[m]),
        ensures
            match r {
                Some(v) => v as int == digits_val(content@, from as int, to as int) && v >= 0,
                None => digits_val(content@, from as int, to as int) > i64::MAX,
            },
    {
        let ghost s = content@;
        let mut val: i64 = 0;
        let mut k = from;
        while k < to
            invariant
                from <= k <= to,
                to as int <= s.len(),
                s == content@,
                forall|m: int| from as int <= m < to as int ==> is_digit_char(#[trigger] s[m]),
                0 <= val,
                val as int == digits_val(s, from as int, k as int),
            decreases to - k,
        {
            let c = content.get_char(k);
            assert(is_digit_char(s[k as int]));
            let d: u32 = c as u32 - '0' as u32;
            let dl: i64 = d as i64;
            if val > (i64::MAX - dl) / 10 {
                proof {
                    let ghost vnext = digits_val(s, from as int, k as int + 1);
                    assert(vnext == val * 10 + d);
                    assert(val * 10 + d > i64::MAX) by (nonlinear_arith)
                        requires
                            val > (i64::MAX - d) / 10,
                            0 <= d <= 9,
                            0 <= val,
                    {}
                    lemma_digits_val_grows(s, from as int, k as int + 1, to as int);
                }
                return None;
            }
            proof {
                assert(val * 10 + d <= i64::MAX) by (nonlinear_arith)
                    requires
                        val <= (i64::MAX - d) / 10,
                        0 <= d <= 9,
                        0 <= val,
                {}
            }
            val = val * 10 + dl;
            k = k + 1;
        }
        Some(val)
    }

    /// Scan the quoted string whose opening quote stood just before the
    /// current position; the raw enclosed text becomes one `StringVal`. A
    /// string with no closing quote before the end of the line or of the
    /// input is a scan error.
    fn parse_string(&mut self, stream: &str, quote: char) -> (r: Result<(), ScanError>)
        requires
            1 <= old(self).pos,
            old(self).pos as int <= stream@.len(),
            old(self).line as int <= old(self).pos as int - 1,
            stream@[old(self).pos as int - 1] == quote,
            quote == '"' || quote == '\'',
            scan_ok(stream@, old(self).tokens@, old(self).pos as int - 1, old(self).line as int),
        ensures
            match r {
                Ok(()) => final(self).st_ok(stream@) && final(self).pos > old(self).pos - 1,
                Err(e) => scan_result(stream@) matches Err(g) && scan_err_matches(e, g),
            },
    {
        let ghost s = stream@;
        let ghost start0 = self.pos as int - 1;
        let n = stream.unicode_len();
        let from = self.pos;
        let j = Self::quote_run(stream, from, n, quote);
        if j < n && stream.get_char(j) == quote {
            let text = stream.substring_char(from, j).to_owned();
            let tok = YamlToken::StringVal(text);
            proof {
                assert(scan_from(s, start0, self.line as int) == cons_tok(
                    tok@,
                    scan_from(s, j as int + 1, self.line as int),
                ));
                lemma_scan_ok_step(
                    s,
                    self.tokens@,
                    tok,
                    start0,
                    self.line as int,
                    j as int + 1,
                    self.line as int,
                );
            }
            self.add_token(tok);
            self.pos = j + 1;
            Ok(())
        } else {
            Err(ScanError { kind: ScanErrorKind::UnterminatedString, line: self.line, pos: from - 1 })
        }
    }

    /// Scan the comment whose `#` stood just before the current position:
    /// the text through the end of the line, one leading space dropped,
    /// becomes one `Comment` token.
    fn parse_comment_line(&mut self, content: &str) -> (r: Result<(), ScanError>)
        requires
            1 <= old(self).pos,
            old(self).pos as int <= content@.len(),
            old(self).line as int <= old(self).pos as int - 1,
            content@[old(self).pos as int - 1] == '#',
            scan_ok(content@, old(self).tokens@, old(self).pos as int - 1, old(self).line as int),
        ensures
            r is Ok,
            final(self).st_ok(content@),
            final(self).pos > old(self).pos - 1,
    {
        let ghost s = content@;
        let ghost start0 = self.pos as int - 1;
        let ghost line0 = self.line as int;
        let n = content.unicode_len();
        let j = Self::line_run(content, self.pos, n);
        let cstart = if self.pos < j && content.get_char(self.pos) == ' ' {
            self.pos + 1
        } else {
            self.pos
        };
        let text = content.substring_char(cstart, j).to_owned();
        let tok = YamlToken::Comment(text);
        if j < n {
            proof {
                assert(scan_from(s, start0, line0) == cons_tok(
                    tok@,
                    scan_from(s, j as int + 1, line0 + 1),
                ));
                lemma_scan_ok_step(s, self.tokens@, tok, start0, line0, j as int + 1, line0 + 1);
            }
            self.add_token(tok);
            self.pos = j + 1;
            self.line = self.line + 1;
        } else {
            proof {
                assert(scan_from(s, start0, line0) == cons_tok(tok@, scan_from(s, j as int, line0)));
                lemma_scan_ok_step(s, self.tokens@, tok, start0, line0, j as int, line0);
            }
            self.add_token(tok);
            self.pos = j;
        }
        Ok(())
    }

    /// Scan the number whose first digit stood just before the current
    /// position: a digit run, optionally continued by `.` and more digits,
    /// becomes one `IntVal` or `FloatVal`. An integer that does not fit is a
    /// scan error, not a panic.
    fn parse_number(&mut self, stream: &str) -> (r: Result<(), ScanError>)
        requires
            1 <= old(self).pos,
            old(self).pos as int <= stream@.len(),
            old(self).line as int <= old(self).pos as int - 1,
            is_digit_char(stream@[old(self).pos as int - 1]),
            scan_ok(stream@, old(self).tokens@, old(self).pos as int - 1, old(self).line as int),
        ensures
            match r {
                Ok(()) => final(self).st_ok(stream@) && final(self).pos > old(self).pos - 1,
                Err(e) => scan_result(stream@) matches Err(g) && scan_err_matches(e, g),
            },
    {
        let ghost s = stream@;
        let ghost line0 = self.line as int;
        let n = stream.unicode_len();
        let start = self.pos - 1;
        let ghost start0 = start as int;
        assert(digits_end(s, start0) == digits_end(s, start0 + 1));
        let j = Self::digits_run(stream, self.pos, n);
        proof {
            lemma_digits_end(s, start0);
        }
        if j < n && j + 1 < n && stream.get_char(j) == '.' && Self::digit_char(
            stream.get_char(j + 1),
        ) {
            assert(digits_end(s, j as int + 1) == digits_end(s, j as int + 2));
            let k = Self::digits_run(stream, j + 1, n);
            let text = stream.substring_char(start, k).to_owned();
            let tok = YamlToken::FloatVal(text);
            proof {
                assert(scan_from(s, start0, line0) == cons_tok(
                    tok@,
                    scan_from(s, k as int, line0),
                ));
                lemma_scan_ok_step(s, self.tokens@, tok, start0, line0, k as int, line0);
            }
            self.add_token(tok);
            self.pos = k;
            Ok(())
        } else {
            match Self::parse_int_value(stream, start, j) {
                Some(v) => {
                    let tok = YamlToken::IntVal(v);
                    proof {
                        assert(scan_from(s, start0, line0) == cons_tok(
                            tok@,
                            scan_from(s, j as int, line0),
                        ));
                        lemma_scan_ok_step(s, self.tokens@, tok, start0, line0, j as int, line0);
                    }
                    self.add_token(tok);
                    self.pos = j;
                    Ok(())
                },
                None => {
                    Err(
                        ScanError {
                            kind: ScanErrorKind::NumericOverflow,
                            line: self.line,
                            pos: start,
                        },
                    )
                },
            }
        }
    }

    /// Scan the identifier whose first character stood just before the
    /// current position: the maximal identifier run becomes one
    /// `Identifier`.
    fn parse_identifier(&mut self, stream: &str) -> (r: Result<(), ScanError>)
        requires
            1 <= old(self).pos,
            old(self).pos as int <= stream@.len(),
            old(self).line as int <= old(self).pos as int - 1,
            is_ident_char(stream@[old(self).pos as int - 1]),
            !is_digit_char(stream@[old(self).pos as int - 1]),
            scan_ok(stream@, old(self).tokens@, old(self).pos as int - 1, old(self).line as int),
        ensures
            r is Ok,
            final(self).st_ok(stream@),
            final(self).pos > old(self).pos - 1,
    {
        let ghost s = stream@;
        let ghost line0 = self.line as int;
        let n = stream.unicode_len();
        let start = self.pos - 1;
        let ghost start0 = start as int;
        assert(ident_end(s, start0) == ident_end(s, start0 + 1));
        let j = Self::ident_run(stream, self.pos, n);
        let text = stream.substring_char(start, j).to_owned();
        let tok = YamlToken::Identifier(text);
        proof {
            assert(scan_from(s, start0, line0) == cons_tok(tok@, scan_from(s, j as int, line0)));
            lemma_scan_ok_step(s, self.tokens@, tok, start0, line0, j as int, line0);
        }
        self.add_token(tok);
        self.pos = j;
        Ok(())
    }

    /// Consume one token (or one newline) from the input, keeping the scan
    /// at a clean token boundary, or report the scan error found there.
    fn contrue_token(&mut self, content: &str) -> (r: Result<(), ScanError>)
        requires
            old(self).st_ok(content@),
            (old(self).pos as int) < content@.len(),
            content@.len() <= usize::MAX as int,
        ensures
            match r {
                Ok(()) => final(self).st_ok(content@) && final(self).pos > old(self).pos,
                Err(e) => scan_result(content@) matches Err(g) && scan_err_matches(e, g),
            },
    {
        let ghost s = content@;
        let ghost pos0 = self.pos as int;
        let ghost line0 = self.line as int;
        let char_token = self.next(content);
        let start = self.pos - 1;
        match char_token {
            '\n' => {
                self.line = self.line + 1;
                Ok(())
            },
            ' ' => {
                self.emit_simple(Ghost(s), YamlToken::Space, Ghost(pos0), Ghost(line0));
                Ok(())
            },
            '\t' => {
                self.emit_simple(Ghost(s), YamlToken::TabSpace, Ghost(pos0), Ghost(line0));
                Ok(())
            },
            ':' => {
                self.emit_simple(Ghost(s), YamlToken::Colon, Ghost(pos0), Ghost(line0));
                Ok(())
            },
            ',' => {
                self.emit_simple(Ghost(s), YamlToken::Comma, Ghost(pos0), Ghost(line0));
                Ok(())
            },
            '[' => {
                self.emit_simple(Ghost(s), YamlToken::LeftSquare, Ghost(pos0), Ghost(line0));
                Ok(())
            },
            ']' => {
                self.emit_simple(Ghost(s), YamlToken::RightSquare, Ghost(pos0), Ghost(line0));
                Ok(())
            },
            '{' => {
                self.emit_simple(Ghost(s), YamlToken::LeftCurly, Ghost(pos0), Ghost(line0));
                Ok(())
            },
            '}' => {
                self.emit_simple(Ghost(s), YamlToken::RightCurly, Ghost(pos0), Ghost(line0));
                Ok(())
            },
            '|' => {
                let tok = YamlToken::Multiline(String::from_str("|"));
                proof {
                    reveal_strlit("|");
                    assert(tok@->Multiline_0 =~= seq!['|']);
                    assert(tok@ == GToken::Multiline(seq![char_token]));
                }
                self.emit_simple(Ghost(s), tok, Ghost(pos0), Ghost(line0));
                Ok(())
            },
            '>' => {
                let tok = YamlToken::Multiline(String::from_str(">"));
                proof {
                    reveal_strlit(">");
                    assert(tok@->Multiline_0 =~= seq!['>']);
                    assert(tok@ == GToken::Multiline(seq![char_token]));
                }
                self.emit_simple(Ghost(s), tok, Ghost(pos0), Ghost(line0));
                Ok(())
            },
            '\'' => self.parse_string(content, '\''),
            '"' => self.parse_string(content, '"'),
            '-' => {
                if self.advance_if_match(content, '-') {
                    if self.advance_if_match(content, '-') {
                        let tok = YamlToken::StartDoc;
                        self.emit_simple(Ghost(s), tok, Ghost(pos0), Ghost(line0));
                        Ok(())
                    } else {
                        Err(
                            ScanError {
                                kind: ScanErrorKind::MalformedDocumentMarker,
                                line: self.line,
                                pos: start,
                            },
                        )
                    }
                } else {
                    self.emit_simple(Ghost(s), YamlToken::Dash, Ghost(pos0), Ghost(line0));
                    Ok(())
                }
            },
            '.' => {
                if self.advance_if_match(content, '.') && self.advance_if_match(content, '.') {
                    let tok = YamlToken::EndDoc;
                    self.emit_simple(Ghost(s), tok, Ghost(pos0), Ghost(line0));
                    Ok(())
                } else {
                    Err(
                        ScanError {
                            kind: ScanErrorKind::MalformedDocumentMarker,
                            line: self.line,
                            pos: start,
                        },
                    )
                }
            },
            '#' => self.parse_comment_line(content),
            _ => {
                if Self::digit_char(char_token) {
                    self.parse_number(content)
                } else if Self::valid_identifier_symbol(char_token) {
                    self.parse_identifier(content)
                } else {
                    Err(
                        ScanError {
                            kind: ScanErrorKind::UnscannableCharacter,
                            line: self.line,
                            pos: start,
                        },
                    )
                }
            },
        }
    }

    /// Emit a token that the model emits at the boundary `pos0`, the
    /// position just consumed.
    fn emit_simple(
        &mut self,
        Ghost(s): Ghost<Seq<char>>,
        tok: YamlToken,
        Ghost(pos0): Ghost<int>,
        Ghost(line0): Ghost<int>,
    )
        requires
            old(self).pos as int <= s.len(),
            old(self).pos as int > pos0,
            old(self).line as int <= pos0,
            old(self).line as int == line0,
            scan_ok(s, old(self).tokens@, pos0, line0),
            scan_from(s, pos0, line0) == cons_tok(
                tok@,
                scan_from(s, old(self).pos as int, line0),
            ),
        ensures
            final(self).st_ok(s),
            final(self).pos == old(self).pos,
            final(self).line == old(self).line,
    {
        proof {
            lemma_scan_ok_step(
                s,
                self.tokens@,
                tok,
                pos0,
                line0,
                self.pos as int,
                line0,
            );
        }
        self.add_token(tok);
    }

    /// Entry point of the scanner: walk the whole input and append the final
    /// `EOF` token.
    fn run(&mut self, content: &str) -> (r: Result<(), ScanError>)
        requires
            old(self).pos == 0,
            old(self).line == 0,
            old(self).tokens@.len() == 0,
        ensures
            match r {
                Ok(()) => scan_result(content@) == Ok::<Seq<GToken>, GScanErr>(
                    toks_view(final(self).tokens@),
                ),
                Err(e) => scan_result(content@) matches Err(g) && scan_err_matches(e, g),
            },
    {
        let ghost s = content@;
        let n = content.unicode_len();
        proof {
            match scan_from(s, 0, 0) {
                Ok(rest) => {
                    assert(toks_view(self.tokens@) + rest =~= rest);
                },
                Err(_) => {},
            }
        }
        while !self.is_at_end(content)
            invariant
                self.st_ok(content@),
                content@.len() <= usize::MAX as int,
            decreases content@.len() - self.pos,
        {
            match self.contrue_token(content) {
                Ok(()) => {},
                Err(e) => {
                    return Err(e);
                },
            }
        }
        let ghost before = self.tokens@;
        self.add_token(YamlToken::EOF);
        proof {
            assert(toks_view(self.tokens@) =~= toks_view(before) + seq![GToken::EOF]);
        }
        Ok(())
    }
}

/// The scanner behind the [`YamlScanner`] interface: `scan` returns exactly
/// the tokens of [`scan_result`], or the scan error it names.
impl YamlScanner<YamlToken> for Scanner {
    fn new() -> (s: Self)
        ensures
            s.is_fresh(),
    {
        Scanner { pos: 0, line: 0, tokens: Vec::new() }
    }

    fn scan(&mut self, content: &str) -> (r: Result<Vec<YamlToken>, ScanError>)
        ensures
            match r {
                Ok(tokens) => scan_result(content@) == Ok::<Seq<GToken>, GScanErr>(
                    toks_view(tokens@),
                ),
                Err(e) => scan_result(content@) matches Err(g) && scan_err_matches(e, g),
            },
    {
        self.pos = 0;
        self.line = 0;
        self.tokens = Vec::new();
        match self.run(content) {
            Ok(()) => {
                let mut out: Vec<YamlToken> = Vec::new();
                core::mem::swap(&mut out, &mut self.tokens);
                Ok(out)
            },
            Err(e) => Err(e),
        }
    }
}

} // verus!
