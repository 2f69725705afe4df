//! The mathematical model of scanning: a recursive function from a character
//! sequence to the token sequence it denotes, or to the first scan error.

use vstd::prelude::*;

use crate::errors::GScanErr;
use crate::errors::ScanErrorKind;
use crate::tokens::GToken;
use crate::tokens::YamlToken;

verus! {

/// A decimal digit.
pub open spec fn is_digit_char(c: char) -> bool {
    '0' as u32 <= c as u32 && c as u32 <= '9' as u32
}

/// A character that may stand in an identifier: an ASCII letter, a decimal
/// digit, or an underscore.
pub open spec fn is_ident_char(c: char) -> bool {
    ||| is_digit_char(c)
    ||| 'a' as u32 <= c as u32 && c as u32 <= 'z' as u32
    ||| 'A' as u32 <= c as u32 && c as u32 <= 'Z' as u32
    ||| c == '_'
}

/// The first position at or after `i` whose character is not a digit, or the
/// end of the input.
pub open spec fn digits_end(s: Seq<char>, i: int) -> int
    decreases s.len() - i,
        when 0 <= i <= s.len()
{
    if i < s.len() && is_digit_char(s[i]) {
        digits_end(s, i + 1)
    } else {
        i
    }
}

pub proof fn lemma_digits_end(s: Seq<char>, i: int)
    requires
        0 <= i <= s.len(),
    ensures
        i <= digits_end(s, i) <= s.len(),
        forall|m: int| i <= m < digits_end(s, i) ==> is_digit_char(#[trigger] s[m]),
        digits_end(s, i) < s.len() ==> !is_digit_char(s[digits_end(s, i)]),
    decreases s.len() - i,
{
    if i < s.len() && is_digit_char(s[i]) {
        lemma_digits_end(s, i + 1);
    }
}

/// The first position at or after `i` whose character is not an identifier
/// character, or the end of the input.
pub open spec fn ident_end(s: Seq<char>, i: int) -> int
    decreases s.len() - i,
        when 0 <= i <= s.len()
{
    if i < s.len() && is_ident_char(s[i]) {
        ident_end(s, i + 1)
    } else {
        i
    }
}

pub proof fn lemma_ident_end(s: Seq<char>, i: int)
    requires
        0 <= i <= s.len(),
    ensures
        i <= ident_end(s, i) <= s.len(),
        forall|m: int| i <= m < ident_end(s, i) ==> is_ident_char(#[trigger] s[m]),
        ident_end(s, i) < s.len() ==> !is_ident_char(s[ident_end(s, i)]),
    decreases s.len() - i,
{
    if i < s.len() && is_ident_char(s[i]) {
        lemma_ident_end(s, i + 1);
    }
}

/// The first position at or after `i` holding the closing quote `q` or a
/// newline, or the end of the input.
pub open spec fn quote_end(s: Seq<char>, i: int, q: char) -> int
    decreases s.len() - i,
        when 0 <= i <= s.len()
{
    if i < s.len() && s[i] != q && s[i] != '\n' {
        quote_end(s, i + 1, q)
    } else {
        i
    }
}

pub proof fn lemma_quote_end(s: Seq<char>, i: int, q: char)
    requires
        0 <= i <= s.len(),
    ensures
        i <= quote_end(s, i, q) <= s.len(),
        quote_end(s, i, q) < s.len() ==> s[quote_end(s, i, q)] == q || s[quote_end(
            s,
            i,
            q,
        )] == '\n',
    decreases s.len() - i,
{
    if i < s.len() && s[i] != q && s[i] != '\n' {
        lemma_quote_end(s, i + 1, q);
    }
}

/// The first position at or after `i` holding a newline, or the end of the
/// input.
pub open spec fn line_end(s: Seq<char>, i: int) -> int
    decreases s.len() - i,
        when 0 <= i <= s.len()
{
    if i < s.len() && s[i] != '\n' {
        line_end(s, i + 1)
    } else {
        i
    }
}

pub proof fn lemma_line_end(s: Seq<char>, i: int)
    requires
        0 <= i <= s.len(),
    ensures
        i <= line_end(s, i) <= s.len(),
        line_end(s, i) < s.len() ==> s[line_end(s, i)] == '\n',
    decreases s.len() - i,
{
    if i < s.len() && s[i] != '\n' {
        lemma_line_end(s, i + 1);
    }
}

/// The numeric value of the digit run `s[i..j)`, most significant digit
/// first.
pub open spec fn digits_val(s: Seq<char>, i: int, j: int) -> int
    decreases j - i,
        when 0 <= i <= j
{
    if i >= j {
        0
    } else {
        digits_val(s, i, j - 1) * 10 + (s[j - 1] as u32 - '0' as u32)
    }
}

pub proof fn lemma_digits_val_nonneg(s: Seq<char>, i: int, j: int)
    requires
        0 <= i <= j,
        forall|m: int| i <= m < j ==> is_digit_char(#[trigger] s[m]),
    ensures
        digits_val(s, i, j) >= 0,
    decreases j - i,
{
    if i < j {
        lemma_digits_val_nonneg(s, i, j - 1);
    }
}

/// Appending digits never lowers the value of the run.
pub proof fn lemma_digits_val_grows(s: Seq<char>, i: int, k: int, j: int)
    requires
        0 <= i <= k <= j,
        forall|m: int| i <= m < j ==> is_digit_char(#[trigger] s[m]),
    ensures
        digits_val(s, i, j) >= digits_val(s, i, k),
    decreases j - k,
{
    if k < j {
        lemma_digits_val_grows(s, i, k, j - 1);
        lemma_digits_val_nonneg(s, i, j - 1);
    }
}

/// Prepends a token to the result of scanning the rest of the input.
pub open spec fn cons_tok(t: GToken, rest: Result<Seq<GToken>, GScanErr>) -> Result<
    Seq<GToken>,
    GScanErr,
> {
    match rest {
        Ok(ts) => Ok(seq![t] + ts),
        Err(e) => Err(e),
    }
}

/// The model of scanning from position `i` on line `line`: the tokens of the
/// rest of the input, ending with `EOF`, or the first scan error. One token
/// is produced per character or per maximal run, exactly as the scanner
/// consumes them; newlines produce no token and advance the line count.
pub open spec fn scan_from(s: Seq<char>, i: int, line: int) -> Result<Seq<GToken>, GScanErr>
    decreases s.len() - i,
        when 0 <= i <= s.len()
{
    if i >= s.len() {
        Ok(seq![GToken::EOF])
    } else {
        let c = s[i];
        if c == '\n' {
            scan_from(s, i + 1, line + 1)
        } else if c == ' ' {
            cons_tok(GToken::Space, scan_from(s, i + 1, line))
        } else if c == '\t' {
            cons_tok(GToken::TabSpace, scan_from(s, i + 1, line))
        } else if c == ':' {
            cons_tok(GToken::Colon, scan_from(s, i + 1, line))
        } else if c == ',' {
            cons_tok(GToken::Comma, scan_from(s, i + 1, line))
        } else if c == '[' {
            cons_tok(GToken::LeftSquare, scan_from(s, i + 1, line))
        } else if c == ']' {
            cons_tok(GToken::RightSquare, scan_from(s, i + 1, line))
        } else if c == '{' {
            cons_tok(GToken::LeftCurly, scan_from(s, i + 1, line))
        } else if c == '}' {
            cons_tok(GToken::RightCurly, scan_from(s, i + 1, line))
        } else if c == '|' || c == '>' {
            cons_tok(GToken::Multiline(seq![c]), scan_from(s, i + 1, line))
        } else if c == '-' {
            if i + 1 < s.len() && s[i + 1] == '-' {
                if i + 2 < s.len() && s[i + 2] == '-' {
                    cons_tok(GToken::StartDoc, scan_from(s, i + 3, line))
                } else {
                    Err(GScanErr { kind: ScanErrorKind::MalformedDocumentMarker, line, pos: i })
                }
            } else {
                cons_tok(GToken::Dash, scan_from(s, i + 1, line))
            }
        } else if c == '.' {
            if i + 2 < s.len() && s[i + 1] == '.' && s[i + 2] == '.' {
                cons_tok(GToken::EndDoc, scan_from(s, i + 3, line))
            } else {
                Err(GScanErr { kind: ScanErrorKind::MalformedDocumentMarker, line, pos: i })
            }
        } else if c == '"' || c == '\'' {
            let j = quote_end(s, i + 1, c);
            if j < s.len() && s[j] == c {
                proof {
                    lemma_quote_end(s, i + 1, c);
                }
                cons_tok(GToken::StringVal(s.subrange(i + 1, j)), scan_from(s, j + 1, line))
            } else {
                Err(GScanErr { kind: ScanErrorKind::UnterminatedString, line, pos: i })
            }
        } else if c == '#' {
            let j = line_end(s, i + 1);
            let start = if i + 1 < j && s[i + 1] == ' ' {
                i + 2
            } else {
                i + 1
            };
            proof {
                lemma_line_end(s, i + 1);
            }
            if j < s.len() {
                cons_tok(GToken::Comment(s.subrange(start, j)), scan_from(s, j + 1, line + 1))
            } else {
                cons_tok(GToken::Comment(s.subrange(start, j)), scan_from(s, j, line))
            }
        } else if is_digit_char(c) {
            let j = digits_end(s, i);
            proof {
                lemma_digits_end(s, i);
            }
            if j + 1 < s.len() && s[j] == '.' && is_digit_char(s[j + 1]) {
                let k = digits_end(s, j + 1);
                proof {
                    lemma_digits_end(s, j + 1);
                }
                cons_tok(GToken::FloatVal(s.subrange(i, k)), scan_from(s, k, line))
            } else {
                let v = digits_val(s, i, j);
                if v <= i64::MAX {
                    cons_tok(GToken::IntVal(v as i64), scan_from(s, j, line))
                } else {
                    Err(GScanErr { kind: ScanErrorKind::NumericOverflow, line, pos: i })
                }
            }
        } else if is_ident_char(c) {
            let j = ident_end(s, i);
            proof {
                lemma_ident_end(s, i);
            }
            cons_tok(GToken::Identifier(s.subrange(i, j)), scan_from(s, j, line))
        } else {
            Err(GScanErr { kind: ScanErrorKind::UnscannableCharacter, line, pos: i })
        }
    }
}

/// The model of scanning a whole input.
pub open spec fn scan_result(s: Seq<char>) -> Result<Seq<GToken>, GScanErr> {
    scan_from(s, 0, 0)
}

/// The models of a vector of tokens, in order.
pub open spec fn toks_view(ts: Seq<YamlToken>) -> Seq<GToken> {
    Seq::new(ts.len(), |i: int| ts[i]@)
}

/// Tokenization is deterministic: any two token sequences that the scan
/// model admits for one and the same input are equal. Together with the
/// contract of `Scanner::scan`, which returns exactly the tokens of
/// `scan_result`, two scans of equal inputs yield identical token sequences.
pub proof fn lemma_scan_deterministic(s: Seq<char>, toks1: Seq<GToken>, toks2: Seq<GToken>)
    requires
        scan_result(s) == Ok::<Seq<GToken>, GScanErr>(toks1),
        scan_result(s) == Ok::<Seq<GToken>, GScanErr>(toks2),
    ensures
        toks1 == toks2,
{
}

/// Prepending one non-`EOF` token keeps the end-of-file invariant.
proof fn lemma_eof_cons(t: GToken, rest: Seq<GToken>, toks: Seq<GToken>)
    requires
        toks == seq![t] + rest,
        t != GToken::EOF,
        rest.len() >= 1,
        rest[rest.len() - 1] == GToken::EOF,
        forall|k: int| 0 <= k < rest.len() - 1 ==> rest[k] != GToken::EOF,
    ensures
        toks.len() >= 1,
        toks[toks.len() - 1] == GToken::EOF,
        forall|k: int| 0 <= k < toks.len() - 1 ==> toks[k] != GToken::EOF,
{
    assert(toks[toks.len() - 1] == rest[rest.len() - 1]);
    assert forall|k: int| 0 <= k < toks.len() - 1 implies toks[k] != GToken::EOF by {
        if k == 0 {
            assert(toks[0] == t);
        } else {
            assert(toks[k] == rest[k - 1]);
        }
    }
}

/// One scan step emitting the non-`EOF` token `t` and continuing at `i2`
/// keeps the end-of-file invariant.
proof fn lemma_eof_step(s: Seq<char>, i2: int, line2: int, t: GToken, toks: Seq<GToken>)
    requires
        0 <= i2 <= s.len(),
        t != GToken::EOF,
        cons_tok(t, scan_from(s, i2, line2)) == Ok::<Seq<GToken>, GScanErr>(toks),
    ensures
        toks.len() >= 1,
        toks[toks.len() - 1] == GToken::EOF,
        forall|k: int| 0 <= k < toks.len() - 1 ==> toks[k] != GToken::EOF,
    decreases s.len() - i2, 1int,
{
    match scan_from(s, i2, line2) {
        Ok(rest) => {
            lemma_scan_from_eof(s, i2, line2, rest);
            lemma_eof_cons(t, rest, toks);
        },
        Err(_) => {
            assert(false);
        },
    }
}

/// Scanning from any boundary ends in exactly one `EOF`, with no earlier
/// `EOF` in the sequence.
proof fn lemma_scan_from_eof(s: Seq<char>, i: int, line: int, toks: Seq<GToken>)
    requires
        0 <= i <= s.len(),
        scan_from(s, i, line) == Ok::<Seq<GToken>, GScanErr>(toks),
    ensures
        toks.len() >= 1,
        toks[toks.len() - 1] == GToken::EOF,
        forall|k: int| 0 <= k < toks.len() - 1 ==> toks[k] != GToken::EOF,
    decreases s.len() - i, 0int,
{
    if i >= s.len() {
        assert(toks == seq![GToken::EOF]);
    } else {
        let c = s[i];
        if c == '\n' {
            lemma_scan_from_eof(s, i + 1, line + 1, toks);
        } else if c == ' ' {
            lemma_eof_step(s, i + 1, line, GToken::Space, toks);
        } else if c == '\t' {
            lemma_eof_step(s, i + 1, line, GToken::TabSpace, toks);
        } else if c == ':' {
            lemma_eof_step(s, i + 1, line, GToken::Colon, toks);
        } else if c == ',' {
            lemma_eof_step(s, i + 1, line, GToken::Comma, toks);
        } else if c == '[' {
            lemma_eof_step(s, i + 1, line, GToken::LeftSquare, toks);
        } else if c == ']' {
            lemma_eof_step(s, i + 1, line, GToken::RightSquare, toks);
        } else if c == '{' {
            lemma_eof_step(s, i + 1, line, GToken::LeftCurly, toks);
        } else if c == '}' {
            lemma_eof_step(s, i + 1, line, GToken::RightCurly, toks);
        } else if c == '|' || c == '>' {
            lemma_eof_step(s, i + 1, line, GToken::Multiline(seq![c]), toks);
        } else if c == '-' {
            if i + 1 < s.len() && s[i + 1] == '-' {
                lemma_eof_step(s, i + 3, line, GToken::StartDoc, toks);
            } else {
                lemma_eof_step(s, i + 1, line, GToken::Dash, toks);
            }
        } else if c == '.' {
            lemma_eof_step(s, i + 3, line, GToken::EndDoc, toks);
        } else if c == '"' || c == '\'' {
            let j = quote_end(s, i + 1, c);
            lemma_quote_end(s, i + 1, c);
            lemma_eof_step(s, j + 1, line, GToken::StringVal(s.subrange(i + 1, j)), toks);
        } else if c == '#' {
            let j = line_end(s, i + 1);
            let start = if i + 1 < j && s[i + 1] == ' ' {
                i + 2
            } else {
                i + 1
            };
            lemma_line_end(s, i + 1);
            if j < s.len() {
                lemma_eof_step(s, j + 1, line + 1, GToken::Comment(s.subrange(start, j)), toks);
            } else {
                lemma_eof_step(s, j, line, GToken::Comment(s.subrange(start, j)), toks);
            }
        } else if is_digit_char(c) {
            let j = digits_end(s, i);
            lemma_digits_end(s, i);
            if j + 1 < s.len() && s[j] == '.' && is_digit_char(s[j + 1]) {
                let k = digits_end(s, j + 1);
                lemma_digits_end(s, j + 1);
                lemma_eof_step(s, k, line, GToken::FloatVal(s.subrange(i, k)), toks);
            } else {
                let v = digits_val(s, i, j);
                lemma_eof_step(s, j, line, GToken::IntVal(v as i64), toks);
            }
        } else if is_ident_char(c) {
            let j = ident_end(s, i);
            lemma_ident_end(s, i);
            lemma_eof_step(s, j, line, GToken::Identifier(s.subrange(i, j)), toks);
        } else {
            assert(false);
        }
    }
}

/// The last token of every successful scan is exactly one `EOF`: the token
/// sequence is nonempty, ends with `EOF`, and holds no other `EOF`.
pub proof fn lemma_scan_eof(s: Seq<char>, toks: Seq<GToken>)
    requires
        scan_result(s) == Ok::<Seq<GToken>, GScanErr>(toks),
    ensures
        toks.len() >= 1,
        toks[toks.len() - 1] == GToken::EOF,
        forall|k: int| 0 <= k < toks.len() - 1 ==> toks[k] != GToken::EOF,
{
    lemma_scan_from_eof(s, 0, 0, toks);
}

} // verus!
