//! Token definitions for the scanner: the executable token type and its
//! mathematical model.

use vstd::prelude::*;

verus! {

/// A lexical token of the configuration language.
///
/// `Space` is emitted once per literal space character, so the indentation
/// width of a line equals the number of consecutive `Space` tokens at its
/// start. Every successful scan ends with exactly one `EOF`.
#[derive(Debug, Clone, PartialEq)]
pub enum YamlToken {
    Identifier(String),
    NullVal,
    IntVal(i64),
    /// A decimal literal such as `3.14`, kept as its source text.
    FloatVal(String),
    StringVal(String),
    BoolVal(bool),
    /// `---`, the start-of-document marker.
    StartDoc,
    /// `...`, the end-of-document marker.
    EndDoc,
    /// One literal space character.
    Space,
    /// One literal tab character; never valid as indentation.
    TabSpace,
    /// `:`, the key/value separator.
    Colon,
    /// `#`-introduced comment content, newline excluded.
    Comment(String),
    /// `-`, the sequence item marker.
    Dash,
    /// `,`, the separator inside flow collections.
    Comma,
    LeftCurly,
    RightCurly,
    LeftSquare,
    RightSquare,
    /// `|` or `>`; the marker is kept, the block body is not captured.
    Multiline(String),
    /// The sentinel that terminates every token sequence.
    EOF,
}

/// The mathematical model of a token: the same variants as [`YamlToken`],
/// with every text payload abstracted to its sequence of characters.
pub enum GToken {
    Identifier(Seq<char>),
    NullVal,
    IntVal(i64),
    FloatVal(Seq<char>),
    StringVal(Seq<char>),
    BoolVal(bool),
    StartDoc,
    EndDoc,
    Space,
    TabSpace,
    Colon,
    Comment(Seq<char>),
    Dash,
    Comma,
    LeftCurly,
    RightCurly,
    LeftSquare,
    RightSquare,
    Multiline(Seq<char>),
    EOF,
}

impl View for YamlToken {
    type V = GToken;

    open spec fn view(&self) -> GToken {
        match self {
            YamlToken::Identifier(s) => GToken::Identifier(s@),
            YamlToken::NullVal => GToken::NullVal,
            YamlToken::IntVal(v) => GToken::IntVal(*v),
            YamlToken::FloatVal(s) => GToken::FloatVal(s@),
            YamlToken::StringVal(s) => GToken::StringVal(s@),
            YamlToken::BoolVal(b) => GToken::BoolVal(*b),
            YamlToken::StartDoc => GToken::StartDoc,
            YamlToken::EndDoc => GToken::EndDoc,
            YamlToken::Space => GToken::Space,
            YamlToken::TabSpace => GToken::TabSpace,
            YamlToken::Colon => GToken::Colon,
            YamlToken::Comment(s) => GToken::Comment(s@),
            YamlToken::Dash => GToken::Dash,
            YamlToken::Comma => GToken::Comma,
            YamlToken::LeftCurly => GToken::LeftCurly,
            YamlToken::RightCurly => GToken::RightCurly,
            YamlToken::LeftSquare => GToken::LeftSquare,
            YamlToken::RightSquare => GToken::RightSquare,
            YamlToken::Multiline(s) => GToken::Multiline(s@),
            YamlToken::EOF => GToken::EOF,
        }
    }
}

impl DeepView for YamlToken {
    type V = GToken;

    open spec fn deep_view(&self) -> GToken {
        self.view()
    }
}

} // verus!
