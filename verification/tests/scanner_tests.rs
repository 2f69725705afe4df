use monkey_yaml::ScanErrorKind;
use monkey_yaml::Scanner;
use monkey_yaml::YamlScanner;
use monkey_yaml::YamlToken;

#[test]
fn scan_simple_one() {
    let mut scanner = Scanner::new();
    let simple_yaml = "# This is a list of document\n---\namerican:\n - \"Boston Red Sox\"\n - \"Detroit Tigers\"\n - \"New York Yankees\"\nnational:\n - \"New York Mets\"\n - \"Chicago Cubs\"\n - \"Atlanta Braves\"\n";
    let tokens = scanner.scan(simple_yaml).unwrap();
    println!("{:?}", tokens);
    assert!(tokens.len() > 0);
}

#[test]
fn scan_simple_two() {
    let mut scanner = Scanner::new();
    let simple_yaml = "# This is a list of document\nModelOne:\n  - PropOne:\n      - doc_comment: \"Documentation document\"\n      - type: \"int64\"\n      - visibility: \"public\"\n      - mutable: true\n      - nullable: true\n      - reference: false\n  - PropTwo:\n      - doc_comment: \"This is a prop that contains a custom type\"\n      - type: \"ModelOne\"\n      - visibility: \"public\"\n      - mutable: true\n      - nullable: true\n      - reference: true";
    let tokens = scanner.scan(simple_yaml).unwrap();
    println!("{:?}", tokens);
    assert!(tokens.len() > 0);
}

#[test]
fn scan_exact_tokens_of_one_entry() {
    let mut scanner = Scanner::new();
    let tokens = scanner.scan("x: 42").unwrap();
    assert_eq!(
        tokens,
        vec![
            YamlToken::Identifier("x".to_string()),
            YamlToken::Colon,
            YamlToken::Space,
            YamlToken::IntVal(42),
            YamlToken::EOF,
        ]
    );
}

#[test]
fn scan_is_deterministic() {
    // Tokenization determinism: two scans of the same input are identical.
    let input = "a: 1\nb:\n - \"two\"\n# note\n";
    let mut first = Scanner::new();
    let mut second = Scanner::new();
    let tokens1 = first.scan(input).unwrap();
    let tokens2 = second.scan(input).unwrap();
    assert_eq!(tokens1, tokens2);
}

#[test]
fn scan_ends_with_exactly_one_eof() {
    // EOF invariant: exactly one EOF, and it is the last token.
    let input = "a: 1\nb: 2\n";
    let mut scanner = Scanner::new();
    let tokens = scanner.scan(input).unwrap();
    assert_eq!(tokens.last(), Some(&YamlToken::EOF));
    let eof_count = tokens.iter().filter(|t| matches!(t, YamlToken::EOF)).count();
    assert_eq!(eof_count, 1);
}

#[test]
fn scan_empty_input_is_one_eof() {
    let mut scanner = Scanner::new();
    let tokens = scanner.scan("").unwrap();
    assert_eq!(tokens, vec![YamlToken::EOF]);
}

#[test]
fn scan_spaces_one_token_per_character() {
    let mut scanner = Scanner::new();
    let tokens = scanner.scan("  a").unwrap();
    assert_eq!(
        tokens,
        vec![
            YamlToken::Space,
            YamlToken::Space,
            YamlToken::Identifier("a".to_string()),
            YamlToken::EOF,
        ]
    );
}

#[test]
fn scan_tab_token() {
    let mut scanner = Scanner::new();
    let tokens = scanner.scan("\t").unwrap();
    assert_eq!(tokens, vec![YamlToken::TabSpace, YamlToken::EOF]);
}

#[test]
fn scan_document_markers() {
    let mut scanner = Scanner::new();
    let tokens = scanner.scan("---\n...").unwrap();
    assert_eq!(tokens, vec![YamlToken::StartDoc, YamlToken::EndDoc, YamlToken::EOF]);
}

#[test]
fn scan_flow_tokens_and_comma() {
    let mut scanner = Scanner::new();
    let tokens = scanner.scan("[1,2]{}").unwrap();
    assert_eq!(
        tokens,
        vec![
            YamlToken::LeftSquare,
            YamlToken::IntVal(1),
            YamlToken::Comma,
            YamlToken::IntVal(2),
            YamlToken::RightSquare,
            YamlToken::LeftCurly,
            YamlToken::RightCurly,
            YamlToken::EOF,
        ]
    );
}

#[test]
fn scan_multiline_markers() {
    let mut scanner = Scanner::new();
    let tokens = scanner.scan("|>").unwrap();
    assert_eq!(
        tokens,
        vec![
            YamlToken::Multiline("|".to_string()),
            YamlToken::Multiline(">".to_string()),
            YamlToken::EOF,
        ]
    );
}

#[test]
fn scan_float_keeps_source_text() {
    let mut scanner = Scanner::new();
    let tokens = scanner.scan("3.14").unwrap();
    assert_eq!(tokens, vec![YamlToken::FloatVal("3.14".to_string()), YamlToken::EOF]);
}

#[test]
fn scan_largest_integer() {
    let mut scanner = Scanner::new();
    let tokens = scanner.scan("9223372036854775807").unwrap();
    assert_eq!(tokens, vec![YamlToken::IntVal(i64::MAX), YamlToken::EOF]);
}

#[test]
fn scan_integer_overflow_is_an_error() {
    let mut scanner = Scanner::new();
    let err = scanner.scan("9223372036854775808").unwrap_err();
    assert_eq!(err.kind, ScanErrorKind::NumericOverflow);
    assert_eq!(err.pos, 0);
}

#[test]
fn scan_comment_drops_one_leading_space() {
    let mut scanner = Scanner::new();
    let tokens = scanner.scan("# note\n#note\n#  note\n").unwrap();
    assert_eq!(
        tokens,
        vec![
            YamlToken::Comment("note".to_string()),
            YamlToken::Comment("note".to_string()),
            YamlToken::Comment(" note".to_string()),
            YamlToken::EOF,
        ]
    );
}

#[test]
fn scan_string_keeps_enclosed_text() {
    let mut scanner = Scanner::new();
    let tokens = scanner.scan("'a b' \"c:d\"").unwrap();
    assert_eq!(
        tokens,
        vec![
            YamlToken::StringVal("a b".to_string()),
            YamlToken::Space,
            YamlToken::StringVal("c:d".to_string()),
            YamlToken::EOF,
        ]
    );
}

#[test]
fn scan_unterminated_string_at_end_of_input() {
    let mut scanner = Scanner::new();
    let err = scanner.scan("\"abc").unwrap_err();
    assert_eq!(err.kind, ScanErrorKind::UnterminatedString);
}

#[test]
fn scan_unterminated_string_at_end_of_line() {
    let mut scanner = Scanner::new();
    let err = scanner.scan("\"ab\ncd\"").unwrap_err();
    assert_eq!(err.kind, ScanErrorKind::UnterminatedString);
}

#[test]
fn scan_unscannable_character() {
    let mut scanner = Scanner::new();
    let err = scanner.scan("a: @\n").unwrap_err();
    assert_eq!(err.kind, ScanErrorKind::UnscannableCharacter);
    assert_eq!(err.pos, 3);
    assert_eq!(err.line, 0);
}

#[test]
fn scan_error_reports_line() {
    let mut scanner = Scanner::new();
    let err = scanner.scan("a: 1\nb: @\n").unwrap_err();
    assert_eq!(err.kind, ScanErrorKind::UnscannableCharacter);
    assert_eq!(err.line, 1);
}

#[test]
fn scan_two_dashes_are_a_malformed_marker() {
    let mut scanner = Scanner::new();
    let err = scanner.scan("--x").unwrap_err();
    assert_eq!(err.kind, ScanErrorKind::MalformedDocumentMarker);
}

#[test]
fn scan_lone_dot_is_a_malformed_marker() {
    let mut scanner = Scanner::new();
    let err = scanner.scan(".").unwrap_err();
    assert_eq!(err.kind, ScanErrorKind::MalformedDocumentMarker);
}

#[test]
fn scan_single_dash_is_a_dash() {
    let mut scanner = Scanner::new();
    let tokens = scanner.scan("- 1").unwrap();
    assert_eq!(
        tokens,
        vec![YamlToken::Dash, YamlToken::Space, YamlToken::IntVal(1), YamlToken::EOF]
    );
}

#[test]
fn scan_identifier_with_underscore_and_digits() {
    let mut scanner = Scanner::new();
    let tokens = scanner.scan("doc_comment2").unwrap();
    assert_eq!(
        tokens,
        vec![YamlToken::Identifier("doc_comment2".to_string()), YamlToken::EOF]
    );
}
