use monkey_yaml::ParseErrorKind;
use monkey_yaml::Parser;
use monkey_yaml::Scanner;
use monkey_yaml::YamlObject;
use monkey_yaml::YamlScanner;

fn parse_text(input: &str) -> Result<YamlObject, monkey_yaml::YamlParserError> {
    let mut scanner = Scanner::new();
    let tokens = scanner.scan(input).unwrap();
    let mut parser = Parser::new();
    parser.parse(&tokens)
}

fn mapping(key: &str, value: YamlObject) -> YamlObject {
    YamlObject::Mapping(key.to_string(), Box::new(value), false)
}

/// The nesting depth of a tree: how many mapping levels it holds.
fn mapping_depth(node: &YamlObject) -> usize {
    match node {
        YamlObject::Document(children) => {
            children.iter().map(mapping_depth).max().unwrap_or(0)
        }
        YamlObject::Mapping(_, value, _) => 1 + mapping_depth(value),
        YamlObject::Sequence(items) => {
            items.iter().map(mapping_depth).max().unwrap_or(0)
        }
        _ => 0,
    }
}

#[test]
fn parse_simple_one() {
    let mut scanner = Scanner::new();
    let mut parser = Parser::new();
    let simple_yaml = "# This is a list of document\n---\namerican:\n - \"Boston Red Sox\"\n - \"Detroit Tigers\"\n - \"New York Yankees\"\nnational:\n - \"New York Mets\"\n - \"Chicago Cubs\"\n - \"Atlanta Braves\"\n";
    let tokens = scanner.scan(simple_yaml).unwrap();
    println!("{:?}", tokens);
    let doc = parser.parse(&tokens).unwrap();
    match doc {
        YamlObject::Document(ir) => assert!(ir.len() > 0),
        other => panic!("expected a document, got {:?}", other),
    }
}

#[test]
fn parse_simple_two() {
    let mut scanner = Scanner::new();
    let mut parser = Parser::new();
    let simple_yaml = "# This is a list of document\nModelOne:\n  - PropOne:\n      - doc_comment: \"Documentation document\"\n      - type: \"int64\"\n      - visibility: \"public\"\n      - mutable: true\n      - nullable: true\n      - reference: false\n  - PropTwo:\n      - doc_comment: \"This is a prop that contains a custom type\"\n      - type: \"ModelOne\"\n      - visibility: \"public\"\n      - mutable: true\n      - nullable: true\n      - reference: true";
    let tokens = scanner.scan(simple_yaml).unwrap();
    let ir = parser.parse(&tokens).unwrap();
    match ir {
        YamlObject::Document(children) => assert!(children.len() > 0),
        other => panic!("expected a document, got {:?}", other),
    }
}

#[test]
fn scalar_to_sequence_example() {
    // Example: a key whose value is a sequence of quoted scalars.
    let doc = parse_text("american:\n - \"Boston Red Sox\"\n - \"Detroit Tigers\"\n").unwrap();
    let expected = YamlObject::Document(vec![mapping(
        "american",
        YamlObject::Sequence(vec![
            YamlObject::Str("Boston Red Sox".to_string()),
            YamlObject::Str("Detroit Tigers".to_string()),
        ]),
    )]);
    assert_eq!(doc, expected);
}

#[test]
fn nested_sequences_example() {
    // Example: each `- key:` line strictly increases the width.
    let doc = parse_text("ModelOne:\n  - PropOne:\n      - mutable: true\n").unwrap();
    let expected = YamlObject::Document(vec![mapping(
        "ModelOne",
        YamlObject::Sequence(vec![mapping(
            "PropOne",
            YamlObject::Sequence(vec![mapping("mutable", YamlObject::Bool(true))]),
        )]),
    )]);
    assert_eq!(doc, expected);
}

#[test]
fn comment_only_document_example() {
    let doc = parse_text("# just a comment\n").unwrap();
    let expected = YamlObject::Document(vec![YamlObject::Comment("just a comment".to_string())]);
    assert_eq!(doc, expected);
}

#[test]
fn ragged_indentation_example() {
    // The second sibling is indented by one where its scope used two.
    let err = parse_text("a:\n  x: 1\n x: 2\n").unwrap_err();
    assert_eq!(err.kind, ParseErrorKind::InconsistentIndentation);
}

#[test]
fn flow_collection_example() {
    // A flow collection parses to an Unsupported placeholder, and the parse
    // still succeeds.
    let doc = parse_text("a: [1,2]\n").unwrap();
    match doc {
        YamlObject::Document(children) => {
            assert_eq!(children.len(), 1);
            match &children[0] {
                YamlObject::Mapping(key, value, flow) => {
                    assert_eq!(key, "a");
                    assert!(!*flow);
                    assert!(matches!(**value, YamlObject::Unsupported(_)));
                }
                other => panic!("expected a mapping, got {:?}", other),
            }
        }
        other => panic!("expected a document, got {:?}", other),
    }
}

#[test]
fn indentation_round_trip_depth() {
    // A synthetic document with strictly increasing widths 0, 2, 4: the
    // nesting depth equals the number of distinct widths.
    let doc = parse_text("l0:\n  l1:\n    l2: 7\n").unwrap();
    assert_eq!(mapping_depth(&doc), 3);
    let expected = YamlObject::Document(vec![mapping(
        "l0",
        mapping("l1", mapping("l2", YamlObject::Int(7))),
    )]);
    assert_eq!(doc, expected);
}

#[test]
fn successful_parse_closes_every_scope() {
    // Stack-empty postcondition: a parse that opened and closed several
    // scopes still succeeds as a whole, and the same parser can parse again.
    let mut scanner = Scanner::new();
    let tokens = scanner.scan("a:\n - 1\nb: 2\n").unwrap();
    let mut parser = Parser::new();
    assert!(parser.parse(&tokens).is_ok());
    assert!(parser.parse(&tokens).is_ok());
}

#[test]
fn tab_rejected_at_document_start() {
    let err = parse_text("\tx: 1\n").unwrap_err();
    assert_eq!(err.kind, ParseErrorKind::InconsistentIndentation);
}

#[test]
fn tab_rejected_in_value_indentation() {
    let err = parse_text("a:\n\t- 1\n").unwrap_err();
    assert_eq!(err.kind, ParseErrorKind::InconsistentIndentation);
}

#[test]
fn tab_rejected_in_sibling_indentation() {
    let err = parse_text("a:\n - 1\n\t- 2\n").unwrap_err();
    assert_eq!(err.kind, ParseErrorKind::InconsistentIndentation);
}

#[test]
fn tab_rejected_after_spaces() {
    let err = parse_text("a:\n \t b: 1\n").unwrap_err();
    assert_eq!(err.kind, ParseErrorKind::InconsistentIndentation);
}

#[test]
fn empty_input_is_an_empty_document() {
    let doc = parse_text("").unwrap();
    assert_eq!(doc, YamlObject::Document(vec![]));
}

#[test]
fn inline_scalars_normalize() {
    let doc = parse_text("a: true\nb: false\nc: null\nd: \"true\"\ne: \"~\"\nf: word\n").unwrap();
    let expected = YamlObject::Document(vec![
        mapping("a", YamlObject::Bool(true)),
        mapping("b", YamlObject::Bool(false)),
        mapping("c", YamlObject::Null),
        mapping("d", YamlObject::Bool(true)),
        mapping("e", YamlObject::Null),
        mapping("f", YamlObject::Str("word".to_string())),
    ]);
    assert_eq!(doc, expected);
}

#[test]
fn float_value_keeps_source_text() {
    let doc = parse_text("pi: 3.14\n").unwrap();
    let expected = YamlObject::Document(vec![mapping("pi", YamlObject::Float("3.14".to_string()))]);
    assert_eq!(doc, expected);
}

#[test]
fn nested_block_mapping_single_entry() {
    let doc = parse_text("a:\n  b: 1\n").unwrap();
    let expected = YamlObject::Document(vec![mapping("a", mapping("b", YamlObject::Int(1)))]);
    assert_eq!(doc, expected);
}

#[test]
fn nested_block_mapping_several_entries() {
    let doc = parse_text("a:\n  b: 1\n  c: 2\n").unwrap();
    let expected = YamlObject::Document(vec![mapping(
        "a",
        YamlObject::Sequence(vec![
            mapping("b", YamlObject::Int(1)),
            mapping("c", YamlObject::Int(2)),
        ]),
    )]);
    assert_eq!(doc, expected);
}

#[test]
fn comment_between_sequence_items() {
    let doc = parse_text("a:\n - 1\n # note\n - 2\n").unwrap();
    let expected = YamlObject::Document(vec![mapping(
        "a",
        YamlObject::Sequence(vec![
            YamlObject::Int(1),
            YamlObject::Comment("note".to_string()),
            YamlObject::Int(2),
        ]),
    )]);
    assert_eq!(doc, expected);
}

#[test]
fn multiline_scalar_is_unsupported() {
    let doc = parse_text("a: |\n").unwrap();
    match doc {
        YamlObject::Document(children) => match &children[0] {
            YamlObject::Mapping(_, value, _) => {
                assert!(matches!(**value, YamlObject::Unsupported(_)))
            }
            other => panic!("expected a mapping, got {:?}", other),
        },
        other => panic!("expected a document, got {:?}", other),
    }
}

#[test]
fn start_doc_requires_an_identifier() {
    let err = parse_text("---\n").unwrap_err();
    assert_eq!(err.kind, ParseErrorKind::MalformedDocument);
}

#[test]
fn end_doc_marker_is_rejected() {
    let err = parse_text("a: 1\n...\n").unwrap_err();
    assert_eq!(err.kind, ParseErrorKind::MalformedDocument);
}

#[test]
fn key_without_colon_is_malformed() {
    let err = parse_text("a 1\n").unwrap_err();
    assert_eq!(err.kind, ParseErrorKind::MalformedDocument);
}

#[test]
fn leading_colon_is_malformed() {
    let err = parse_text(": 1\n").unwrap_err();
    assert_eq!(err.kind, ParseErrorKind::MalformedDocument);
}

#[test]
fn key_without_value_is_invalid() {
    let err = parse_text("a:\n").unwrap_err();
    assert_eq!(err.kind, ParseErrorKind::InvalidMappingValue);
}

#[test]
fn unclosed_flow_collection_is_unterminated() {
    let err = parse_text("a: [1,2\n").unwrap_err();
    assert_eq!(err.kind, ParseErrorKind::UnterminatedDocument);
}

#[test]
fn deeper_line_after_scalar_is_inconsistent() {
    let err = parse_text("a:\n - 1\n   - 2\n").unwrap_err();
    assert_eq!(err.kind, ParseErrorKind::InconsistentIndentation);
}

#[test]
fn indented_top_level_entry_is_inconsistent() {
    let err = parse_text("  a: 1\n").unwrap_err();
    assert_eq!(err.kind, ParseErrorKind::InconsistentIndentation);
}

#[test]
fn sequence_item_mixing_is_rejected() {
    let err = parse_text("a:\n - - 1\n").unwrap_err();
    assert_eq!(err.kind, ParseErrorKind::InvalidMappingValue);
}

#[test]
fn error_carries_position_and_token() {
    let err = parse_text("a:\n  x: 1\n x: 2\n").unwrap_err();
    // Tokens: a : S S x : S 1 S x ...; the ragged line's leading space, at
    // token position 8, is where the document loop reports the failure.
    assert_eq!(err.pos, 8);
    assert!(err.token.len() > 0);
}

#[test]
fn bare_sequence_items_normalize() {
    let doc = parse_text("a:\n - yes\n - true\n - null\n").unwrap();
    let expected = YamlObject::Document(vec![mapping(
        "a",
        YamlObject::Sequence(vec![
            YamlObject::Str("yes".to_string()),
            YamlObject::Bool(true),
            YamlObject::Null,
        ]),
    )]);
    assert_eq!(doc, expected);
}
