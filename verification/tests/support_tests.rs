use monkey_yaml::BagMetaNode;
use monkey_yaml::BagNode;
use monkey_yaml::BasicStream;
use monkey_yaml::CharMetaNode;
use monkey_yaml::CharNode;
use monkey_yaml::CodeGenStrategy;
use monkey_yaml::DataModel;
use monkey_yaml::DummyTracer;
use monkey_yaml::Golang;
use monkey_yaml::ListType;
use monkey_yaml::MetaNode;
use monkey_yaml::ObjMetaNode;
use monkey_yaml::SourceCodeIRNode;
use monkey_yaml::Stream;
use monkey_yaml::TraceLevel;
use monkey_yaml::Tracer;
use monkey_yaml::VisibilityMeta;
use monkey_yaml::VisitErr;
use monkey_yaml::VisitSrc;
use monkey_yaml::YamlObject;
use monkey_yaml::YamlToken;
use monkey_yaml::YamlScanner;
use monkey_yaml::YamlScope;
use monkey_yaml::YamlVisitor;
use monkey_yaml::Parser;
use monkey_yaml::Scanner;

#[test]
fn stream_walks_tokens_in_order() {
    let tokens = vec![YamlToken::Dash, YamlToken::Space, YamlToken::IntVal(7), YamlToken::EOF];
    let mut stream: BasicStream<YamlToken> = BasicStream::new(&tokens);
    assert!(!stream.is_end());
    assert_eq!(stream.peek(), &YamlToken::Dash);
    assert_eq!(stream.advance(), &YamlToken::Dash);
    assert_eq!(stream.advance(), &YamlToken::Space);
    assert_eq!(stream.peek(), &YamlToken::IntVal(7));
    assert_eq!(stream.prev(), &YamlToken::Space);
    assert_eq!(stream.advance(), &YamlToken::IntVal(7));
    assert_eq!(stream.advance(), &YamlToken::EOF);
    assert!(stream.is_end());
}

#[test]
fn stream_lookup_is_none_past_the_end() {
    let tokens = vec![YamlToken::Colon, YamlToken::EOF];
    let stream: BasicStream<YamlToken> = BasicStream::new(&tokens);
    assert_eq!(stream.lookup(0), Some(&YamlToken::Colon));
    assert_eq!(stream.lookup(1), Some(&YamlToken::EOF));
    assert_eq!(stream.lookup(2), None);
}

#[test]
fn stream_new_with_pos_starts_there() {
    let tokens = vec![YamlToken::Colon, YamlToken::Dash, YamlToken::EOF];
    let stream: BasicStream<YamlToken> = BasicStream::new_with_pos(&tokens, 1);
    assert_eq!(stream.peek(), &YamlToken::Dash);
}

#[test]
fn stream_on_empty_input_is_at_end() {
    let tokens: Vec<YamlToken> = vec![];
    let stream: BasicStream<YamlToken> = BasicStream::new(&tokens);
    assert!(stream.is_end());
}

#[test]
fn dummy_tracer_accepts_every_level() {
    let tracer = DummyTracer::new();
    tracer.log(TraceLevel::Debug, &"quiet".to_string());
    tracer.log(TraceLevel::Info, &"still quiet".to_string());
    tracer.debug(&"no-op".to_string());
    tracer.info(&"no-op".to_string());
}

#[test]
fn meta_nodes_keep_their_fields() {
    let meta = MetaNode::new(
        Some("a field".to_string()),
        Some(VisibilityMeta::Public),
        Some(true),
        Some(false),
        None,
    );
    assert_eq!(meta.comment, Some("a field".to_string()));
    assert_eq!(meta.mutability, Some(true));
    assert_eq!(meta.nullable, Some(false));
    assert!(meta.pointer.is_none());
    let obj = ObjMetaNode::new(&meta);
    assert_eq!(obj.metadata.comment, Some("a field".to_string()));
    let tipe = CharNode::Str("name".to_string());
    let chr = CharMetaNode::new(&meta, &tipe);
    assert!(matches!(chr.tipe, CharNode::Str(_)));
    let bag = BagNode::ListNode(ListType { item_type: Some("int64".to_string()), complex_type: Box::new(None) });
    let bagn = BagMetaNode::new(&meta, &bag);
    assert!(matches!(bagn.tipe, BagNode::ListNode(_)));
}

#[test]
fn golang_strategy_accepts_a_model() {
    let nodes: Vec<YamlObject> = vec![YamlObject::Int(1)];
    let model = DataModel::Yaml(&nodes);
    let strategy = Golang;
    assert!(strategy.generate(&model).is_ok());
}

#[test]
fn visit_src_builds_an_empty_node() {
    assert!(VisitSrc::visit_array().is_ok());
    let node: SourceCodeIRNode = VisitSrc::result();
    assert_eq!(node.name, "");
    assert!(node.doc_str.is_none());
    assert!(node.verify());
}

#[test]
fn yaml_scope_variants_carry_positions() {
    let open = YamlScope::OpenScope(3);
    let close = YamlScope::CloseScope(3, 9);
    let invalid = YamlScope::InvalidScope("ragged".to_string());
    assert!(matches!(open, YamlScope::OpenScope(3)));
    assert!(matches!(close, YamlScope::CloseScope(3, 9)));
    assert!(matches!(invalid, YamlScope::InvalidScope(_)));
}

struct SilentTracer;

impl Tracer for SilentTracer {
    fn new() -> Self {
        SilentTracer
    }

    fn debug(&self, _msg: &String) {}

    fn info(&self, _msg: &String) {}
}

#[test]
fn parser_accepts_an_injected_tracer() {
    let mut scanner = Scanner::new();
    let tokens = scanner.scan("k: 1\n").unwrap();
    let mut parser = Parser::new_with_tracer(SilentTracer::new());
    assert!(parser.parse(&tokens).is_ok());
}

#[test]
fn visit_err_messages() {
    assert_eq!(VisitErr::Any("broken".to_string()).message(), "broken");
    assert_eq!(VisitErr::Unknown.message(), "unknown visit failure");
}
