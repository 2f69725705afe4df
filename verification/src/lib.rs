//! A small front end for block-style, indentation-delimited YAML-like
//! configuration text: a scanner that turns text into a token sequence and an
//! indentation-stack parser that turns tokens into a tree of nodes.

pub mod codegen;
pub mod errors;
pub mod laws;
pub mod objects;
pub mod parse_spec;
pub mod parser;
pub mod scan_spec;
pub mod scanner;
pub mod src_ir;
pub mod src_visit;
pub mod stream;
pub mod tokens;
pub mod tracer;
pub mod visitor;

pub use codegen::CodeGenStrategy;
pub use codegen::DataModel;
pub use codegen::Golang;
pub use errors::ParseErrorKind;
pub use errors::ScanError;
pub use errors::ScanErrorKind;
pub use errors::YamlParserError;
pub use objects::GNode;
pub use objects::YamlObject;
pub use objects::YamlScope;
pub use parser::Parser;
pub use scanner::Scanner;
pub use scanner::YamlScanner;
pub use src_ir::BagMetaNode;
pub use src_ir::BagNode;
pub use src_ir::CharMetaNode;
pub use src_ir::CharNode;
pub use src_ir::ListType;
pub use src_ir::MapType;
pub use src_ir::MetaNode;
pub use src_ir::ObjMetaNode;
pub use src_ir::SrcNode;
pub use src_ir::VisibilityMeta;
pub use src_visit::OutVisitor;
pub use stream::BasicStream;
pub use stream::Stream;
pub use tokens::GToken;
pub use tokens::YamlToken;
pub use tracer::DummyTracer;
pub use tracer::TraceLevel;
pub use tracer::Tracer;
pub use visitor::SourceCodeIRNode;
pub use visitor::VisitErr;
pub use visitor::VisitSrc;
pub use visitor::YamlNode;
pub use visitor::YamlVisitor;
