//! A dual-grammar front end for contract source code: a verified
//! grammar engine for the DSL, and an adapter that delegates a
//! Solidity-like language to an outside parser while collecting its
//! diagnostics.

pub mod scan;
pub mod tree;
pub mod engine;
pub mod parser;
pub mod laws;
pub mod solidity;

pub use parser::parse_expression;
pub use parser::parse_source_file;
pub use parser::CashScriptParser;
pub use parser::ParseError;
pub use parser::ParseTree;
pub use solidity::parse_solidity_source;
pub use solidity::CommentInfo;
pub use solidity::CommentKind;
pub use solidity::DiagInfo;
pub use solidity::DiagLevel;
pub use solidity::SolidityParseResult;
pub use solidity::SrcSpan;
pub use tree::Node;
pub use tree::Rule;
