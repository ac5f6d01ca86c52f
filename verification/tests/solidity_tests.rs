//! Tests of the Solidity-language adapter: the bundled tree-plus-
//! comments result on success, and the complete multi-error diagnostic
//! list on failure.

use silverscript_lang::parse_solidity_source;
use silverscript_lang::CommentKind;
use silverscript_lang::DiagLevel;
use silverscript_lang::SrcSpan;
use solang_parser::pt::SourceUnitPart;

#[test]
fn solidity_bundles_ast_with_comments() {
    let src = "// hello\ncontract C {}";
    let res = parse_solidity_source(src).unwrap();
    assert_eq!(res.comments.len(), 1);
    let c = &res.comments[0];
    assert_eq!(c.kind, CommentKind::Line);
    assert_eq!(c.text, "// hello");
    assert_eq!(c.span, SrcSpan::File { file: 0, start: 0, end: 8 });
    assert_eq!(res.source_unit.0.len(), 1);
    match &res.source_unit.0[0] {
        SourceUnitPart::ContractDefinition(def) => {
            assert_eq!(def.name.as_ref().unwrap().name, "C");
        },
        other => panic!("expected a contract definition, got {:?}", other),
    }
}

#[test]
fn solidity_distinguishes_comment_forms() {
    let src = "/// doc\n/* block */\ncontract C {}";
    let res = parse_solidity_source(src).unwrap();
    assert_eq!(res.comments.len(), 2);
    assert_eq!(res.comments[0].kind, CommentKind::DocLine);
    assert_eq!(res.comments[0].text, "/// doc");
    assert_eq!(res.comments[1].kind, CommentKind::Block);
    assert_eq!(res.comments[1].text, "/* block */");
}

#[test]
fn solidity_collects_multiple_errors() {
    let src = "import * as sesa frum \"sesa\";\nusingg sesa for *;\ncontract c {}";
    let diags = parse_solidity_source(src).unwrap_err();
    assert!(diags.len() >= 2, "expected several diagnostics, got {:?}", diags);
    for d in &diags {
        assert_eq!(d.level, DiagLevel::Error);
    }
}

#[test]
fn solidity_failure_always_carries_a_diagnostic() {
    let diags = parse_solidity_source("contract {").unwrap_err();
    assert!(!diags.is_empty());
    for d in &diags {
        assert!(!d.message.is_empty());
        assert_eq!(d.level, DiagLevel::Error);
        assert!(matches!(d.span, SrcSpan::File { .. }));
    }
}

#[test]
fn solidity_reparsing_is_idempotent() {
    let src = "/* doc */\ncontract C { function f() public {} }";
    let a = parse_solidity_source(src).unwrap();
    let b = parse_solidity_source(src).unwrap();
    assert_eq!(a.source_unit, b.source_unit);
    assert_eq!(a.comments, b.comments);
    let bad = "contract ?";
    assert_eq!(
        parse_solidity_source(bad).unwrap_err(),
        parse_solidity_source(bad).unwrap_err()
    );
}
