//! Tests of the DSL grammar engine: both entry points, the shape and
//! coverage of the trees they return, and the deepest-failure errors.

use silverscript_lang::parse_expression;
use silverscript_lang::parse_source_file;
use silverscript_lang::Node;
use silverscript_lang::Rule;

/// Concatenates the text under the leaves of `n`, in order.
fn leaves(n: &Node, src: &str, out: &mut String) {
    if n.children.is_empty() {
        out.push_str(&src[n.start..n.end]);
    } else {
        for c in &n.children {
            leaves(c, src, out);
        }
    }
}

#[test]
fn expression_accepts_simple_sum() {
    let t = parse_expression("1 + 2").unwrap();
    assert_eq!(t.root.rule, Rule::Expression);
    assert_eq!(t.root.start, 0);
    assert_eq!(t.root.end, 5);
}

#[test]
fn expression_rejects_incomplete_sum() {
    let e = parse_expression("1 +").unwrap_err();
    assert_eq!(e.pos, 3);
    assert!(e.expected.contains(&Rule::Number));
    assert!(e.expected.contains(&Rule::Identifier));
}

#[test]
fn expression_precedence_groups_products() {
    let t = parse_expression("1 + 2 * 3").unwrap();
    assert_eq!(t.root.children[0].rule, Rule::Trivia);
    let cmp = &t.root.children[1];
    assert_eq!(cmp.rule, Rule::CmpExpr);
    let add = &cmp.children[0];
    assert_eq!(add.rule, Rule::AddExpr);
    assert_eq!(add.children.len(), 4);
    assert_eq!(add.children[0].rule, Rule::MulExpr);
    assert_eq!(add.children[1].rule, Rule::AddOp);
    assert_eq!(add.children[3].rule, Rule::MulExpr);
    let product = &add.children[3];
    assert_eq!(product.children.len(), 4);
    assert_eq!(product.children[1].rule, Rule::MulOp);
}

#[test]
fn expression_covers_leading_trivia() {
    let src = "  // note
1 + 2";
    let t = parse_expression(src).unwrap();
    assert_eq!(t.root.rule, Rule::Expression);
    assert_eq!(t.root.start, 0);
    assert_eq!(t.root.end, src.len());
    let mut out = String::new();
    leaves(&t.root, src, &mut out);
    assert_eq!(out, src);
}

#[test]
fn expression_leaves_reconstruct_input() {
    let src = " (1 + 2) * x /* tail */";
    let t = parse_expression(src).unwrap();
    let mut out = String::new();
    leaves(&t.root, src, &mut out);
    assert_eq!(out, src);
}

#[test]
fn expression_accepts_string_literal() {
    let t = parse_expression("\"abc\"").unwrap();
    assert_eq!(t.root.rule, Rule::Expression);
}

#[test]
fn expression_rejects_unterminated_string() {
    let e = parse_expression("\"abc").unwrap_err();
    assert!(e.expected.contains(&Rule::StringLit));
}

#[test]
fn expression_rejects_bare_keyword() {
    assert!(parse_expression("contract").is_err());
    assert!(parse_expression("int").is_err());
}

#[test]
fn expression_accepts_nested_forms() {
    assert!(parse_expression("(1 + 2) * -x").is_ok());
    assert!(parse_expression("!(a && b) || c >= 10").is_ok());
    assert!(parse_expression("true == false").is_ok());
}

#[test]
fn source_file_accepts_empty_input() {
    let t = parse_source_file("").unwrap();
    assert_eq!(t.root.rule, Rule::SourceFile);
    assert_eq!(t.root.end, 0);
}

#[test]
fn source_file_accepts_contract() {
    let src = "contract Transfer(pubkey owner, int amount) {\n    function spend(sig s) {\n        require(1 + 2 == 3);\n        int x = amount;\n        x = x * 2;\n    }\n}\n";
    let t = parse_source_file(src).unwrap();
    assert_eq!(t.root.rule, Rule::SourceFile);
    assert_eq!(t.root.start, 0);
    assert_eq!(t.root.end, src.len());
}

#[test]
fn source_file_leaves_reconstruct_input() {
    let src = "// header\ncontract A(int x) {\n  function f() {\n    require(x > 0);\n  }\n}\n/* trailing */";
    let t = parse_source_file(src).unwrap();
    let mut out = String::new();
    leaves(&t.root, src, &mut out);
    assert_eq!(out, src);
}

#[test]
fn source_file_rejects_trailing_character() {
    let valid = "contract A() {}";
    assert!(parse_source_file(valid).is_ok());
    let spoiled = "contract A() {} ?";
    let e = parse_source_file(spoiled).unwrap_err();
    assert_eq!(e.pos, 16);
    assert!(e.expected.contains(&Rule::Eoi));
}

#[test]
fn source_file_rejects_unterminated_block_comment() {
    let e = parse_source_file("contract A() {} /*").unwrap_err();
    assert_eq!(e.pos, 16);
}

#[test]
fn source_file_reports_expected_declarations() {
    let e = parse_source_file("banana").unwrap_err();
    assert_eq!(e.pos, 0);
    assert!(e.expected.contains(&Rule::KwContract));
    assert!(e.expected.contains(&Rule::KwFunction));
}

#[test]
fn entry_points_are_not_aliases() {
    let src = "function f() { x = 1; }";
    assert!(parse_source_file(src).is_ok());
    assert!(parse_expression(src).is_err());
}

#[test]
fn reparsing_is_idempotent() {
    let src = "contract A(int x) { function f() { require(x == 1); } }";
    assert_eq!(parse_source_file(src), parse_source_file(src));
    assert_eq!(parse_expression(src), parse_expression(src));
    let expr = "1 * (2 + 3) < 40 && flag";
    assert_eq!(parse_expression(expr), parse_expression(expr));
}

#[test]
fn statements_cover_all_three_forms() {
    let src = "function f(int a) { int x = a; x = x + 1; require(x != 0); }";
    let t = parse_source_file(src).unwrap();
    let f = &t.root.children[1];
    assert_eq!(f.rule, Rule::FunctionDef);
    let stmts: Vec<&Node> = f
        .children
        .iter()
        .filter(|c| {
            c.rule == Rule::VarStmt || c.rule == Rule::AssignStmt || c.rule == Rule::RequireStmt
        })
        .collect();
    assert_eq!(stmts.len(), 3);
    assert_eq!(stmts[0].rule, Rule::VarStmt);
    assert_eq!(stmts[1].rule, Rule::AssignStmt);
    assert_eq!(stmts[2].rule, Rule::RequireStmt);
}

#[test]
fn expression_rejects_empty_input() {
    let e = parse_expression("").unwrap_err();
    assert_eq!(e.pos, 0);
    assert!(e.expected.contains(&Rule::Number));
}

#[test]
fn expression_accepts_stacked_unary_operators() {
    let t = parse_expression("- -x").unwrap();
    assert_eq!(t.root.rule, Rule::Expression);
    assert!(parse_expression("!!done").is_ok());
}

#[test]
fn number_does_not_swallow_a_following_word() {
    let e = parse_expression("123abc").unwrap_err();
    assert_eq!(e.pos, 3);
}

#[test]
fn source_file_accepts_several_declarations() {
    let src = "contract A() {}\ncontract B() { function f() {} }\nfunction g() {}\n";
    let t = parse_source_file(src).unwrap();
    let decls: Vec<&Node> = t
        .root
        .children
        .iter()
        .filter(|c| c.rule == Rule::ContractDef || c.rule == Rule::FunctionDef)
        .collect();
    assert_eq!(decls.len(), 3);
    assert_eq!(decls[0].rule, Rule::ContractDef);
    assert_eq!(decls[2].rule, Rule::FunctionDef);
}

#[test]
fn missing_semicolon_is_reported_at_its_position() {
    let src = "function f() { x = 1 }";
    let e = parse_source_file(src).unwrap_err();
    assert_eq!(e.pos, 21);
    assert!(e.expected.contains(&Rule::Semi));
}
