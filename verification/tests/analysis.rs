//! Tests of one analysis pass: classification, leaf-only error extraction,
//! span projection, and the delta encoder.

use oel_language_server::analysis::parse;
use oel_language_server::classify::{classify_kind, derive_tokens, legend, ImCompleteSemanticToken};
use oel_language_server::encode::{encode_tokens, EncodedToken};
use oel_language_server::syntax::{Point, Span, SyntaxNode};
use oel_language_server::token::Token;

fn pt(row: usize, column: usize) -> Point {
    Point { row, column }
}

fn node(
    kind: &str,
    start: Point,
    end: Point,
    is_error: bool,
    parent: Option<usize>,
) -> SyntaxNode {
    SyntaxNode { kind: kind.to_string(), start, end, is_error, parent }
}

fn tok(start: Point, end: Point, token_type: usize) -> ImCompleteSemanticToken {
    ImCompleteSemanticToken { start, end, token_type }
}

fn enc(delta_line: u32, delta_start: u32, length: u32, token_type: u32) -> EncodedToken {
    EncodedToken { delta_line, delta_start, length, token_type, token_modifiers_bitset: 0 }
}

/// The pre-order node sequence of `if (1 == 2) { "a" }`.
fn condition_nodes() -> Vec<SyntaxNode> {
    vec![
        node("source_file", pt(0, 0), pt(0, 19), false, None),
        node("if", pt(0, 0), pt(0, 2), false, Some(0)),
        node("(", pt(0, 3), pt(0, 4), false, Some(0)),
        node("integer", pt(0, 4), pt(0, 5), false, Some(0)),
        node("==", pt(0, 6), pt(0, 8), false, Some(0)),
        node("integer", pt(0, 9), pt(0, 10), false, Some(0)),
        node(")", pt(0, 10), pt(0, 11), false, Some(0)),
        node("{", pt(0, 12), pt(0, 13), false, Some(0)),
        node("string", pt(0, 14), pt(0, 17), false, Some(0)),
        node("}", pt(0, 18), pt(0, 19), false, Some(0)),
    ]
}

/// The pre-order node sequence of the unterminated source `(1 +`.
fn unterminated_nodes() -> Vec<SyntaxNode> {
    vec![
        node("source_file", pt(0, 0), pt(0, 4), false, None),
        node("ERROR", pt(0, 0), pt(0, 4), true, Some(0)),
        node("(", pt(0, 0), pt(0, 1), false, Some(1)),
        node("integer", pt(0, 1), pt(0, 2), false, Some(1)),
        node("+", pt(0, 3), pt(0, 4), false, Some(1)),
    ]
}

#[test]
fn legend_names_in_order() {
    let l = legend();
    assert_eq!(l, vec!["keyword", "operator", "string", "number"]);
}

#[test]
fn classifier_table_entries() {
    assert_eq!(classify_kind("null"), Some(0));
    assert_eq!(classify_kind("if"), Some(0));
    assert_eq!(classify_kind("string"), Some(2));
    assert_eq!(classify_kind("integer"), Some(3));
    assert_eq!(classify_kind("float"), Some(3));
    for op in ["!", "!=", "+", ":", "?", "==", "AND", "OR"] {
        assert_eq!(classify_kind(op), Some(1));
    }
    for ignored in ["source_file", "identifier", "boolean", "<", "<=", ">", ">=", "(", ")", "{",
        "}", "expression", "unheard_of_kind", ""]
    {
        assert_eq!(classify_kind(ignored), None);
    }
}

#[test]
fn classifier_indexes_stay_in_legend() {
    let l = legend();
    for kind in ["null", "if", "string", "integer", "float", "!", "!=", "+", ":", "?", "==",
        "AND", "OR"]
    {
        let ix = classify_kind(kind).unwrap();
        assert!(ix < l.len());
    }
}

#[test]
fn condition_source_tokens_and_no_diagnostics() {
    let (ast, diags, toks) = parse(Some(condition_nodes()));
    assert_eq!(diags.len(), 0);
    let expected = vec![
        tok(pt(0, 0), pt(0, 2), 0),
        tok(pt(0, 4), pt(0, 5), 3),
        tok(pt(0, 6), pt(0, 8), 1),
        tok(pt(0, 9), pt(0, 10), 3),
        tok(pt(0, 14), pt(0, 17), 2),
    ];
    assert_eq!(toks, expected);
    let spans = ast.unwrap();
    assert_eq!(spans.len(), 10);
    assert_eq!(spans[3], Span { id: 3, start: pt(0, 4), end: pt(0, 5) });
    for (i, s) in spans.iter().enumerate() {
        assert_eq!(s.id, i);
    }
}

#[test]
fn unterminated_source_one_diagnostic() {
    let (_ast, diags, toks) = parse(Some(unterminated_nodes()));
    assert_eq!(diags.len(), 1);
    assert_eq!(diags[0].start, pt(0, 0));
    assert_eq!(diags[0].end, pt(0, 4));
    assert_eq!(diags[0].message, "Parse error");
    let expected = vec![tok(pt(0, 1), pt(0, 2), 3), tok(pt(0, 3), pt(0, 4), 1)];
    assert_eq!(toks, expected);
}

#[test]
fn nested_error_reported_once() {
    let nodes = vec![
        node("source_file", pt(0, 0), pt(0, 9), false, None),
        node("ERROR", pt(0, 0), pt(0, 9), true, Some(0)),
        node("ERROR", pt(0, 2), pt(0, 5), true, Some(1)),
        node("(", pt(0, 2), pt(0, 3), false, Some(2)),
    ];
    let (_ast, diags, _toks) = parse(Some(nodes));
    assert_eq!(diags.len(), 1);
    assert_eq!(diags[0].start, pt(0, 2));
    assert_eq!(diags[0].end, pt(0, 5));
}

#[test]
fn independent_errors_reported_each() {
    let nodes = vec![
        node("source_file", pt(0, 0), pt(2, 0), false, None),
        node("ERROR", pt(0, 0), pt(0, 3), true, Some(0)),
        node("integer", pt(0, 1), pt(0, 2), false, Some(1)),
        node("ERROR", pt(1, 0), pt(1, 4), true, Some(0)),
    ];
    let (_ast, diags, _toks) = parse(Some(nodes));
    assert_eq!(diags.len(), 2);
    assert_eq!((diags[0].start, diags[0].end), (pt(0, 0), pt(0, 3)));
    assert_eq!((diags[1].start, diags[1].end), (pt(1, 0), pt(1, 4)));
}

#[test]
fn empty_source_trivial_analysis() {
    let (ast, diags, toks) = parse(Some(vec![node("source_file", pt(0, 0), pt(0, 0), false,
        None)]));
    assert_eq!(diags.len(), 0);
    assert_eq!(toks.len(), 0);
    assert_eq!(ast.unwrap().len(), 1);
}

#[test]
fn empty_node_sequence_trivial_analysis() {
    let (ast, diags, toks) = parse(Some(Vec::new()));
    assert_eq!(diags.len(), 0);
    assert_eq!(toks.len(), 0);
    assert_eq!(ast.unwrap().len(), 0);
}

#[test]
fn no_tree_no_data() {
    let (ast, diags, toks) = parse(None);
    assert!(ast.is_none());
    assert_eq!(diags.len(), 0);
    assert_eq!(toks.len(), 0);
}

#[test]
fn analysis_twice_identical() {
    let nodes = condition_nodes();
    let (ast1, diags1, toks1) = parse(Some(nodes.clone()));
    let (ast2, diags2, toks2) = parse(Some(nodes));
    assert_eq!(ast1.unwrap(), ast2.unwrap());
    assert_eq!(diags1.len(), diags2.len());
    for (a, b) in diags1.iter().zip(diags2.iter()) {
        assert_eq!((a.start, a.end, a.message.clone()), (b.start, b.end, b.message.clone()));
    }
    assert_eq!(toks1, toks2);
    let enc1 = encode_tokens(&toks1);
    let enc2 = encode_tokens(&toks2);
    assert_eq!(enc1, enc2);
}

#[test]
fn encoded_deltas_reconstruct_positions() {
    let toks = vec![tok(pt(2, 5), pt(2, 8), 1), tok(pt(0, 1), pt(0, 3), 0), tok(pt(2, 1), pt(2,
        2), 2)];
    let encoded = encode_tokens(&toks);
    assert_eq!(encoded, vec![enc(0, 1, 2, 0), enc(2, 1, 1, 2), enc(0, 4, 3, 1)]);
    let mut row: u32 = 0;
    let mut col: u32 = 0;
    let mut rebuilt: Vec<(u32, u32)> = Vec::new();
    for e in &encoded {
        row += e.delta_line;
        col = if e.delta_line > 0 { e.delta_start } else { col + e.delta_start };
        rebuilt.push((row, col));
    }
    assert_eq!(rebuilt, vec![(0, 1), (2, 1), (2, 5)]);
}

#[test]
fn equal_positions_keep_document_order() {
    let toks = vec![tok(pt(1, 4), pt(1, 6), 1), tok(pt(1, 4), pt(1, 5), 2)];
    let encoded = encode_tokens(&toks);
    assert_eq!(encoded, vec![enc(1, 4, 2, 1), enc(0, 0, 1, 2)]);
}

#[test]
fn unencodable_tokens_dropped() {
    let big = (u32::MAX as usize) + 1;
    let toks = vec![
        tok(pt(0, 2), pt(0, 3), 1),
        tok(pt(big, 0), pt(big, 4), 1),
        tok(pt(1, 0), pt(2, 4), 1),
    ];
    let encoded = encode_tokens(&toks);
    assert_eq!(encoded, vec![enc(0, 2, 1, 1)]);
}

#[test]
fn multiline_node_not_tokenised() {
    let nodes = vec![
        node("source_file", pt(0, 0), pt(1, 5), false, None),
        node("string", pt(0, 0), pt(1, 4), false, Some(0)),
        node("integer", pt(1, 4), pt(1, 5), false, Some(0)),
    ];
    let toks = derive_tokens(&nodes);
    assert_eq!(toks, vec![tok(pt(1, 4), pt(1, 5), 3)]);
}

#[test]
fn malformed_parent_links_degrade() {
    let nodes = vec![
        node("source_file", pt(0, 0), pt(0, 1), false, None),
        node("integer", pt(0, 0), pt(0, 1), false, Some(7)),
    ];
    let (ast, diags, toks) = parse(Some(nodes));
    assert!(ast.is_none());
    assert_eq!(diags.len(), 0);
    assert_eq!(toks.len(), 0);
}

#[test]
fn token_display_text() {
    assert_eq!(Token::Null.text(), "null");
    assert_eq!(Token::Bool(true).text(), "true");
    assert_eq!(Token::Bool(false).text(), "false");
    assert_eq!(Token::Num("42".to_string()).text(), "42");
    assert_eq!(Token::Str("abc".to_string()).text(), "abc");
    assert_eq!(Token::Op("!=".to_string()).text(), "!=");
    assert_eq!(Token::Ctrl('{').text(), "{");
    assert_eq!(Token::Ident("x".to_string()).text(), "x");
    assert_eq!(Token::Fn.text(), "fn");
    assert_eq!(Token::Let.text(), "let");
    assert_eq!(Token::Print.text(), "print");
    assert_eq!(Token::If.text(), "if");
    assert_eq!(Token::Else.text(), "else");
}
