//! Tests of the session orchestrator: lifecycle notifications, the version
//! discipline of cache writes, eviction on close, and highlight requests.

use oel_language_server::encode::EncodedToken;
use oel_language_server::session::Session;
use oel_language_server::syntax::{Point, SyntaxNode};

fn pt(row: usize, column: usize) -> Point {
    Point { row, column }
}

fn node(
    kind: &str,
    start: Point,
    end: Point,
    is_error: bool,
    parent: Option<usize>,
) -> SyntaxNode {
    SyntaxNode { kind: kind.to_string(), start, end, is_error, parent }
}

fn enc(delta_line: u32, delta_start: u32, length: u32, token_type: u32) -> EncodedToken {
    EncodedToken { delta_line, delta_start, length, token_type, token_modifiers_bitset: 0 }
}

/// A clean little tree: `1 + 2`.
fn sum_nodes() -> Vec<SyntaxNode> {
    vec![
        node("source_file", pt(0, 0), pt(0, 5), false, None),
        node("integer", pt(0, 0), pt(0, 1), false, Some(0)),
        node("+", pt(0, 2), pt(0, 3), false, Some(0)),
        node("integer", pt(0, 4), pt(0, 5), false, Some(0)),
    ]
}

/// A tree with one leaf error, as an unterminated source produces.
fn faulty_nodes() -> Vec<SyntaxNode> {
    vec![
        node("source_file", pt(0, 0), pt(0, 4), false, None),
        node("ERROR", pt(0, 0), pt(0, 4), true, Some(0)),
        node("integer", pt(0, 1), pt(0, 2), false, Some(1)),
    ]
}

fn sum_encoded() -> Vec<EncodedToken> {
    vec![enc(0, 0, 1, 3), enc(0, 2, 1, 1), enc(0, 2, 1, 3)]
}

#[test]
fn open_then_highlight() {
    let mut s = Session::new();
    let diags = s.document_opened("file:///a.oel", 1, Some(sum_nodes()));
    assert_eq!(diags.len(), 0);
    let toks = s.semantic_tokens_full("file:///a.oel").unwrap();
    assert_eq!(toks, sum_encoded());
}

#[test]
fn unknown_document_no_data() {
    let s = Session::new();
    assert!(s.semantic_tokens_full("file:///missing.oel").is_none());
}

#[test]
fn repeated_highlight_requests_identical() {
    let mut s = Session::new();
    s.document_opened("file:///a.oel", 1, Some(sum_nodes()));
    let first = s.semantic_tokens_full("file:///a.oel").unwrap();
    let second = s.semantic_tokens_full("file:///a.oel").unwrap();
    assert_eq!(first, second);
    assert_eq!(first.len(), 3);
}

#[test]
fn reanalysis_of_same_text_identical() {
    let mut s = Session::new();
    let d1 = s.document_opened("file:///a.oel", 1, Some(faulty_nodes()));
    let t1 = s.semantic_tokens_full("file:///a.oel").unwrap();
    let d2 = s.document_changed("file:///a.oel", 1, Some(faulty_nodes()));
    let t2 = s.semantic_tokens_full("file:///a.oel").unwrap();
    assert_eq!(d1.len(), d2.len());
    for (a, b) in d1.iter().zip(d2.iter()) {
        assert_eq!((a.start, a.end, a.message.clone()), (b.start, b.end, b.message.clone()));
    }
    assert_eq!(t1, t2);
}

#[test]
fn second_change_diagnostics_reflect_second_text() {
    let mut s = Session::new();
    let d1 = s.document_changed("file:///a.oel", 1, Some(faulty_nodes()));
    assert_eq!(d1.len(), 1);
    let d2 = s.document_changed("file:///a.oel", 2, Some(sum_nodes()));
    assert_eq!(d2.len(), 0);
    let toks = s.semantic_tokens_full("file:///a.oel").unwrap();
    assert_eq!(toks, sum_encoded());
}

#[test]
fn second_change_to_faulty_text_reports_its_error() {
    let mut s = Session::new();
    let d1 = s.document_changed("file:///a.oel", 1, Some(sum_nodes()));
    assert_eq!(d1.len(), 0);
    let d2 = s.document_changed("file:///a.oel", 2, Some(faulty_nodes()));
    assert_eq!(d2.len(), 1);
    assert_eq!(d2[0].start, pt(0, 0));
    assert_eq!(d2[0].end, pt(0, 4));
}

#[test]
fn stale_pass_does_not_overwrite() {
    let mut s = Session::new();
    s.document_opened("file:///a.oel", 5, Some(sum_nodes()));
    let d = s.document_changed("file:///a.oel", 3, Some(faulty_nodes()));
    assert_eq!(d.len(), 1);
    let toks = s.semantic_tokens_full("file:///a.oel").unwrap();
    assert_eq!(toks, sum_encoded());
}

#[test]
fn equal_version_pass_accepted() {
    let mut s = Session::new();
    s.document_opened("file:///a.oel", 4, Some(sum_nodes()));
    s.document_changed("file:///a.oel", 4, Some(faulty_nodes()));
    let toks = s.semantic_tokens_full("file:///a.oel").unwrap();
    assert_eq!(toks, vec![enc(0, 1, 1, 3)]);
}

#[test]
fn failed_parse_leaves_cache_untouched() {
    let mut s = Session::new();
    s.document_opened("file:///a.oel", 1, Some(sum_nodes()));
    let d = s.document_changed("file:///a.oel", 2, None);
    assert_eq!(d.len(), 0);
    let toks = s.semantic_tokens_full("file:///a.oel").unwrap();
    assert_eq!(toks, sum_encoded());
}

#[test]
fn failed_parse_of_unknown_document_stores_nothing() {
    let mut s = Session::new();
    let d = s.document_opened("file:///a.oel", 1, None);
    assert_eq!(d.len(), 0);
    assert!(s.semantic_tokens_full("file:///a.oel").is_none());
}

#[test]
fn best_effort_reads() {
    let mut s = Session::new();
    assert!(s.get_ast("file:///a.oel").is_none());
    assert!(s.get_tokens("file:///a.oel").is_none());
    s.document_opened("file:///a.oel", 1, Some(sum_nodes()));
    let ast = s.get_ast("file:///a.oel").unwrap();
    assert_eq!(ast.len(), 4);
    for (i, sp) in ast.iter().enumerate() {
        assert_eq!(sp.id, i);
    }
    let toks = s.get_tokens("file:///a.oel").unwrap();
    assert_eq!(toks.len(), 3);
    assert_eq!(toks[0].start, pt(0, 0));
    assert_eq!(toks[0].token_type, 3);
    assert_eq!(toks[1].token_type, 1);
}

#[test]
fn closed_document_evicted() {
    let mut s = Session::new();
    s.document_opened("file:///a.oel", 1, Some(sum_nodes()));
    assert!(s.semantic_tokens_full("file:///a.oel").is_some());
    s.document_closed("file:///a.oel");
    assert!(s.semantic_tokens_full("file:///a.oel").is_none());
}

#[test]
fn documents_kept_apart() {
    let mut s = Session::new();
    s.document_opened("file:///a.oel", 1, Some(sum_nodes()));
    s.document_opened("file:///b.oel", 1, Some(faulty_nodes()));
    assert_eq!(s.semantic_tokens_full("file:///a.oel").unwrap(), sum_encoded());
    assert_eq!(s.semantic_tokens_full("file:///b.oel").unwrap(), vec![enc(0, 1, 1, 3)]);
    s.document_closed("file:///a.oel");
    assert!(s.semantic_tokens_full("file:///a.oel").is_none());
    assert!(s.semantic_tokens_full("file:///b.oel").is_some());
}
