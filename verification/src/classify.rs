//! The node classifier and the fixed highlight legend.
//!
//! Classification is a total mapping from a node's kind label to either a
//! highlight category or "ignored". Only terminal, lexical kinds receive a
//! category; structural kinds and uncategorised punctuation yield nothing,
//! and so does every unknown kind.

use vstd::prelude::*;

use crate::syntax::{nodes_view, NodeV, Point, SyntaxNode};

verus! {

/// Relies on `str`'s `PartialEq` implementation: two string slices compare
/// equal exactly when their character sequences are equal.
pub assume_specification[ <str as PartialEq>::eq ](s: &str, other: &str) -> (res: bool)
    ensures
        res == (s@ == other@),
;

/// The fixed, ordered highlight legend, agreed once at session start and
/// referenced afterwards only by index.
pub open spec fn legend_names() -> Seq<Seq<char>> {
    seq!["keyword"@, "operator"@, "string"@, "number"@]
}

/// The classification table: kind label to index into [`legend_names`].
/// Keyword-like and literal kinds are coloured; structural kinds, brackets
/// and unknown kinds are ignored.
pub open spec fn category_of(kind: Seq<char>) -> Option<usize> {
    if kind == "null"@ || kind == "if"@ {
        Some(0usize)
    } else if kind == "string"@ {
        Some(2usize)
    } else if kind == "integer"@ || kind == "float"@ {
        Some(3usize)
    } else if kind == "!"@ || kind == "!="@ || kind == "+"@ || kind == ":"@ || kind == "?"@
        || kind == "=="@ || kind == "AND"@ || kind == "OR"@ {
        Some(1usize)
    } else {
        None
    }
}

/// Character-sequence equality of two string slices.
fn str_eq(a: &str, b: &str) -> (r: bool)
    ensures
        r == (a@ == b@),
{
    a.eq(b)
}

/// Classifies one kind label, returning the legend index of its highlight
/// category, or nothing for kinds that are not highlighted.
pub fn classify_kind(kind: &str) -> (r: Option<usize>)
    ensures
        r == category_of(kind@),
{
    if str_eq(kind, "null") || str_eq(kind, "if") {
        Some(0)
    } else if str_eq(kind, "string") {
        Some(2)
    } else if str_eq(kind, "integer") || str_eq(kind, "float") {
        Some(3)
    } else if str_eq(kind, "!") || str_eq(kind, "!=") || str_eq(kind, "+") || str_eq(kind, ":")
        || str_eq(kind, "?") || str_eq(kind, "==") || str_eq(kind, "AND") || str_eq(kind, "OR") {
        Some(1)
    } else {
        None
    }
}

/// The legend as category names, in index order.
pub fn legend() -> (r: Vec<String>)
    ensures
        r@.len() == legend_names().len(),
        forall|i: int| 0 <= i < r@.len() ==> r@[i]@ == legend_names()[i],
{
    let mut v: Vec<String> = Vec::new();
    v.push("keyword".to_owned());
    v.push("operator".to_owned());
    v.push("string".to_owned());
    v.push("number".to_owned());
    v
}

/// Law (legend completeness): every category the classifier can emit has a
/// corresponding index in the declared legend, so classifying a node never
/// yields an out-of-bounds category index.
pub proof fn lemma_legend_complete(kind: Seq<char>)
    ensures
        category_of(kind) is Some ==> category_of(kind)->0 < legend_names().len(),
{
}

/// A highlight token still in source coordinates: the span it colours and
/// the legend index of its category.
#[derive(Clone, Copy, Debug, PartialEq, Eq, Hash, Structural)]
pub struct ImCompleteSemanticToken {
    pub start: Point,
    pub end: Point,
    pub token_type: usize,
}

/// A node's span can be coloured: it sits on a single row, runs forward, and
/// fits the 32-bit coordinates of the highlighting wire format. The
/// classifier only ever emits single-line tokens.
pub open spec fn token_span_ok(n: NodeV) -> bool {
    n.start.row == n.end.row && n.start.column <= n.end.column && n.end.column <= u32::MAX
        && n.start.row <= u32::MAX
}

/// The zero-or-one highlight token of one node.
pub open spec fn token_of_node(n: NodeV) -> Option<ImCompleteSemanticToken> {
    match category_of(n.kind) {
        Some(ix) => if token_span_ok(n) {
            Some(ImCompleteSemanticToken { start: n.start, end: n.end, token_type: ix })
        } else {
            None
        },
        None => None,
    }
}

/// The highlight tokens of the first `n` nodes, in pre-order.
pub open spec fn tokens_upto(s: Seq<NodeV>, n: int) -> Seq<ImCompleteSemanticToken>
    decreases n,
{
    if n <= 0 {
        Seq::empty()
    } else {
        tokens_upto(s, n - 1) + match token_of_node(s[n - 1]) {
            Some(t) => seq![t],
            None => Seq::empty(),
        }
    }
}

/// The highlight tokens of a whole pre-order node sequence.
pub open spec fn tokens_of(s: Seq<NodeV>) -> Seq<ImCompleteSemanticToken> {
    tokens_upto(s, s.len() as int)
}

/// Law (legend completeness, token level): every token the classifier
/// emits over a node sequence carries a category index inside the declared
/// legend.
pub proof fn lemma_tokens_in_legend(s: Seq<NodeV>, n: int)
    ensures
        forall|k: int| 0 <= k < tokens_upto(s, n).len() ==> #[trigger] tokens_upto(s, n)[k]
            .token_type < legend_names().len(),
    decreases n,
{
    if n > 0 {
        lemma_tokens_in_legend(s, n - 1);
        let t = tokens_upto(s, n - 1);
        let w = tokens_upto(s, n);
        lemma_legend_complete(s[n - 1].kind);
        assert(forall|k: int| 0 <= k < t.len() ==> w[k] == t[k]);
    }
}

/// Walks the pre-order node sequence and collects the highlight token of
/// every node whose kind the classifier colours.
pub fn derive_tokens(nodes: &Vec<SyntaxNode>) -> (r: Vec<ImCompleteSemanticToken>)
    ensures
        r@ == tokens_of(nodes_view(nodes@)),
{
    let ghost s = nodes_view(nodes@);
    let n = nodes.len();
    let mut out: Vec<ImCompleteSemanticToken> = Vec::new();
    let mut i: usize = 0;
    while i < n
        invariant
            i <= n,
            n == nodes@.len(),
            s == nodes_view(nodes@),
            out@ == tokens_upto(s, i as int),
        decreases n - i,
    {
        let node = &nodes[i];
        match classify_kind(node.kind.as_str()) {
            Option::Some(ix) => {
                let span_ok = node.start.row == node.end.row
                    && node.start.column <= node.end.column
                    && node.end.column <= u32::MAX as usize && node.start.row <= u32::MAX as usize;
                if span_ok {
                    out.push(
                        ImCompleteSemanticToken {
                            start: node.start,
                            end: node.end,
                            token_type: ix,
                        },
                    );
                }
            },
            Option::None => {},
        }
        assert(out@ =~= tokens_upto(s, i as int + 1));
        i = i + 1;
    }
    out
}

} // verus!
