//! The plain model of one parse: positions, spans, and the pre-order
//! sequence of syntax nodes that the external parsing engine reports.

use vstd::prelude::*;

verus! {

/// A zero-based (row, column) position in source coordinates, matching the
/// coordinate system of the external parsing engine.
#[derive(Clone, Copy, Debug, PartialEq, Eq, Hash, Structural)]
pub struct Point {
    pub row: usize,
    pub column: usize,
}

/// Lexicographic order on positions: first by row, ties by column.
pub open spec fn point_le(a: Point, b: Point) -> bool {
    a.row < b.row || (a.row == b.row && a.column <= b.column)
}

/// A half-open source range `[start, end)` plus the identity of the
/// originating syntax node. A node's identity is its index in the pre-order
/// sequence of one parse; it is unique within that parse and never stable
/// across re-parses.
#[derive(Clone, Copy, Debug, PartialEq, Eq, Hash, Structural)]
pub struct Span {
    pub id: usize,
    pub start: Point,
    pub end: Point,
}

/// One syntax node, as the external parsing engine reports it: its kind
/// label, its source range, whether the node itself is erroneous, and the
/// pre-order index of its parent (`None` exactly for the root).
#[derive(Clone, Debug)]
pub struct SyntaxNode {
    pub kind: String,
    pub start: Point,
    pub end: Point,
    pub is_error: bool,
    pub parent: Option<usize>,
}

/// The mathematical value of a [`SyntaxNode`]: the kind as a character
/// sequence, the rest as it stands.
pub struct NodeV {
    pub kind: Seq<char>,
    pub start: Point,
    pub end: Point,
    pub is_error: bool,
    pub parent: Option<usize>,
}

impl View for SyntaxNode {
    type V = NodeV;

    open spec fn view(&self) -> NodeV {
        NodeV {
            kind: self.kind@,
            start: self.start,
            end: self.end,
            is_error: self.is_error,
            parent: self.parent,
        }
    }
}

/// The values of a whole node sequence.
pub open spec fn nodes_view(s: Seq<SyntaxNode>) -> Seq<NodeV> {
    s.map_values(|n: SyntaxNode| n@)
}

/// The parent link of the node at `j` is well formed: the root (index 0) has
/// no parent, and every other node's parent stands strictly earlier in the
/// pre-order sequence.
pub open spec fn wf_parent_at(s: Seq<NodeV>, j: int) -> bool {
    if j == 0 {
        s[j].parent is None
    } else {
        match s[j].parent {
            Some(p) => p < j,
            None => false,
        }
    }
}

/// A pre-order node sequence is well formed when every parent link is.
/// The empty sequence (no tree at all) is well formed.
pub open spec fn wf_nodes(s: Seq<NodeV>) -> bool {
    forall|j: int| 0 <= j < s.len() ==> #[trigger] wf_parent_at(s, j)
}

/// Node `i` is a proper ancestor of node `j`: following parent links from
/// `j` reaches `i`.
pub open spec fn is_ancestor(s: Seq<NodeV>, i: int, j: int) -> bool
    decreases j,
{
    0 <= j < s.len() && match s[j].parent {
        Some(p) => p == i || (p < j && is_ancestor(s, i, p as int)),
        None => false,
    }
}

/// Node `i` has an erroneous node somewhere strictly below it.
pub open spec fn has_err_descendant(s: Seq<NodeV>, i: int) -> bool {
    exists|j: int| i < j < s.len() && s[j].is_error && #[trigger] is_ancestor(s, i, j)
}

/// Checks every parent link of `nodes`, so that callers may hand the library
/// an arbitrary sequence and still get a total function.
pub fn check_wf(nodes: &Vec<SyntaxNode>) -> (r: bool)
    ensures
        r == wf_nodes(nodes_view(nodes@)),
{
    let ghost s = nodes_view(nodes@);
    let n = nodes.len();
    let mut j: usize = 0;
    while j < n
        invariant
            j <= n,
            n == nodes@.len(),
            s == nodes_view(nodes@),
            forall|k: int| 0 <= k < j ==> #[trigger] wf_parent_at(s, k),
        decreases n - j,
    {
        let ok = if j == 0 {
            match nodes[0].parent {
                Option::None => true,
                Option::Some(_) => false,
            }
        } else {
            match nodes[j].parent {
                Option::Some(p) => p < j,
                Option::None => false,
            }
        };
        if !ok {
            assert(!wf_parent_at(s, j as int));
            return false;
        }
        assert(wf_parent_at(s, j as int));
        j = j + 1;
    }
    true
}

/// The span projection of one parse: node identity (pre-order index) to
/// source range, in index order.
pub open spec fn span_at(s: Seq<NodeV>, i: int) -> Span {
    Span { id: i as usize, start: s[i].start, end: s[i].end }
}

/// The first `n` entries of the span projection.
pub open spec fn spans_upto(s: Seq<NodeV>, n: int) -> Seq<Span>
    decreases n,
{
    if n <= 0 {
        Seq::empty()
    } else {
        spans_upto(s, n - 1).push(span_at(s, n - 1))
    }
}

/// The whole span projection.
pub open spec fn spans_of(s: Seq<NodeV>) -> Seq<Span> {
    spans_upto(s, s.len() as int)
}

/// Builds the span projection of one parse, mapping each node's pre-order
/// index to its source range.
pub fn project_spans(nodes: &Vec<SyntaxNode>) -> (r: Vec<Span>)
    ensures
        r@ == spans_of(nodes_view(nodes@)),
{
    let ghost s = nodes_view(nodes@);
    let n = nodes.len();
    let mut out: Vec<Span> = Vec::new();
    let mut i: usize = 0;
    while i < n
        invariant
            i <= n,
            n == nodes@.len(),
            s == nodes_view(nodes@),
            out@ == spans_upto(s, i as int),
        decreases n - i,
    {
        out.push(Span { id: i, start: nodes[i].start, end: nodes[i].end });
        i = i + 1;
    }
    out
}

} // verus!
