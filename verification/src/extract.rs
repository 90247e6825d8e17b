//! The leaf-only syntax-error extractor.
//!
//! A parse failure marks every ancestor of the faulty region as erroneous.
//! Reporting each erroneous node would flood the editor with one diagnostic
//! per ancestor level, so the extractor selects only *leaf* error nodes:
//! erroneous nodes with no erroneous node below them. Each selected node
//! yields exactly one diagnostic, in document (pre-order) order.

use vstd::prelude::*;

use crate::syntax::{has_err_descendant, is_ancestor, nodes_view, wf_nodes, wf_parent_at, NodeV,
    Point, SyntaxNode};

verus! {

/// One syntax-error diagnostic: the faulty range and a message. The parsing
/// engine supplies no fault-specific text, so the message is a fixed one.
#[derive(Clone, Debug)]
pub struct ErrorToken {
    pub start: Point,
    pub end: Point,
    pub message: String,
}

/// The mathematical value of an [`ErrorToken`].
pub struct ErrV {
    pub start: Point,
    pub end: Point,
    pub message: Seq<char>,
}

impl View for ErrorToken {
    type V = ErrV;

    open spec fn view(&self) -> ErrV {
        ErrV { start: self.start, end: self.end, message: self.message@ }
    }
}

/// The values of a diagnostic list.
pub open spec fn errors_view(s: Seq<ErrorToken>) -> Seq<ErrV> {
    s.map_values(|e: ErrorToken| e@)
}

/// Node `i` is a leaf error: erroneous itself, with no erroneous node below.
pub open spec fn is_leaf_error(s: Seq<NodeV>, i: int) -> bool {
    s[i].is_error && !has_err_descendant(s, i)
}

/// The diagnostic reported for node `i`.
pub open spec fn diag_of(s: Seq<NodeV>, i: int) -> ErrV {
    ErrV { start: s[i].start, end: s[i].end, message: "Parse error"@ }
}

/// The diagnostics of the first `n` nodes, in pre-order.
pub open spec fn diags_upto(s: Seq<NodeV>, n: int) -> Seq<ErrV>
    decreases n,
{
    if n <= 0 {
        Seq::empty()
    } else {
        diags_upto(s, n - 1) + if is_leaf_error(s, n - 1) {
            seq![diag_of(s, n - 1)]
        } else {
            Seq::empty()
        }
    }
}

/// The diagnostics of a whole pre-order node sequence: one per leaf error
/// node, in document order.
pub open spec fn diags_of(s: Seq<NodeV>) -> Seq<ErrV> {
    diags_upto(s, s.len() as int)
}

/// Follows parent links upward from `j` and reports whether they reach `i`.
fn climbs_to(nodes: &Vec<SyntaxNode>, i: usize, j: usize) -> (r: bool)
    requires
        wf_nodes(nodes_view(nodes@)),
        i < j < nodes@.len(),
    ensures
        r == is_ancestor(nodes_view(nodes@), i as int, j as int),
{
    let ghost s = nodes_view(nodes@);
    let mut p: usize = j;
    loop
        invariant
            wf_nodes(s),
            s == nodes_view(nodes@),
            p < nodes@.len(),
            is_ancestor(s, i as int, j as int) == (p == i || is_ancestor(s, i as int, p as int)),
        decreases p,
    {
        if p == i {
            return true;
        }
        assert(wf_parent_at(s, p as int));
        match nodes[p].parent {
            Option::Some(q) => {
                assert(is_ancestor(s, i as int, p as int) == (q == i || is_ancestor(
                    s,
                    i as int,
                    q as int,
                )));
                p = q;
            },
            Option::None => {
                return false;
            },
        }
    }
}

/// Reports whether any node strictly below node `i` is erroneous.
fn any_err_below(nodes: &Vec<SyntaxNode>, i: usize) -> (r: bool)
    requires
        wf_nodes(nodes_view(nodes@)),
        i < nodes@.len(),
    ensures
        r == has_err_descendant(nodes_view(nodes@), i as int),
{
    let ghost s = nodes_view(nodes@);
    let n = nodes.len();
    let mut j: usize = i + 1;
    while j < n
        invariant
            wf_nodes(s),
            s == nodes_view(nodes@),
            n == nodes@.len(),
            i < j,
            forall|k: int| i < k < j ==> !(s[k].is_error && #[trigger] is_ancestor(
                s,
                i as int,
                k,
            )),
        decreases n - j,
    {
        if nodes[j].is_error && climbs_to(nodes, i, j) {
            return true;
        }
        j = j + 1;
    }
    false
}

/// Walks the pre-order node sequence and collects one diagnostic per leaf
/// error node. Every reported diagnostic stands on a node with no erroneous
/// descendant, so no two diagnostics nest.
pub fn extract_errors(nodes: &Vec<SyntaxNode>) -> (r: Vec<ErrorToken>)
    requires
        wf_nodes(nodes_view(nodes@)),
    ensures
        errors_view(r@) == diags_of(nodes_view(nodes@)),
{
    let ghost s = nodes_view(nodes@);
    let n = nodes.len();
    let mut out: Vec<ErrorToken> = Vec::new();
    let mut i: usize = 0;
    while i < n
        invariant
            wf_nodes(s),
            s == nodes_view(nodes@),
            n == nodes@.len(),
            i <= n,
            errors_view(out@) == diags_upto(s, i as int),
        decreases n - i,
    {
        if nodes[i].is_error && !any_err_below(nodes, i) {
            out.push(
                ErrorToken {
                    start: nodes[i].start,
                    end: nodes[i].end,
                    message: "Parse error".to_owned(),
                },
            );
        }
        assert(errors_view(out@) =~= diags_upto(s, i as int + 1));
        i = i + 1;
    }
    out
}

/// How many of the first `n` nodes are erroneous.
pub open spec fn errs_upto(s: Seq<NodeV>, n: int) -> int
    decreases n,
{
    if n <= 0 {
        0
    } else {
        errs_upto(s, n - 1) + if s[n - 1].is_error {
            1int
        } else {
            0int
        }
    }
}

/// Law (leaf-only diagnostics), counting half: when no erroneous node sits
/// below another erroneous node, every erroneous node is a leaf error, so
/// the first `n` nodes yield exactly one diagnostic per erroneous node.
proof fn lemma_independent_prefix(s: Seq<NodeV>, n: int)
    requires
        n <= s.len(),
        forall|i: int, j: int| 0 <= i < s.len() && 0 <= j < s.len() && s[i].is_error
            && s[j].is_error ==> !#[trigger] is_ancestor(s, i, j),
    ensures
        diags_upto(s, n).len() == errs_upto(s, n),
    decreases n,
{
    if n > 0 {
        lemma_independent_prefix(s, n - 1);
        if s[n - 1].is_error {
            assert(!has_err_descendant(s, n - 1));
        }
    }
}

/// On a well-formed sequence, an ancestor always stands strictly earlier
/// in pre-order than its descendant.
proof fn lemma_ancestor_earlier(s: Seq<NodeV>, i: int, j: int)
    requires
        wf_nodes(s),
        is_ancestor(s, i, j),
    ensures
        i < j,
    decreases j,
{
    assert(wf_parent_at(s, j));
    match s[j].parent {
        Some(p) => {
            if p != i {
                lemma_ancestor_earlier(s, i, p as int);
            }
        },
        None => {},
    }
}

/// Extractor invariant: no two diagnostics nest. Two distinct leaf error
/// nodes — the nodes diagnostics are reported on — never stand in an
/// ancestor relation, so every reported span is minimal.
pub proof fn lemma_diagnostics_never_nest(s: Seq<NodeV>, i: int, j: int)
    requires
        wf_nodes(s),
        0 <= i < s.len(),
        0 <= j < s.len(),
        i != j,
        is_leaf_error(s, i),
        is_leaf_error(s, j),
    ensures
        !is_ancestor(s, i, j),
{
    if is_ancestor(s, i, j) {
        lemma_ancestor_earlier(s, i, j);
        assert(has_err_descendant(s, i));
    }
}

/// Law (leaf-only diagnostics): for a parse holding `N` independent syntax
/// faults — erroneous nodes, none of which sits below another erroneous
/// node — exactly `N` diagnostics are produced, each standing on an
/// erroneous node with no erroneous descendant.
pub proof fn lemma_leaf_only_diagnostics(s: Seq<NodeV>)
    requires
        forall|i: int, j: int| 0 <= i < s.len() && 0 <= j < s.len() && s[i].is_error
            && s[j].is_error ==> !#[trigger] is_ancestor(s, i, j),
    ensures
        diags_of(s).len() == errs_upto(s, s.len() as int),
        forall|i: int| 0 <= i < s.len() && #[trigger] is_leaf_error(s, i) ==> s[i].is_error
            && !has_err_descendant(s, i),
{
    lemma_independent_prefix(s, s.len() as int);
}

} // verus!
