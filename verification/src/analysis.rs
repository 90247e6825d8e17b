//! One whole analysis pass: from the parse outcome the external engine
//! hands over, to the span projection, the diagnostics, and the highlight
//! tokens of one document.

use vstd::prelude::*;

use crate::classify::{derive_tokens, tokens_of, ImCompleteSemanticToken};
use crate::encode::encode_spec;
use crate::extract::{diags_of, errors_view, extract_errors, ErrV, ErrorToken};
use crate::syntax::{check_wf, nodes_view, project_spans, spans_of, wf_nodes, NodeV, Span,
    SyntaxNode};

verus! {

/// The value of a parse outcome: the engine's pre-order node sequence, or
/// nothing when the grammar could not be loaded or no tree was produced.
pub open spec fn opt_nodes_view(t: Option<Vec<SyntaxNode>>) -> Option<Seq<NodeV>> {
    match t {
        Some(v) => Some(nodes_view(v@)),
        None => None,
    }
}

/// What one analysis pass yields from a parse outcome: the span projection,
/// the diagnostics, and the highlight tokens. A missing tree — or a node
/// sequence whose parent links are malformed, which a real engine never
/// reports — degrades to no projection, no diagnostics and no tokens.
pub open spec fn parse_spec(o: Option<Seq<NodeV>>) -> (Option<Seq<Span>>, Seq<ErrV>, Seq<
    ImCompleteSemanticToken,
>) {
    match o {
        Some(s) => if wf_nodes(s) {
            (Some(spans_of(s)), diags_of(s), tokens_of(s))
        } else {
            (None, Seq::empty(), Seq::empty())
        },
        None => (None, Seq::empty(), Seq::empty()),
    }
}

/// Analyzes one parse outcome: projects every node's span under its
/// pre-order identity, extracts one diagnostic per leaf error node, and
/// collects the highlight tokens of the classified kinds.
pub fn parse(tree: Option<Vec<SyntaxNode>>) -> (r: (
    Option<Vec<Span>>,
    Vec<ErrorToken>,
    Vec<ImCompleteSemanticToken>,
))
    ensures
        ({
            let m = parse_spec(opt_nodes_view(tree));
            &&& (r.0 is Some <==> m.0 is Some)
            &&& (r.0 is Some ==> (r.0->0)@ == m.0->0)
            &&& errors_view(r.1@) == m.1
            &&& r.2@ == m.2
        }),
{
    match tree {
        Option::Some(nodes) => {
            if check_wf(&nodes) {
                let spans = project_spans(&nodes);
                let diags = extract_errors(&nodes);
                let toks = derive_tokens(&nodes);
                (Some(spans), diags, toks)
            } else {
                let empty_diags: Vec<ErrorToken> = Vec::new();
                assert(errors_view(empty_diags@) =~= Seq::<ErrV>::empty());
                (None, empty_diags, Vec::new())
            }
        },
        Option::None => {
            let empty_diags: Vec<ErrorToken> = Vec::new();
            assert(errors_view(empty_diags@) =~= Seq::<ErrV>::empty());
            (None, empty_diags, Vec::new())
        },
    }
}

/// Law (idempotence): an analysis pass is a function of the parse outcome
/// alone. Two passes over the same outcome yield identical span
/// projections, identical diagnostics, and identical encoded token
/// sequences.
pub proof fn lemma_analysis_idempotent(
    o: Option<Seq<NodeV>>,
    first: (Option<Seq<Span>>, Seq<ErrV>, Seq<ImCompleteSemanticToken>),
    second: (Option<Seq<Span>>, Seq<ErrV>, Seq<ImCompleteSemanticToken>),
)
    requires
        first == parse_spec(o),
        second == parse_spec(o),
    ensures
        first == second,
        encode_spec(first.2) == encode_spec(second.2),
{
}

/// Law (degenerate input): an empty node sequence — the trivially-rooted
/// tree of empty source text — yields an empty span projection, zero
/// diagnostics and zero tokens.
pub proof fn lemma_degenerate_input()
    ensures
        parse_spec(Some(Seq::<NodeV>::empty())) == (
            Some(Seq::<Span>::empty()),
            Seq::<ErrV>::empty(),
            Seq::<ImCompleteSemanticToken>::empty(),
        ),
{
    let s = Seq::<NodeV>::empty();
    assert(wf_nodes(s));
    assert(spans_of(s) == Seq::<Span>::empty());
    assert(diags_of(s) == Seq::<ErrV>::empty());
    assert(tokens_of(s) == Seq::<ImCompleteSemanticToken>::empty());
}

} // verus!
