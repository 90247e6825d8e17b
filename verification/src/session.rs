//! The session orchestrator: reacts to document lifecycle notifications
//! and highlight requests, drives one analysis pass per notification, and
//! keeps the per-document cache.
//!
//! Every pass is tagged with the document version it analyzed; a pass may
//! store its record only when that version is not older than the stored
//! one, so a slow, superseded pass can never overwrite a newer result.

use vstd::prelude::*;

use crate::analysis::{opt_nodes_view, parse, parse_spec};
use crate::cache::{cache_model, empty_model, DocumentCache, DocumentRecord, RecordV};
use crate::classify::tokens_of;
use crate::encode::{encode_spec, encode_tokens, EncodedToken};
use crate::extract::{errors_view, ErrorToken};
use crate::syntax::{spans_of, wf_nodes, NodeV, SyntaxNode};

verus! {

/// An analysis pass at `version` may store its record: the version is not
/// older than the one already stored for the document.
pub open spec fn version_fresh(m: Map<Seq<char>, RecordV>, id: Seq<char>, version: i32) -> bool {
    !m.contains_key(id) || m[id].version <= version
}

/// The record one successful pass over the well-formed node sequence `s`
/// stores: the pass's version, span projection and highlight tokens, as
/// one unit.
pub open spec fn record_of(s: Seq<NodeV>, version: i32) -> RecordV {
    RecordV { version, ast: spans_of(s), tokens: tokens_of(s) }
}

/// The cache after one analysis pass: on a produced, well-formed tree
/// whose version is not stale, the document's record is replaced whole;
/// otherwise the cache is left untouched.
pub open spec fn pass_cache_spec(
    m: Map<Seq<char>, RecordV>,
    id: Seq<char>,
    version: i32,
    o: Option<Seq<NodeV>>,
) -> Map<Seq<char>, RecordV> {
    match o {
        Some(s) => if wf_nodes(s) && version_fresh(m, id, version) {
            m.insert(id, record_of(s, version))
        } else {
            m
        },
        None => m,
    }
}

/// The diagnostics one pass publishes: those of the pass's own parse
/// outcome, and nothing else.
pub open spec fn pass_diags_spec(o: Option<Seq<NodeV>>) -> Seq<crate::extract::ErrV> {
    parse_spec(o).1
}

/// The session orchestrator. It owns the document cache; the surrounding
/// server hands it lifecycle notifications together with the outcome the
/// parsing engine produced for the document's full new text.
pub struct Session {
    cache: DocumentCache,
}

impl Session {
    /// The documents the session currently holds analysis results for.
    pub closed spec fn model(self) -> Map<Seq<char>, RecordV> {
        cache_model(self.cache)
    }

    /// A session with no documents.
    pub fn new() -> (s: Session)
        ensures
            s.model() == empty_model(),
    {
        Session { cache: DocumentCache::new() }
    }

    /// One full analysis pass, shared by the open and the change
    /// notification: analyze the parse outcome, store the record under the
    /// version discipline, and hand back the diagnostics to publish.
    fn on_change(&mut self, id: &str, version: i32, tree: Option<Vec<SyntaxNode>>) -> (diags:
        Vec<ErrorToken>)
        ensures
            errors_view(diags@) == pass_diags_spec(opt_nodes_view(tree)),
            final(self).model() == pass_cache_spec(
                old(self).model(),
                id@,
                version,
                opt_nodes_view(tree),
            ),
    {
        let ghost o = opt_nodes_view(tree);
        let ghost m0 = self.model();
        let (ast, diags, toks) = parse(tree);
        match ast {
            Option::Some(spans) => {
                proof {
                    assert(o is Some && wf_nodes(o->0));
                }
                let fresh = match self.cache.get(id) {
                    Option::Some(prev) => prev.version <= version,
                    Option::None => true,
                };
                assert(fresh == version_fresh(m0, id@, version));
                if fresh {
                    let rec = DocumentRecord { version, ast: spans, tokens: toks };
                    proof {
                        assert(rec@ == record_of(o->0, version));
                    }
                    self.cache.insert(id, rec);
                }
            },
            Option::None => {},
        }
        diags
    }

    /// A document was opened: run the full analysis pass on its text's
    /// parse outcome and return the diagnostics to publish. An absent tree
    /// publishes an empty list — which still clears any earlier
    /// diagnostics on the editor's side — and leaves the cache untouched.
    pub fn document_opened(&mut self, id: &str, version: i32, tree: Option<Vec<SyntaxNode>>) -> (
        diags: Vec<ErrorToken>)
        ensures
            errors_view(diags@) == pass_diags_spec(opt_nodes_view(tree)),
            final(self).model() == pass_cache_spec(
                old(self).model(),
                id@,
                version,
                opt_nodes_view(tree),
            ),
    {
        self.on_change(id, version, tree)
    }

    /// A full-text change: identical to opening — the whole document is
    /// re-analyzed from scratch, nothing incremental.
    pub fn document_changed(&mut self, id: &str, version: i32, tree: Option<Vec<SyntaxNode>>) -> (
        diags: Vec<ErrorToken>)
        ensures
            errors_view(diags@) == pass_diags_spec(opt_nodes_view(tree)),
            final(self).model() == pass_cache_spec(
                old(self).model(),
                id@,
                version,
                opt_nodes_view(tree),
            ),
    {
        self.on_change(id, version, tree)
    }

    /// A document was closed: its record is evicted, so the cache stays
    /// bounded by the currently open documents.
    pub fn document_closed(&mut self, id: &str)
        ensures
            final(self).model() == old(self).model().remove(id@),
    {
        self.cache.remove(id);
    }

    /// Best-effort read of the document's span projection: no result when
    /// the document was never successfully analyzed.
    pub fn get_ast(&self, id: &str) -> (r: Option<Vec<crate::syntax::Span>>)
        ensures
            r is Some <==> self.model().contains_key(id@),
            r is Some ==> (r->0)@ == self.model()[id@].ast,
    {
        match self.cache.get(id) {
            Option::Some(rec) => Some(rec.ast),
            Option::None => None,
        }
    }

    /// Best-effort read of the document's highlight tokens, still in source
    /// coordinates: no result when the document was never successfully
    /// analyzed.
    pub fn get_tokens(&self, id: &str) -> (r: Option<Vec<crate::classify::ImCompleteSemanticToken>>)
        ensures
            r is Some <==> self.model().contains_key(id@),
            r is Some ==> (r->0)@ == self.model()[id@].tokens,
    {
        match self.cache.get(id) {
            Option::Some(rec) => Some(rec.tokens),
            Option::None => None,
        }
    }

    /// Answers a highlight request from the cache alone: the stored token
    /// list is re-encoded afresh on every request — nothing is ever
    /// appended to stored state — or no data when the document was never
    /// successfully analyzed.
    pub fn semantic_tokens_full(&self, id: &str) -> (r: Option<Vec<EncodedToken>>)
        ensures
            r is Some <==> self.model().contains_key(id@),
            r is Some ==> (r->0)@ == encode_spec(self.model()[id@].tokens),
    {
        match self.cache.get(id) {
            Option::Some(rec) => Some(encode_tokens(&rec.tokens)),
            Option::None => None,
        }
    }
}

/// Law (idempotence at the session): re-running an identical analysis pass
/// — same document, same version, same parse outcome — leaves the cache
/// exactly where the first run put it; with
/// [`crate::analysis::lemma_analysis_idempotent`], repeated analysis of
/// unchanged text publishes and stores identical results both times.
pub proof fn lemma_repeat_pass_stable(
    m: Map<Seq<char>, RecordV>,
    id: Seq<char>,
    version: i32,
    o: Option<Seq<NodeV>>,
)
    ensures
        pass_cache_spec(pass_cache_spec(m, id, version, o), id, version, o) == pass_cache_spec(
            m,
            id,
            version,
            o,
        ),
{
    match o {
        Some(s) => {
            if wf_nodes(s) && version_fresh(m, id, version) {
                let m1 = m.insert(id, record_of(s, version));
                assert(version_fresh(m1, id, version));
                assert(m1.insert(id, record_of(s, version)) =~= m1);
            }
        },
        None => {},
    }
}

/// Law (latest text wins): what a change publishes and stores is drawn
/// from that change's own parse outcome alone. After two sequential
/// changes to one document, the second publication holds exactly the
/// diagnostics of the second outcome, and the record the second pass
/// stores is built from the second outcome — never a mixture of the two.
pub proof fn lemma_second_change_unmixed(
    m: Map<Seq<char>, RecordV>,
    id: Seq<char>,
    v1: i32,
    v2: i32,
    o1: Option<Seq<NodeV>>,
    o2: Option<Seq<NodeV>>,
)
    ensures
        pass_diags_spec(o2) == parse_spec(o2).1,
        ({
            let m1 = pass_cache_spec(m, id, v1, o1);
            o2 is Some && wf_nodes(o2->0) && version_fresh(m1, id, v2) ==> pass_cache_spec(
                m1,
                id,
                v2,
                o2,
            )[id] == record_of(o2->0, v2)
        }),
{
}

} // verus!
