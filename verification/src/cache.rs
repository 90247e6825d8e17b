//! The per-document analysis cache.
//!
//! A concurrent map from document identifier to that document's analysis
//! record. Distinct documents must not contend on one global lock, so the
//! map comes from an outside crate built for sharded concurrent access; the
//! library sees that map only through the trusted operations below, whose
//! contracts speak over [`map_contents`]. Both projections of one pass —
//! the span projection and the token list — sit in one record and are
//! replaced as a single unit, so no reader can observe one half of a pass
//! without the other.

use std::collections::hash_map::RandomState;

use vstd::prelude::*;

use crate::classify::ImCompleteSemanticToken;
use crate::syntax::Span;

verus! {

/// One document's cached analysis: the version of the text the pass
/// analyzed, the span projection keyed by pre-order node identity, and the
/// highlight tokens found by that pass.
#[derive(Clone, Debug)]
pub struct DocumentRecord {
    pub version: i32,
    pub ast: Vec<Span>,
    pub tokens: Vec<ImCompleteSemanticToken>,
}

/// The mathematical value of a [`DocumentRecord`].
pub struct RecordV {
    pub version: i32,
    pub ast: Seq<Span>,
    pub tokens: Seq<ImCompleteSemanticToken>,
}

impl View for DocumentRecord {
    type V = RecordV;

    open spec fn view(&self) -> RecordV {
        RecordV { version: self.version, ast: self.ast@, tokens: self.tokens@ }
    }
}

/// The sharded concurrent map of the outside crate, declared so that its
/// values can stand in fields and signatures; Verus sees nothing inside a
/// value of it.
#[verifier::external_type_specification]
#[verifier::external_body]
#[verifier::reject_recursive_types(K)]
#[verifier::reject_recursive_types(V)]
#[verifier::reject_recursive_types(S)]
pub struct ExDashMap<K, V, S>(dashmap::DashMap<K, V, S>);

/// The model of a cache with no entries.
pub open spec fn empty_model() -> Map<Seq<char>, RecordV> {
    Map::empty()
}

/// What the concurrent map holds: a finite map from document identifier to
/// the value of its analysis record.
pub uninterp spec fn map_contents(
    m: dashmap::DashMap<String, DocumentRecord, RandomState>,
) -> Map<Seq<char>, RecordV>;

/// Relies on `dashmap::DashMap::new`: a freshly created map holds no
/// entries.
#[verifier::external_body]
fn dm_new() -> (r: dashmap::DashMap<String, DocumentRecord, RandomState>)
    ensures
        map_contents(r) == empty_model(),
{
    dashmap::DashMap::new()
}

/// Relies on `dashmap::DashMap::insert`: the key is bound to the new
/// value, replacing any earlier binding; other keys are untouched.
#[verifier::external_body]
fn dm_insert(
    m: &mut dashmap::DashMap<String, DocumentRecord, RandomState>,
    id: &str,
    rec: DocumentRecord,
)
    ensures
        map_contents(*final(m)) == map_contents(*old(m)).insert(id@, rec@),
{
    m.insert(id.to_owned(), rec);
}

/// Relies on `dashmap::DashMap::get`, which yields the value bound to the
/// key if one is, and on the derived clone of the record, which copies the
/// version and both vectors element for element.
#[verifier::external_body]
fn dm_get(m: &dashmap::DashMap<String, DocumentRecord, RandomState>, id: &str) -> (r: Option<
    DocumentRecord,
>)
    ensures
        r is Some <==> map_contents(*m).contains_key(id@),
        r is Some ==> (r->0)@ == map_contents(*m)[id@],
{
    m.get(id).map(|entry| entry.value().clone())
}

/// Relies on `dashmap::DashMap::remove`: the key's binding, if any, is
/// taken out; other keys are untouched.
#[verifier::external_body]
fn dm_remove(m: &mut dashmap::DashMap<String, DocumentRecord, RandomState>, id: &str)
    ensures
        map_contents(*final(m)) == map_contents(*old(m)).remove(id@),
{
    m.remove(id);
}

/// The document cache: the concurrent map, keyed by document identifier.
pub struct DocumentCache {
    map: dashmap::DashMap<String, DocumentRecord, RandomState>,
}

/// What the cache holds.
pub closed spec fn cache_model(c: DocumentCache) -> Map<Seq<char>, RecordV> {
    map_contents(c.map)
}

impl DocumentCache {
    /// A cache with no entries.
    pub fn new() -> (r: DocumentCache)
        ensures
            cache_model(r) == empty_model(),
    {
        DocumentCache { map: dm_new() }
    }

    /// Binds the document to the record, replacing any earlier record for
    /// it.
    pub fn insert(&mut self, id: &str, rec: DocumentRecord)
        ensures
            cache_model(*final(self)) == cache_model(*old(self)).insert(id@, rec@),
    {
        dm_insert(&mut self.map, id, rec);
    }

    /// The document's record, if the document has one.
    pub fn get(&self, id: &str) -> (r: Option<DocumentRecord>)
        ensures
            r is Some <==> cache_model(*self).contains_key(id@),
            r is Some ==> (r->0)@ == cache_model(*self)[id@],
    {
        dm_get(&self.map, id)
    }

    /// Evicts the document's record, if it has one.
    pub fn remove(&mut self, id: &str)
        ensures
            cache_model(*final(self)) == cache_model(*old(self)).remove(id@),
    {
        dm_remove(&mut self.map, id);
    }
}

} // verus!
