//! The token encoder: turns an unordered collection of highlight tokens
//! into the ordered, delta-encoded sequence the highlighting wire format
//! requires.
//!
//! Tokens are first stably sorted by start position (row, then column; ties
//! keep document order), then each token's position is written as an offset
//! from the previous token's position.

use vstd::prelude::*;

use crate::classify::ImCompleteSemanticToken;

verus! {

/// One wire-format token: position deltas, length, and the legend index of
/// its category. No modifiers are ever set.
#[derive(Clone, Copy, Debug, PartialEq, Eq, Structural)]
pub struct EncodedToken {
    pub delta_line: u32,
    pub delta_start: u32,
    pub length: u32,
    pub token_type: u32,
    pub token_modifiers_bitset: u32,
}

/// Sort key order: by start row, ties by start column (non-strict).
pub open spec fn tok_le(a: ImCompleteSemanticToken, b: ImCompleteSemanticToken) -> bool {
    a.start.row < b.start.row || (a.start.row == b.start.row && a.start.column <= b.start.column)
}

/// Sort key order, executably.
fn tok_le_exec(a: &ImCompleteSemanticToken, b: &ImCompleteSemanticToken) -> (r: bool)
    ensures
        r == tok_le(*a, *b),
{
    a.start.row < b.start.row || (a.start.row == b.start.row && a.start.column <= b.start.column)
}

/// The token can be encoded: it sits on one row, runs forward, and its
/// coordinates and category fit the 32-bit wire fields.
pub open spec fn tok_fits(t: ImCompleteSemanticToken) -> bool {
    t.start.row == t.end.row && t.start.column <= t.end.column && t.end.column <= u32::MAX
        && t.start.row <= u32::MAX && t.token_type <= u32::MAX
}

/// The sub-sequence of tokens that can be encoded, in input order. The
/// classifier only emits such tokens, so on its output this keeps everything.
pub open spec fn keep_fitting(s: Seq<ImCompleteSemanticToken>) -> Seq<ImCompleteSemanticToken>
    decreases s.len(),
{
    if s.len() == 0 {
        Seq::empty()
    } else {
        keep_fitting(s.drop_last()) + if tok_fits(s.last()) {
            seq![s.last()]
        } else {
            Seq::empty()
        }
    }
}

/// `x` placed into `s` before the first element strictly greater than `x`,
/// after every element less than or equal: the insertion step of a stable
/// insertion sort.
pub open spec fn insert_sorted(
    s: Seq<ImCompleteSemanticToken>,
    x: ImCompleteSemanticToken,
) -> Seq<ImCompleteSemanticToken>
    decreases s.len(),
{
    if s.len() == 0 {
        seq![x]
    } else if tok_le(s[0], x) {
        seq![s[0]] + insert_sorted(s.drop_first(), x)
    } else {
        seq![x] + s
    }
}

/// The stable sort of `s` by start position: later input elements land
/// after earlier ones whose key is equal.
pub open spec fn stable_sort(s: Seq<ImCompleteSemanticToken>) -> Seq<ImCompleteSemanticToken>
    decreases s.len(),
{
    if s.len() == 0 {
        Seq::empty()
    } else {
        insert_sorted(stable_sort(s.drop_last()), s.last())
    }
}

/// The sequence is sorted by start position.
pub open spec fn tok_sorted(s: Seq<ImCompleteSemanticToken>) -> bool {
    forall|i: int, j: int| 0 <= i < j < s.len() ==> tok_le(s[i], s[j])
}

/// Every element of the sequence can be encoded.
pub open spec fn all_fit(s: Seq<ImCompleteSemanticToken>) -> bool {
    forall|i: int| 0 <= i < s.len() ==> tok_fits(#[trigger] s[i])
}

proof fn lemma_drop_first_sorted(s: Seq<ImCompleteSemanticToken>)
    requires
        tok_sorted(s),
        s.len() > 0,
    ensures
        tok_sorted(s.drop_first()),
{
    let t = s.drop_first();
    assert forall|i: int, j: int| 0 <= i < j < t.len() implies tok_le(t[i], t[j]) by {
        assert(t[i] == s[i + 1]);
        assert(t[j] == s[j + 1]);
        assert(tok_le(s[i + 1], s[j + 1]));
    }
}

proof fn lemma_insert_sorted_props(s: Seq<ImCompleteSemanticToken>, x: ImCompleteSemanticToken)
    requires
        tok_sorted(s),
    ensures
        insert_sorted(s, x).len() == s.len() + 1,
        tok_sorted(insert_sorted(s, x)),
        forall|k: int| 0 <= k < insert_sorted(s, x).len() ==> (#[trigger] insert_sorted(s, x)[k]
            == x || exists|m: int| 0 <= m < s.len() && insert_sorted(s, x)[k] == s[m]),
        all_fit(s) && tok_fits(x) ==> all_fit(insert_sorted(s, x)),
    decreases s.len(),
{
    if s.len() == 0 {
    } else if tok_le(s[0], x) {
        let t = s.drop_first();
        lemma_drop_first_sorted(s);
        lemma_insert_sorted_props(t, x);
        let r = insert_sorted(s, x);
        let rt = insert_sorted(t, x);
        assert(r == seq![s[0]] + rt);
        assert forall|k: int| 1 <= k < r.len() implies r[k] == rt[k - 1] by {}
        assert forall|k: int| 1 <= k < r.len() implies tok_le(s[0], #[trigger] r[k]) by {
            assert(r[k] == rt[k - 1]);
            assert(rt[k - 1] == x || exists|m: int| 0 <= m < t.len() && rt[k - 1] == t[m]);
            if rt[k - 1] != x {
                let m = choose|m: int| 0 <= m < t.len() && rt[k - 1] == t[m];
                assert(t[m] == s[m + 1]);
                assert(tok_le(s[0], s[m + 1]));
            }
        }
        assert forall|i: int, j: int| 0 <= i < j < r.len() implies tok_le(r[i], r[j]) by {
            if i == 0 {
                assert(tok_le(s[0], r[j]));
            } else {
                assert(r[i] == rt[i - 1]);
                assert(r[j] == rt[j - 1]);
                assert(tok_le(rt[i - 1], rt[j - 1]));
            }
        }
        assert forall|k: int| 0 <= k < r.len() implies (#[trigger] r[k] == x || exists|m: int| 0
            <= m < s.len() && r[k] == s[m]) by {
            if k == 0 {
                assert(r[0] == s[0]);
                assert(0 <= 0 < s.len() && r[k] == s[0]);
            } else if r[k] != x {
                assert(r[k] == rt[k - 1]);
                let m = choose|m: int| 0 <= m < t.len() && rt[k - 1] == t[m];
                assert(t[m] == s[m + 1]);
                assert(0 <= m + 1 < s.len() && r[k] == s[m + 1]);
            }
        }
        if all_fit(s) && tok_fits(x) {
            assert forall|k: int| 0 <= k < r.len() implies tok_fits(#[trigger] r[k]) by {
                if r[k] != x {
                    let m = choose|m: int| 0 <= m < s.len() && r[k] == s[m];
                    assert(tok_fits(s[m]));
                }
            }
        }
    } else {
        let r = insert_sorted(s, x);
        assert(r == seq![x] + s);
        assert forall|k: int| 1 <= k < r.len() implies #[trigger] r[k] == s[k - 1] by {}
        assert(tok_le(x, s[0]));
        assert forall|i: int, j: int| 0 <= i < j < r.len() implies tok_le(r[i], r[j]) by {
            if i == 0 {
                if j > 1 {
                    assert(r[j] == s[j - 1]);
                    assert(tok_le(s[0], s[j - 1]));
                }
            } else {
                assert(r[i] == s[i - 1]);
                assert(r[j] == s[j - 1]);
                assert(tok_le(s[i - 1], s[j - 1]));
            }
        }
        assert forall|k: int| 0 <= k < r.len() implies (#[trigger] r[k] == x || exists|m: int| 0
            <= m < s.len() && r[k] == s[m]) by {
            if k > 0 {
                assert(r[k] == s[k - 1]);
                assert(0 <= k - 1 < s.len() && r[k] == s[k - 1]);
            }
        }
        if all_fit(s) && tok_fits(x) {
            assert forall|k: int| 0 <= k < r.len() implies tok_fits(#[trigger] r[k]) by {
                if k > 0 {
                    assert(r[k] == s[k - 1]);
                    assert(tok_fits(s[k - 1]));
                }
            }
        }
    }
}

proof fn lemma_stable_sort_props(s: Seq<ImCompleteSemanticToken>)
    ensures
        stable_sort(s).len() == s.len(),
        tok_sorted(stable_sort(s)),
        all_fit(s) ==> all_fit(stable_sort(s)),
    decreases s.len(),
{
    if s.len() > 0 {
        let t = s.drop_last();
        lemma_stable_sort_props(t);
        if all_fit(s) {
            assert forall|i: int| 0 <= i < t.len() implies tok_fits(#[trigger] t[i]) by {
                assert(t[i] == s[i]);
            }
            assert(s.last() == s[s.len() - 1]);
        }
        lemma_insert_sorted_props(stable_sort(t), s.last());
    }
}

proof fn lemma_insert_sorted_multiset(s: Seq<ImCompleteSemanticToken>, x: ImCompleteSemanticToken)
    ensures
        insert_sorted(s, x).to_multiset() == s.to_multiset().insert(x),
    decreases s.len(),
{
    broadcast use vstd::seq_lib::group_to_multiset_ensures;

    if s.len() == 0 {
        assert(insert_sorted(s, x) =~= Seq::<ImCompleteSemanticToken>::empty().push(x));
    } else if tok_le(s[0], x) {
        let t = s.drop_first();
        lemma_insert_sorted_multiset(t, x);
        let r = insert_sorted(s, x);
        let rt = insert_sorted(t, x);
        assert(r == seq![s[0]] + rt);
        assert(r.remove(0) =~= rt);
        assert(r.remove(0).to_multiset() =~= r.to_multiset().remove(r[0]));
        assert(r.to_multiset().count(r[0]) > 0) by {
            assert(r.contains(r[0]));
        }
        assert(r.to_multiset() =~= rt.to_multiset().insert(s[0]));
        assert(s.remove(0) =~= t);
        assert(t.to_multiset() =~= s.to_multiset().remove(s[0]));
        assert(s.to_multiset().count(s[0]) > 0) by {
            assert(s.contains(s[0]));
        }
        assert(s.to_multiset() =~= t.to_multiset().insert(s[0]));
        assert(r.to_multiset() =~= t.to_multiset().insert(x).insert(s[0]));
        assert(t.to_multiset().insert(x).insert(s[0]) =~= t.to_multiset().insert(s[0]).insert(x));
    } else {
        let r = insert_sorted(s, x);
        assert(r == seq![x] + s);
        assert(r.remove(0) =~= s);
        assert(r.remove(0).to_multiset() =~= r.to_multiset().remove(r[0]));
        assert(r.to_multiset().count(r[0]) > 0) by {
            assert(r.contains(r[0]));
        }
        assert(r.to_multiset() =~= s.to_multiset().insert(x));
    }
}

/// Law (the sort loses and invents nothing): the stably sorted sequence is
/// a permutation of its input — every token occurs exactly as often after
/// sorting as before.
pub proof fn lemma_stable_sort_permutes(s: Seq<ImCompleteSemanticToken>)
    ensures
        stable_sort(s).to_multiset() == s.to_multiset(),
    decreases s.len(),
{
    broadcast use vstd::seq_lib::group_to_multiset_ensures;

    if s.len() > 0 {
        let t = s.drop_last();
        lemma_stable_sort_permutes(t);
        lemma_insert_sorted_multiset(stable_sort(t), s.last());
        assert(t.push(s.last()) =~= s);
        assert(s.to_multiset() =~= t.to_multiset().insert(s.last()));
    }
}

/// Where the stable insertion step lands when the insertion point `p` has
/// been found by scanning: everything before `p` is less than or equal to
/// `x`, and the element at `p` (if any) is strictly greater.
proof fn lemma_insert_sorted_at(
    s: Seq<ImCompleteSemanticToken>,
    x: ImCompleteSemanticToken,
    p: int,
)
    requires
        tok_sorted(s),
        0 <= p <= s.len(),
        forall|q: int| 0 <= q < p ==> tok_le(#[trigger] s[q], x),
        p < s.len() ==> !tok_le(s[p], x),
    ensures
        insert_sorted(s, x) == s.insert(p, x),
    decreases s.len(),
{
    if s.len() == 0 {
        assert(insert_sorted(s, x) =~= s.insert(0, x));
    } else if tok_le(s[0], x) {
        assert(p >= 1);
        let t = s.drop_first();
        lemma_drop_first_sorted(s);
        assert forall|q: int| 0 <= q < p - 1 implies tok_le(#[trigger] t[q], x) by {
            assert(t[q] == s[q + 1]);
            assert(tok_le(s[q + 1], x));
        }
        assert(p - 1 < t.len() ==> !tok_le(t[p - 1], x));
        lemma_insert_sorted_at(t, x, p - 1);
        assert(insert_sorted(s, x) =~= s.insert(p, x)) by {
            assert(insert_sorted(s, x) == seq![s[0]] + t.insert(p - 1, x));
        }
    } else {
        assert(p == 0);
        assert(insert_sorted(s, x) =~= s.insert(0, x));
    }
}

/// The first position in sorted `toks` whose element is strictly greater
/// than `x`; inserting `x` there keeps the order and lands after every
/// element with an equal key.
fn insert_pos(toks: &Vec<ImCompleteSemanticToken>, x: &ImCompleteSemanticToken) -> (p: usize)
    requires
        tok_sorted(toks@),
    ensures
        p <= toks@.len(),
        forall|q: int| 0 <= q < p ==> tok_le(#[trigger] toks@[q], *x),
        p < toks@.len() ==> !tok_le(toks@[p as int], *x),
{
    let n = toks.len();
    let mut p: usize = 0;
    while p < n
        invariant
            p <= n,
            n == toks@.len(),
            forall|q: int| 0 <= q < p ==> tok_le(#[trigger] toks@[q], *x),
        decreases n - p,
    {
        if !tok_le_exec(&toks[p], x) {
            return p;
        }
        p = p + 1;
    }
    p
}

/// Stably sorts the tokens by start position.
pub fn sort_tokens(toks: &Vec<ImCompleteSemanticToken>) -> (r: Vec<ImCompleteSemanticToken>)
    ensures
        r@ == stable_sort(toks@),
        tok_sorted(r@),
{
    let n = toks.len();
    let mut out: Vec<ImCompleteSemanticToken> = Vec::new();
    let mut i: usize = 0;
    while i < n
        invariant
            i <= n,
            n == toks@.len(),
            out@ == stable_sort(toks@.take(i as int)),
            tok_sorted(out@),
        decreases n - i,
    {
        let x = toks[i];
        let p = insert_pos(&out, &x);
        let ghost prev = out@;
        out.insert(p, x);
        proof {
            lemma_insert_sorted_at(prev, x, p as int);
            assert(toks@.take(i as int + 1).drop_last() =~= toks@.take(i as int));
            assert(toks@.take(i as int + 1).last() == toks@[i as int]);
            assert(out@ == insert_sorted(stable_sort(toks@.take(i as int)), toks@[i as int]));
            lemma_insert_sorted_props(prev, x);
        }
        i = i + 1;
    }
    proof {
        assert(toks@.take(n as int) =~= toks@);
    }
    out
}

/// The wire token at position `i` of a sorted sequence: row delta from the
/// previous token, column delta within the same row (the column restarts
/// when the row advances), and the token's length on its single row.
pub open spec fn enc_at(s: Seq<ImCompleteSemanticToken>, i: int) -> EncodedToken {
    let prev_row: int = if i == 0 {
        0
    } else {
        s[i - 1].start.row as int
    };
    let prev_col: int = if i == 0 {
        0
    } else {
        s[i - 1].start.column as int
    };
    let dr: int = s[i].start.row - prev_row;
    let dc: int = if dr == 0 {
        s[i].start.column - prev_col
    } else {
        s[i].start.column as int
    };
    EncodedToken {
        delta_line: dr as u32,
        delta_start: dc as u32,
        length: (s[i].end.column - s[i].start.column) as u32,
        token_type: s[i].token_type as u32,
        token_modifiers_bitset: 0,
    }
}

/// The whole delta-encoded sequence of a sorted token sequence.
pub open spec fn encode_seq(s: Seq<ImCompleteSemanticToken>) -> Seq<EncodedToken> {
    Seq::new(s.len(), |i: int| enc_at(s, i))
}

/// What encoding an unordered token list means: drop what cannot be
/// encoded, sort stably by start position, then delta-encode.
pub open spec fn encode_spec(toks: Seq<ImCompleteSemanticToken>) -> Seq<EncodedToken> {
    encode_seq(stable_sort(keep_fitting(toks)))
}

/// Encodes an unordered token list for the wire: filters, sorts stably by
/// start position, and writes each position as a delta from the previous
/// one.
pub fn encode_tokens(toks: &Vec<ImCompleteSemanticToken>) -> (r: Vec<EncodedToken>)
    ensures
        r@ == encode_spec(toks@),
{
    let n = toks.len();
    let mut kept: Vec<ImCompleteSemanticToken> = Vec::new();
    let mut i: usize = 0;
    while i < n
        invariant
            i <= n,
            n == toks@.len(),
            kept@ == keep_fitting(toks@.take(i as int)),
            all_fit(kept@),
        decreases n - i,
    {
        let t = toks[i];
        if t.start.row == t.end.row && t.start.column <= t.end.column && t.end.column <= u32::MAX
            as usize && t.start.row <= u32::MAX as usize && t.token_type <= u32::MAX as usize {
            kept.push(t);
        }
        proof {
            assert(toks@.take(i as int + 1).drop_last() =~= toks@.take(i as int));
            assert(kept@ =~= keep_fitting(toks@.take(i as int + 1)));
        }
        i = i + 1;
    }
    proof {
        assert(toks@.take(n as int) =~= toks@);
    }
    let sorted = sort_tokens(&kept);
    proof {
        lemma_stable_sort_props(kept@);
    }
    let m = sorted.len();
    let mut out: Vec<EncodedToken> = Vec::new();
    let mut j: usize = 0;
    let mut prev_row: u32 = 0;
    let mut prev_col: u32 = 0;
    while j < m
        invariant
            j <= m,
            m == sorted@.len(),
            tok_sorted(sorted@),
            all_fit(sorted@),
            out@ == encode_seq(sorted@).take(j as int),
            j == 0 ==> prev_row == 0 && prev_col == 0,
            j > 0 ==> prev_row == sorted@[j as int - 1].start.row && prev_col == sorted@[j as int
                - 1].start.column,
        decreases m - j,
    {
        let t = sorted[j];
        assert(tok_fits(t));
        if j > 0 {
            assert(tok_le(sorted@[j as int - 1], sorted@[j as int]));
        }
        let row: u32 = t.start.row as u32;
        let col: u32 = t.start.column as u32;
        let delta_line: u32 = row - prev_row;
        let delta_start: u32 = if delta_line == 0 {
            col - prev_col
        } else {
            col
        };
        let enc = EncodedToken {
            delta_line,
            delta_start,
            length: (t.end.column - t.start.column) as u32,
            token_type: t.token_type as u32,
            token_modifiers_bitset: 0,
        };
        out.push(enc);
        proof {
            assert(enc == enc_at(sorted@, j as int));
            assert(out@ =~= encode_seq(sorted@).take(j as int + 1));
        }
        prev_row = row;
        prev_col = col;
        j = j + 1;
    }
    proof {
        assert(encode_seq(sorted@).take(m as int) =~= encode_seq(sorted@));
    }
    out
}

/// The absolute row a decoder reconstructs after reading `i + 1` encoded
/// tokens: the running sum of row deltas.
pub open spec fn decoded_row(e: Seq<EncodedToken>, i: int) -> int
    decreases i + 1,
{
    if i < 0 {
        0
    } else {
        decoded_row(e, i - 1) + e[i].delta_line
    }
}

/// The absolute column a decoder reconstructs after reading `i + 1` encoded
/// tokens: the column delta stands alone when the row advanced, and adds to
/// the previous column otherwise.
pub open spec fn decoded_col(e: Seq<EncodedToken>, i: int) -> int
    decreases i + 1,
{
    if i < 0 {
        0
    } else if e[i].delta_line > 0 {
        e[i].delta_start as int
    } else {
        decoded_col(e, i - 1) + e[i].delta_start
    }
}

proof fn lemma_decode_at(s: Seq<ImCompleteSemanticToken>, i: int)
    requires
        tok_sorted(s),
        all_fit(s),
        0 <= i < s.len(),
    ensures
        decoded_row(encode_seq(s), i) == s[i].start.row,
        decoded_col(encode_seq(s), i) == s[i].start.column,
    decreases i,
{
    let e = encode_seq(s);
    assert(decoded_row(e, -1) == 0);
    assert(decoded_col(e, -1) == 0);
    assert(tok_fits(s[i]));
    if i == 0 {
        assert(e[0] == enc_at(s, 0));
        assert(decoded_row(e, 0) == decoded_row(e, -1) + e[0].delta_line);
        assert(e[0].delta_line == s[0].start.row);
    } else {
        lemma_decode_at(s, i - 1);
        assert(tok_fits(s[i - 1]));
        assert(tok_le(s[i - 1], s[i]));
        assert(e[i] == enc_at(s, i));
        assert(decoded_row(e, i) == decoded_row(e, i - 1) + e[i].delta_line);
        assert(e[i].delta_line == s[i].start.row - s[i - 1].start.row);
    }
}

/// Law (encoding monotonicity): over a sorted, encodable token sequence,
/// summing the deltas of the encoded sequence in order reconstructs exactly
/// the start position of each token of the sorted input, and those
/// positions are non-decreasing in (row, column) order.
pub proof fn lemma_encoding_monotone(s: Seq<ImCompleteSemanticToken>)
    requires
        tok_sorted(s),
        all_fit(s),
    ensures
        encode_seq(s).len() == s.len(),
        forall|i: int| 0 <= i < s.len() ==> decoded_row(encode_seq(s), i) == s[i].start.row
            && decoded_col(encode_seq(s), i) == s[i].start.column,
        forall|i: int, j: int| 0 <= i < j < s.len() ==> tok_le(s[i], s[j]),
{
    assert forall|i: int| 0 <= i < s.len() implies decoded_row(encode_seq(s), i)
        == s[i].start.row && decoded_col(encode_seq(s), i) == s[i].start.column by {
        lemma_decode_at(s, i);
    }
}

/// Law (encoding monotonicity) for the full encoder: what
/// [`encode_tokens`] returns reconstructs, delta by delta, the start
/// positions of the stably sorted encodable input tokens.
pub proof fn lemma_encode_spec_reconstructs(toks: Seq<ImCompleteSemanticToken>)
    ensures
        encode_spec(toks).len() == stable_sort(keep_fitting(toks)).len(),
        tok_sorted(stable_sort(keep_fitting(toks))),
        forall|i: int| 0 <= i < stable_sort(keep_fitting(toks)).len() ==> decoded_row(
            encode_spec(toks),
            i,
        ) == stable_sort(keep_fitting(toks))[i].start.row && decoded_col(encode_spec(toks), i)
            == stable_sort(keep_fitting(toks))[i].start.column,
{
    let kept = keep_fitting(toks);
    assert(all_fit(kept)) by {
        lemma_keep_fitting_fits(toks);
    }
    lemma_stable_sort_props(kept);
    lemma_encoding_monotone(stable_sort(kept));
}

proof fn lemma_keep_fitting_fits(s: Seq<ImCompleteSemanticToken>)
    ensures
        all_fit(keep_fitting(s)),
    decreases s.len(),
{
    if s.len() > 0 {
        lemma_keep_fitting_fits(s.drop_last());
        let k = keep_fitting(s.drop_last());
        assert(forall|i: int| 0 <= i < k.len() ==> keep_fitting(s)[i] == k[i]);
    }
}

} // verus!
