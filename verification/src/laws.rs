//! The engine's laws: properties that hold of every input, stated over the
//! same spec functions the executable contracts use.

use vstd::prelude::*;

use crate::inverted_index::candidates;
use crate::inverted_index::doc_score;
use crate::inverted_index::encode_all;
use crate::inverted_index::encode_doc;
use crate::inverted_index::first_index;
use crate::inverted_index::is_stop_token;
use crate::inverted_index::lemma_first_index;
use crate::inverted_index::lemma_max_of;
use crate::inverted_index::max_of;
use crate::inverted_index::ranked;
use crate::inverted_index::ranks_before;
use crate::inverted_index::sat64;
use crate::inverted_index::search_spec;
use crate::inverted_index::stop_set;
use crate::inverted_index::tf;
use crate::labels::strictly_ascending;
use crate::quantize::quantize_spec;

verus! {

/// Determinism: a fixed searchable generation and a fixed query token set
/// determine the ordered search result; two results of the same search are
/// the same.
pub proof fn lemma_search_deterministic(
    docs: Seq<(u64, Seq<(Seq<char>, u8)>)>,
    q: Seq<Seq<char>>,
    k: nat,
    r1: Seq<(u64, u64)>,
    r2: Seq<(u64, u64)>,
)
    requires
        r1 == search_spec(docs, q, k),
        r2 == search_spec(docs, q, k),
    ensures
        r1 == r2,
{
}

/// Quantization is consistent: a fixed score and threshold determine the
/// weight, so repeated calls agree — also exactly at the threshold.
pub proof fn lemma_quantize_consistent(score: u32, min_score: u32, w1: u8, w2: u8)
    requires
        w1 == quantize_spec(score, min_score),
        w2 == quantize_spec(score, min_score),
    ensures
        w1 == w2,
{
}

/// Deduplication yields each id at most once: an ascending projection has no
/// repeated labels.
pub proof fn lemma_ascending_distinct(s: Seq<crate::ann::Idx>)
    requires
        strictly_ascending(s),
    ensures
        forall|i: int, j: int| 0 <= i < j < s.len() ==> s[i] != s[j],
{
    assert forall|i: int, j: int| 0 <= i < j < s.len() implies s[i] != s[j] by {
        assert(s[i].spec_val() < s[j].spec_val());
    }
}

/// An empty query returns an empty result, whatever the generation holds.
pub proof fn lemma_empty_query(docs: Seq<(u64, Seq<(Seq<char>, u8)>)>, k: nat)
    ensures
        search_spec(docs, Seq::empty(), k) == Seq::<(u64, u64)>::empty(),
{
}

/// A pruned token reaches no posting of the encoded generation.
proof fn lemma_encode_doc_no_stop(
    entries: Seq<(Seq<char>, u32)>,
    stop: Set<Seq<char>>,
    min_bits: u32,
    t: Seq<char>,
)
    requires
        stop.contains(t),
    ensures
        forall|j: int|
            0 <= j < encode_doc(entries, stop, min_bits).len() ==> (#[trigger] encode_doc(
                entries,
                stop,
                min_bits,
            )[j]).0 != t,
    decreases entries.len(),
{
    if entries.len() > 0 {
        lemma_encode_doc_no_stop(entries.drop_last(), stop, min_bits, t);
        let enc = encode_doc(entries, stop, min_bits);
        let rest = encode_doc(entries.drop_last(), stop, min_bits);
        assert forall|j: int| 0 <= j < enc.len() implies (#[trigger] enc[j]).0 != t by {
            if j < rest.len() {
                assert(enc[j] == rest[j]);
            }
        }
    }
}

/// A token with no posting in a record contributes no term frequency.
proof fn lemma_tf_zero(postings: Seq<(Seq<char>, u8)>, t: Seq<char>)
    requires
        forall|j: int| 0 <= j < postings.len() ==> (#[trigger] postings[j]).0 != t,
    ensures
        tf(postings, t) == 0,
    decreases postings.len(),
{
    if postings.len() > 0 {
        assert(forall|j: int|
            0 <= j < postings.drop_last().len() ==> (#[trigger] postings.drop_last()[j]).0 != t);
        lemma_tf_zero(postings.drop_last(), t);
    }
}

/// A query whose single token scores zero everywhere has no candidates.
proof fn lemma_candidates_empty(docs: Seq<(u64, Seq<(Seq<char>, u8)>)>, q: Seq<Seq<char>>)
    requires
        forall|i: int| 0 <= i < docs.len() ==> doc_score((#[trigger] docs[i]).1, q) == 0,
    ensures
        candidates(docs, q) == Seq::<(u64, u64)>::empty(),
    decreases docs.len(),
{
    if docs.len() > 0 {
        assert(forall|i: int|
            0 <= i < docs.drop_last().len() ==> doc_score(
                (#[trigger] docs.drop_last()[i]).1,
                q,
            ) == 0);
        lemma_candidates_empty(docs.drop_last(), q);
    }
}

/// Stop-token pruning: a token whose document-frequency ratio reaches the
/// threshold appears in no finalized posting, and searching by that token
/// alone yields no candidates at all — even though it was added during
/// ingestion.
pub proof fn lemma_stop_token_pruned(
    pending: Seq<(u64, Seq<(Seq<char>, u32)>)>,
    percent: u64,
    min_bits: u32,
    t: Seq<char>,
    k: nat,
)
    requires
        is_stop_token(pending, percent, t),
    ensures
        forall|i: int, j: int|
            0 <= i < encode_all(pending, stop_set(pending, true, percent), min_bits).len() && 0 <= j
                < (#[trigger] encode_all(pending, stop_set(pending, true, percent), min_bits)[i]).1.len()
                ==> (#[trigger] encode_all(pending, stop_set(pending, true, percent), min_bits)[i].1[j]).0
                != t,
        search_spec(encode_all(pending, stop_set(pending, true, percent), min_bits), seq![t], k)
            == Seq::<(u64, u64)>::empty(),
{
    let stop = stop_set(pending, true, percent);
    let docs = encode_all(pending, stop, min_bits);
    assert(stop.contains(t));
    assert forall|i: int, j: int|
        0 <= i < docs.len() && 0 <= j < (#[trigger] docs[i]).1.len() implies (
    #[trigger] docs[i].1[j]).0 != t by {
        lemma_encode_doc_no_stop(pending[i].1, stop, min_bits, t);
    }
    let q = seq![t];
    assert forall|i: int| 0 <= i < docs.len() implies doc_score((#[trigger] docs[i]).1, q) == 0 by {
        assert(docs[i].1 == encode_doc(pending[i].1, stop, min_bits));
        lemma_encode_doc_no_stop(pending[i].1, stop, min_bits, t);
        lemma_tf_zero(docs[i].1, t);
        assert(q.drop_last() =~= Seq::<Seq<char>>::empty());
        assert(q.last() == t);
        assert(doc_score(docs[i].1, q.drop_last()) == 0);
    }
    lemma_candidates_empty(docs, q);
    assert(search_spec(docs, q, k) =~= Seq::<(u64, u64)>::empty());
}

/// The quantized weights a token's entries contribute to one document,
/// summed in entry order: zero for a pruned token, and the sum of each
/// surviving entry's quantized score otherwise.
pub open spec fn quantized_sum(
    entries: Seq<(Seq<char>, u32)>,
    stop: Set<Seq<char>>,
    min_bits: u32,
    t: Seq<char>,
) -> nat
    decreases entries.len(),
{
    if entries.len() == 0 {
        0
    } else {
        quantized_sum(entries.drop_last(), stop, min_bits, t) + if entries.last().0 == t
            && !stop.contains(t) {
            quantize_spec(entries.last().1, min_bits) as nat
        } else {
            0nat
        }
    }
}

/// The coupling that makes retrieval work: the term frequency a finalized
/// record stores for a token is exactly the sum of the quantized scores of
/// that token's surviving entries, so a term-frequency count recovers the
/// quantized relevance.
pub proof fn lemma_tf_recovers_quantized_scores(
    entries: Seq<(Seq<char>, u32)>,
    stop: Set<Seq<char>>,
    min_bits: u32,
    t: Seq<char>,
)
    ensures
        tf(encode_doc(entries, stop, min_bits), t) == quantized_sum(entries, stop, min_bits, t),
    decreases entries.len(),
{
    if entries.len() > 0 {
        lemma_tf_recovers_quantized_scores(entries.drop_last(), stop, min_bits, t);
        let rest = encode_doc(entries.drop_last(), stop, min_bits);
        let e = entries.last();
        if !stop.contains(e.0) && quantize_spec(e.1, min_bits) != 0 {
            let enc = rest.push((e.0, quantize_spec(e.1, min_bits)));
            assert(enc.drop_last() =~= rest);
            assert(enc.last() == (e.0, quantize_spec(e.1, min_bits)));
        }
    }
}

/// Round trip for a one-document corpus: finalizing it without pruning and
/// searching with any query it matches returns exactly that document, scored
/// by the sum of its term frequencies over the query — in particular, by the
/// sum of the quantized weights of the queried tokens.
pub proof fn lemma_single_document_round_trip(
    doc_id: u64,
    entries: Seq<(Seq<char>, u32)>,
    percent: u64,
    min_bits: u32,
    q: Seq<Seq<char>>,
    k: nat,
)
    requires
        k >= 1,
        q.len() > 0,
        doc_score(encode_doc(entries, Set::empty(), min_bits), q) > 0,
    ensures
        search_spec(
            encode_all(seq![(doc_id, entries)], stop_set(seq![(doc_id, entries)], false, percent), min_bits),
            q,
            k,
        ) == seq![
            (doc_id, sat64(doc_score(encode_doc(entries, Set::empty(), min_bits), q))),
        ],
{
    let pending = seq![(doc_id, entries)];
    let enc = encode_doc(entries, Set::empty(), min_bits);
    let docs = encode_all(pending, stop_set(pending, false, percent), min_bits);
    assert(stop_set(pending, false, percent) == Set::<Seq<char>>::empty());
    assert(docs.len() == 1);
    assert(docs[0] == (doc_id, enc));
    let sc = sat64(doc_score(enc, q));
    let cands = candidates(docs, q);
    assert(docs.drop_last() =~= Seq::<(u64, Seq<(Seq<char>, u8)>)>::empty());
    assert(docs.last() == (doc_id, enc));
    assert(candidates(Seq::<(u64, Seq<(Seq<char>, u8)>)>::empty(), q) =~= Seq::<(u64, u64)>::empty());
    assert(cands =~= seq![(doc_id, sc)]);
    assert(max_of(cands) == (doc_id, sc));
    assert(first_index(cands, (doc_id, sc)) == 0);
    assert(cands.remove(0) =~= Seq::<(u64, u64)>::empty());
    assert(ranked(cands.remove(0), (k - 1) as nat) =~= Seq::<(u64, u64)>::empty());
    assert(ranked(cands, k) =~= seq![(doc_id, sc)]);
}

/// Every returned candidate is a real candidate of the generation.
proof fn lemma_ranked_subset(s: Seq<(u64, u64)>, k: nat)
    ensures
        forall|i: int| 0 <= i < ranked(s, k).len() ==> s.contains(#[trigger] ranked(s, k)[i]),
    decreases k,
{
    if k > 0 && s.len() > 0 {
        let m = max_of(s);
        lemma_max_of(s);
        lemma_first_index(s, m);
        let fi = first_index(s, m);
        let rest = s.remove(fi);
        lemma_ranked_subset(rest, (k - 1) as nat);
        assert forall|i: int|
            0 <= i < ranked(s, k).len() implies s.contains(#[trigger] ranked(s, k)[i]) by {
            if i == 0 {
                assert(ranked(s, k)[0] == m);
            } else {
                let x = ranked(s, k)[i];
                assert(rest.contains(ranked(rest, (k - 1) as nat)[i - 1]));
                let j = choose|j: int| 0 <= j < rest.len() && rest[j] == x;
                if j < fi {
                    assert(s[j] == x);
                } else {
                    assert(s[j + 1] == x);
                }
            }
        }
    }
}

/// Top-k ordering: the search result is ordered by score descending, ties
/// broken by document id ascending — no later entry ranks before an earlier
/// one.
pub proof fn lemma_search_ordered(docs: Seq<(u64, Seq<(Seq<char>, u8)>)>, q: Seq<Seq<char>>, k: nat)
    ensures
        forall|i: int, j: int|
            0 <= i < j < search_spec(docs, q, k).len() ==> !ranks_before(
                #[trigger] search_spec(docs, q, k)[j],
                #[trigger] search_spec(docs, q, k)[i],
            ),
{
    if q.len() > 0 {
        lemma_ranked_sorted(candidates(docs, q), k);
    }
}

/// The ranking selection returns a sorted sequence.
proof fn lemma_ranked_sorted(s: Seq<(u64, u64)>, k: nat)
    ensures
        forall|i: int, j: int|
            0 <= i < j < ranked(s, k).len() ==> !ranks_before(
                #[trigger] ranked(s, k)[j],
                #[trigger] ranked(s, k)[i],
            ),
    decreases k,
{
    if k > 0 && s.len() > 0 {
        let m = max_of(s);
        lemma_max_of(s);
        lemma_first_index(s, m);
        let fi = first_index(s, m);
        let rest = s.remove(fi);
        lemma_ranked_sorted(rest, (k - 1) as nat);
        lemma_ranked_subset(rest, (k - 1) as nat);
        assert forall|i: int, j: int|
            0 <= i < j < ranked(s, k).len() implies !ranks_before(
            #[trigger] ranked(s, k)[j],
            #[trigger] ranked(s, k)[i],
        ) by {
            if i == 0 {
                let x = ranked(s, k)[j];
                assert(x == ranked(rest, (k - 1) as nat)[j - 1]);
                assert(rest.contains(x));
                let w = choose|w: int| 0 <= w < rest.len() && rest[w] == x;
                if w < fi {
                    assert(s[w] == x);
                } else {
                    assert(s[w + 1] == x);
                }
                assert(!ranks_before(x, m));
            } else {
                assert(ranked(rest, (k - 1) as nat)[i - 1] == ranked(s, k)[i]);
                assert(ranked(rest, (k - 1) as nat)[j - 1] == ranked(s, k)[j]);
            }
        }
    }
}

/// The search result holds as many candidates as the query matches, capped
/// at `top_k`.
pub proof fn lemma_ranked_len(s: Seq<(u64, u64)>, k: nat)
    ensures
        ranked(s, k).len() == if s.len() < k {
            s.len()
        } else {
            k
        },
    decreases k,
{
    if k > 0 && s.len() > 0 {
        let m = max_of(s);
        lemma_max_of(s);
        lemma_first_index(s, m);
        lemma_ranked_len(s.remove(first_index(s, m)), (k - 1) as nat);
    }
}

} // verus!

