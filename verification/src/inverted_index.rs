//! The posting-list index: the retrieval core.
//!
//! The index is a two-state machine.  While accumulating, it maps each
//! document id to the ordered list of (token, raw score) pairs the ingestion
//! path produced.  `finalize` turns the accumulated state, exactly once, into
//! an immutable searchable generation: stop tokens (those whose document
//! frequency is at or above a configurable ratio of the pending corpus) are
//! pruned, every surviving score is quantized, and each document keeps its
//! positive-weight postings — a weight stands for that many repeated
//! occurrences of the token, so term frequency equals the quantized score.
//! `search` answers a boolean-OR query: a document's score is the sum, over
//! the query's tokens, of its term frequency for that token, and the top
//! documents come back ordered by score descending, ties broken by document
//! id ascending.

use vstd::prelude::*;

use crate::error::RetrievalError;
use crate::quantize::quantize;
use crate::quantize::quantize_spec;

verus! {

/// One pending (token, raw score) pair; the score is an IEEE-754 bit
/// pattern.
pub struct PendingEntry {
    pub token: String,
    pub score_bits: u32,
}

impl View for PendingEntry {
    type V = (Seq<char>, u32);

    open spec fn view(&self) -> (Seq<char>, u32) {
        (self.token@, self.score_bits)
    }
}

/// A document accumulating pending pairs.
pub struct PendingDoc {
    pub doc_id: u64,
    pub entries: Vec<PendingEntry>,
}

impl View for PendingDoc {
    type V = (u64, Seq<(Seq<char>, u32)>);

    open spec fn view(&self) -> (u64, Seq<(Seq<char>, u32)>) {
        (self.doc_id, self.entries@.map_values(|e: PendingEntry| e@))
    }
}

/// One finalized posting: a token and its positive quantized weight.
pub struct Posting {
    pub token: String,
    pub weight: u8,
}

impl View for Posting {
    type V = (Seq<char>, u8);

    open spec fn view(&self) -> (Seq<char>, u8) {
        (self.token@, self.weight)
    }
}

/// One finalized document record.
pub struct DocRecord {
    pub doc_id: u64,
    pub postings: Vec<Posting>,
}

impl View for DocRecord {
    type V = (u64, Seq<(Seq<char>, u8)>);

    open spec fn view(&self) -> (u64, Seq<(Seq<char>, u8)>) {
        (self.doc_id, self.postings@.map_values(|p: Posting| p@))
    }
}

/// Whether a pending document's entry list mentions a token.
pub open spec fn doc_has_token(entries: Seq<(Seq<char>, u32)>, t: Seq<char>) -> bool {
    exists|i: int| 0 <= i < entries.len() && (#[trigger] entries[i]).0 == t
}

/// How many pending documents mention a token.
pub open spec fn df_count(pending: Seq<(u64, Seq<(Seq<char>, u32)>)>, t: Seq<char>) -> nat
    decreases pending.len(),
{
    if pending.len() == 0 {
        0
    } else {
        df_count(pending.drop_last(), t) + if doc_has_token(pending.last().1, t) {
            1nat
        } else {
            0nat
        }
    }
}

/// A stop token: its document-frequency ratio over the pending corpus is at
/// or above `percent` hundredths.
pub open spec fn is_stop_token(
    pending: Seq<(u64, Seq<(Seq<char>, u32)>)>,
    percent: u64,
    t: Seq<char>,
) -> bool {
    df_count(pending, t) * 100 >= pending.len() * percent
}

/// The tokens that stop-token pruning removes: none when pruning is off.
pub open spec fn stop_set(
    pending: Seq<(u64, Seq<(Seq<char>, u32)>)>,
    filter: bool,
    percent: u64,
) -> Set<Seq<char>> {
    if filter {
        Set::new(|t: Seq<char>| is_stop_token(pending, percent, t))
    } else {
        Set::empty()
    }
}

/// The postings a pending entry list encodes to: stop tokens are pruned, and
/// an entry is kept only when its quantized weight is positive (a score below
/// the threshold, or one that rounds to the zero pattern, contributes
/// nothing).
pub open spec fn encode_doc(
    entries: Seq<(Seq<char>, u32)>,
    stop: Set<Seq<char>>,
    min_bits: u32,
) -> Seq<(Seq<char>, u8)>
    decreases entries.len(),
{
    if entries.len() == 0 {
        Seq::empty()
    } else {
        let rest = encode_doc(entries.drop_last(), stop, min_bits);
        let e = entries.last();
        if !stop.contains(e.0) && quantize_spec(e.1, min_bits) != 0 {
            rest.push((e.0, quantize_spec(e.1, min_bits)))
        } else {
            rest
        }
    }
}

/// The finalized generation a pending state encodes to, document by document.
pub open spec fn encode_all(
    pending: Seq<(u64, Seq<(Seq<char>, u32)>)>,
    stop: Set<Seq<char>>,
    min_bits: u32,
) -> Seq<(u64, Seq<(Seq<char>, u8)>)> {
    Seq::new(pending.len(), |i: int| (pending[i].0, encode_doc(pending[i].1, stop, min_bits)))
}

/// The index of the first pending document with the given id, or -1.
pub open spec fn find_doc(pending: Seq<(u64, Seq<(Seq<char>, u32)>)>, doc_id: u64) -> int
    decreases pending.len(),
{
    if pending.len() == 0 {
        -1
    } else if pending[0].0 == doc_id {
        0
    } else {
        let r = find_doc(pending.drop_first(), doc_id);
        if r == -1 {
            -1
        } else {
            r + 1
        }
    }
}

/// What accumulating pairs for a document does to the pending state: they
/// extend the document's list if the id is already pending, and open a new
/// pending document otherwise.
pub open spec fn add_pending(
    pending: Seq<(u64, Seq<(Seq<char>, u32)>)>,
    doc_id: u64,
    pairs: Seq<(Seq<char>, u32)>,
) -> Seq<(u64, Seq<(Seq<char>, u32)>)> {
    let j = find_doc(pending, doc_id);
    if j == -1 {
        pending.push((doc_id, pairs))
    } else {
        pending.update(j, (doc_id, pending[j].1 + pairs))
    }
}

/// The term frequency of a token in a finalized record: the sum of the
/// weights stored for it, each weight being that many repeated occurrences.
pub open spec fn tf(postings: Seq<(Seq<char>, u8)>, t: Seq<char>) -> nat
    decreases postings.len(),
{
    if postings.len() == 0 {
        0
    } else {
        tf(postings.drop_last(), t) + if postings.last().0 == t {
            postings.last().1 as nat
        } else {
            0nat
        }
    }
}

/// A document's total score for a query: the sum of its term frequencies
/// over the query's tokens.
pub open spec fn doc_score(postings: Seq<(Seq<char>, u8)>, q: Seq<Seq<char>>) -> nat
    decreases q.len(),
{
    if q.len() == 0 {
        0
    } else {
        doc_score(postings, q.drop_last()) + tf(postings, q.last())
    }
}

/// A mathematical score clamped into a 64-bit result.
pub open spec fn sat64(n: nat) -> u64 {
    if n > u64::MAX {
        u64::MAX
    } else {
        n as u64
    }
}

/// The matching documents of a query, in record order, each with its clamped
/// score; documents that match no query token do not appear.
pub open spec fn candidates(docs: Seq<(u64, Seq<(Seq<char>, u8)>)>, q: Seq<Seq<char>>) -> Seq<
    (u64, u64),
>
    decreases docs.len(),
{
    if docs.len() == 0 {
        Seq::empty()
    } else {
        let rest = candidates(docs.drop_last(), q);
        let d = docs.last();
        if doc_score(d.1, q) > 0 {
            rest.push((d.0, sat64(doc_score(d.1, q))))
        } else {
            rest
        }
    }
}

/// The ranking order: higher score first, ties broken by document id
/// ascending.  A strict total order on (id, score) pairs with distinct ids.
pub open spec fn ranks_before(a: (u64, u64), b: (u64, u64)) -> bool {
    a.1 > b.1 || (a.1 == b.1 && a.0 < b.0)
}

/// The first-ranked candidate of a non-empty sequence.
pub open spec fn max_of(s: Seq<(u64, u64)>) -> (u64, u64)
    decreases s.len(),
{
    if s.len() <= 1 {
        s[0]
    } else {
        let t = max_of(s.drop_first());
        if ranks_before(s[0], t) {
            s[0]
        } else {
            t
        }
    }
}

/// The index of the first occurrence of a value, or -1.
pub open spec fn first_index(s: Seq<(u64, u64)>, x: (u64, u64)) -> int
    decreases s.len(),
{
    if s.len() == 0 {
        -1
    } else if s[0] == x {
        0
    } else {
        let r = first_index(s.drop_first(), x);
        if r == -1 {
            -1
        } else {
            r + 1
        }
    }
}

/// The top `k` candidates in ranking order: repeatedly take the first-ranked
/// candidate out.
pub open spec fn ranked(s: Seq<(u64, u64)>, k: nat) -> Seq<(u64, u64)>
    decreases k,
{
    if k == 0 || s.len() == 0 {
        Seq::empty()
    } else {
        let m = max_of(s);
        seq![m] + ranked(s.remove(first_index(s, m)), (k - 1) as nat)
    }
}

/// What `search` returns: nothing for an empty query, and otherwise the top
/// `k` matching documents in ranking order.
pub open spec fn search_spec(
    docs: Seq<(u64, Seq<(Seq<char>, u8)>)>,
    q: Seq<Seq<char>>,
    k: nat,
) -> Seq<(u64, u64)> {
    if q.len() == 0 {
        Seq::empty()
    } else {
        ranked(candidates(docs, q), k)
    }
}

/// The first-ranked candidate is a candidate, and none ranks before it.
pub proof fn lemma_max_of(s: Seq<(u64, u64)>)
    requires
        s.len() > 0,
    ensures
        s.contains(max_of(s)),
        forall|i: int| 0 <= i < s.len() ==> !ranks_before(#[trigger] s[i], max_of(s)),
    decreases s.len(),
{
    if s.len() == 1 {
        assert(s[0] == max_of(s));
    } else {
        lemma_max_of(s.drop_first());
        let t = max_of(s.drop_first());
        assert(s.drop_first().contains(t));
        let j = choose|j: int| 0 <= j < s.drop_first().len() && s.drop_first()[j] == t;
        assert(s[j + 1] == t);
        assert forall|i: int| 0 <= i < s.len() implies !ranks_before(#[trigger] s[i], max_of(s)) by {
            if i > 0 {
                assert(s.drop_first()[i - 1] == s[i]);
            }
        }
    }
}

/// The first occurrence of a value the sequence contains is a real index,
/// holds the value, and nothing before it does.
pub proof fn lemma_first_index(s: Seq<(u64, u64)>, x: (u64, u64))
    requires
        s.contains(x),
    ensures
        0 <= first_index(s, x) < s.len(),
        s[first_index(s, x)] == x,
        forall|i: int| 0 <= i < first_index(s, x) ==> s[i] != x,
    decreases s.len(),
{
    if s[0] == x {
    } else {
        assert(s.drop_first().contains(x)) by {
            let j = choose|j: int| 0 <= j < s.len() && s[j] == x;
            assert(s.drop_first()[j - 1] == x);
        }
        lemma_first_index(s.drop_first(), x);
        assert forall|i: int| 0 <= i < first_index(s, x) implies s[i] != x by {
            if i > 0 {
                assert(s.drop_first()[i - 1] == s[i]);
            }
        }
    }
}

/// The inverted index: a writable pending generation and, after `finalize`,
/// an immutable searchable generation.
pub struct InvertedIndex {
    min_score_bits: u32,
    max_df_percent: u64,
    pending: Vec<PendingDoc>,
    docs: Vec<DocRecord>,
    finalized: bool,
}

impl InvertedIndex {
    /// The minimum-score threshold, as an IEEE-754 bit pattern.
    pub closed spec fn spec_min_score(&self) -> u32 {
        self.min_score_bits
    }

    /// The stop-token document-frequency threshold, in hundredths.
    pub closed spec fn spec_max_df_percent(&self) -> u64 {
        self.max_df_percent
    }

    /// The pending generation.
    pub closed spec fn spec_pending(&self) -> Seq<(u64, Seq<(Seq<char>, u32)>)> {
        self.pending@.map_values(|d: PendingDoc| d@)
    }

    /// The searchable generation.
    pub closed spec fn spec_docs(&self) -> Seq<(u64, Seq<(Seq<char>, u8)>)> {
        self.docs@.map_values(|d: DocRecord| d@)
    }

    /// Whether the generation is finalized.
    pub closed spec fn spec_finalized(&self) -> bool {
        self.finalized
    }

    /// The index's internal invariant: document ids are distinct in both
    /// generations, the searchable generation appears only at finalize time
    /// (and the pending one is then gone), no stored posting has weight zero,
    /// and no searchable record is empty.
    pub open spec fn wf(&self) -> bool {
        &&& forall|i: int, j: int|
            0 <= i < j < self.spec_pending().len() ==> (#[trigger] self.spec_pending()[i]).0 != (
            #[trigger] self.spec_pending()[j]).0
        &&& forall|i: int, j: int|
            0 <= i < j < self.spec_docs().len() ==> (#[trigger] self.spec_docs()[i]).0 != (
            #[trigger] self.spec_docs()[j]).0
        &&& (self.spec_finalized() ==> self.spec_pending().len() == 0)
        &&& (!self.spec_finalized() ==> self.spec_docs().len() == 0)
        &&& forall|i: int, j: int|
            0 <= i < self.spec_docs().len() && 0 <= j < (#[trigger] self.spec_docs()[i]).1.len()
                ==> (#[trigger] self.spec_docs()[i].1[j]).1 > 0
        &&& forall|i: int| 0 <= i < self.spec_docs().len() ==> (#[trigger] self.spec_docs()[i]).1.len() > 0
    }

    /// Open a fresh, empty, writable index generation.
    pub fn open(min_score_bits: u32, max_df_percent: u64) -> (r: InvertedIndex)
        ensures
            r.spec_min_score() == min_score_bits,
            r.spec_max_df_percent() == max_df_percent,
            r.spec_pending().len() == 0,
            r.spec_docs().len() == 0,
            !r.spec_finalized(),
            r.wf(),
    {
        InvertedIndex {
            min_score_bits,
            max_df_percent,
            pending: Vec::new(),
            docs: Vec::new(),
            finalized: false,
        }
    }

    /// How many documents the searchable generation holds.
    pub fn get_num_docs(&self) -> (r: u64)
        ensures
            r as nat == self.spec_docs().len(),
    {
        self.docs.len() as u64
    }

    /// The searchable generation's records, for a host that persists them.
    pub fn records(&self) -> (r: &Vec<DocRecord>)
        ensures
            r@.map_values(|d: DocRecord| d@) == self.spec_docs(),
    {
        &self.docs
    }

    /// Accumulate one document's (token, raw score) pairs into the pending
    /// generation.  Valid only while the generation is not finalized.
    pub fn index(&mut self, doc_id: u64, tokens: Vec<String>, scores: Vec<u32>) -> (r: Result<
        (),
        RetrievalError,
    >)
        requires
            tokens@.len() == scores@.len(),
        ensures
            final(self).spec_min_score() == old(self).spec_min_score(),
            final(self).spec_max_df_percent() == old(self).spec_max_df_percent(),
            final(self).spec_docs() == old(self).spec_docs(),
            final(self).spec_finalized() == old(self).spec_finalized(),
            match r {
                Result::Ok(u) => !old(self).spec_finalized() && final(self).spec_pending()
                    == add_pending(
                    old(self).spec_pending(),
                    doc_id,
                    zip_pairs(tokens@.map_values(|t: String| t@), scores@),
                ),
                Result::Err(e) => {
                    &&& e == RetrievalError::AlreadyFinalized
                    &&& old(self).spec_finalized()
                    &&& final(self).spec_pending() == old(self).spec_pending()
                },
            },
            old(self).wf() ==> final(self).wf(),
    {
        if self.finalized {
            return Result::Err(RetrievalError::AlreadyFinalized);
        }
        let ghost pending0 = self.spec_pending();
        let ghost pairs = zip_pairs(tokens@.map_values(|t: String| t@), scores@);
        proof {
            lemma_find_doc(pending0, doc_id);
        }
        // build the new pairs once
        let m: usize = tokens.len();
        let mut fresh: Vec<PendingEntry> = Vec::new();
        let mut k: usize = 0;
        while k < m
            invariant
                0 <= k <= m,
                m == tokens@.len(),
                m == scores@.len(),
                fresh@.len() == k,
                forall|a: int|
                    0 <= a < k ==> (#[trigger] fresh@[a])@ == (tokens@[a]@, scores@[a]),
            decreases m - k,
        {
            let token: String = tokens[k].clone();
            let entry = PendingEntry { token, score_bits: scores[k] };
            fresh.push(entry);
            k = k + 1;
        }
        proof {
            assert(fresh@.map_values(|e: PendingEntry| e@) =~= pairs);
        }
        let ghost pairs_vec0 = fresh@;
        // find the pending document with this id, if any
        let n: usize = self.pending.len();
        let mut j: usize = 0;
        while j < n
            invariant
                0 <= j <= n,
                *self == *old(self),
                !self.spec_finalized(),
                n == self.spec_pending().len(),
                self.spec_pending() == pending0,
                fresh@ == pairs_vec0,
                pairs_vec0.map_values(|e: PendingEntry| e@) == pairs,
                pairs == zip_pairs(tokens@.map_values(|t: String| t@), scores@),
                forall|a: int| 0 <= a < j ==> (#[trigger] pending0[a]).0 != doc_id,
            decreases n - j,
        {
            if self.pending[j].doc_id == doc_id {
                proof {
                    lemma_find_doc(pending0, doc_id);
                    assert(pending0[j as int].0 == doc_id);
                    assert(find_doc(pending0, doc_id) == j as int);
                }
                let mut docent: PendingDoc = self.pending.remove(j);
                proof {
                    assert(docent@ == pending0[j as int]);
                }
                let ghost before = docent.entries@;
                let mut f = fresh;
                docent.entries.append(&mut f);
                proof {
                    assert(docent.entries@ == before + pairs_vec0);
                    assert forall|a: int| 0 <= a < docent@.1.len() implies #[trigger] docent@.1[a]
                        == (pending0[j as int].1 + pairs)[a] by {
                        if a < before.len() {
                            assert(docent.entries@[a] == before[a]);
                        } else {
                            assert(docent.entries@[a] == pairs_vec0[a - before.len()]);
                        }
                    }
                    assert(docent@.1 =~= pending0[j as int].1 + pairs);
                }
                self.pending.insert(j, docent);
                proof {
                    let after = self.spec_pending();
                    let target = add_pending(pending0, doc_id, pairs);
                    assert forall|a: int| 0 <= a < after.len() implies #[trigger] after[a]
                        == target[a] by {
                        if a < j as int {
                        } else if a == j as int {
                        } else {
                        }
                    }
                    assert(after =~= target);
                    if old(self).wf() {
                        assert(final(self).wf());
                    }
                }
                return Result::Ok(());
            }
            j = j + 1;
        }
        proof {
            lemma_find_doc(pending0, doc_id);
            assert(find_doc(pending0, doc_id) == -1);
        }
        let docent = PendingDoc { doc_id, entries: fresh };
        self.pending.push(docent);
        proof {
            assert(self.spec_pending() =~= add_pending(pending0, doc_id, pairs));
            if old(self).wf() {
                assert(final(self).wf());
            }
        }
        Result::Ok(())
    }

    /// Turn the pending generation, exactly once, into the searchable one:
    /// prune stop tokens (when asked to), quantize every surviving score,
    /// and commit each document's positive-weight postings.  A document left
    /// without a single posting is a fatal configuration fault, and the whole
    /// call then changes nothing: finalize is all-or-nothing.
    pub fn finalize(&mut self, filter_stop_words: bool) -> (r: Result<(), RetrievalError>)
        ensures
            final(self).spec_min_score() == old(self).spec_min_score(),
            final(self).spec_max_df_percent() == old(self).spec_max_df_percent(),
            match r {
                Result::Ok(u) => {
                    &&& !old(self).spec_finalized()
                    &&& forall|i: int|
                        0 <= i < old(self).spec_pending().len() ==> encode_doc(
                            (#[trigger] old(self).spec_pending()[i]).1,
                            stop_set(
                                old(self).spec_pending(),
                                filter_stop_words,
                                old(self).spec_max_df_percent(),
                            ),
                            old(self).spec_min_score(),
                        ).len() > 0
                    &&& final(self).spec_finalized()
                    &&& final(self).spec_pending().len() == 0
                    &&& final(self).spec_docs() == encode_all(
                        old(self).spec_pending(),
                        stop_set(
                            old(self).spec_pending(),
                            filter_stop_words,
                            old(self).spec_max_df_percent(),
                        ),
                        old(self).spec_min_score(),
                    )
                },
                Result::Err(e) => {
                    &&& *final(self) == *old(self)
                    &&& (e == RetrievalError::AlreadyFinalized || e
                        == RetrievalError::EmptyDocument)
                    &&& (e == RetrievalError::AlreadyFinalized <==> old(self).spec_finalized())
                    &&& (e == RetrievalError::EmptyDocument ==> exists|i: int|
                        0 <= i < old(self).spec_pending().len() && encode_doc(
                            (#[trigger] old(self).spec_pending()[i]).1,
                            stop_set(
                                old(self).spec_pending(),
                                filter_stop_words,
                                old(self).spec_max_df_percent(),
                            ),
                            old(self).spec_min_score(),
                        ).len() == 0)
                },
            },
            old(self).wf() ==> final(self).wf(),
    {
        if self.finalized {
            return Result::Err(RetrievalError::AlreadyFinalized);
        }
        let ghost pview = self.spec_pending();
        let ghost stop = stop_set(pview, filter_stop_words, self.spec_max_df_percent());
        let ghost minb = self.spec_min_score();
        let n: usize = self.pending.len();
        let mut new_docs: Vec<DocRecord> = Vec::new();
        let mut i: usize = 0;
        while i < n
            invariant
                0 <= i <= n,
                *self == *old(self),
                !self.spec_finalized(),
                n == self.spec_pending().len(),
                pview == self.spec_pending(),
                stop == stop_set(pview, filter_stop_words, self.spec_max_df_percent()),
                minb == self.spec_min_score(),
                new_docs@.len() == i,
                forall|a: int|
                    0 <= a < i ==> (#[trigger] new_docs@[a])@ == (
                        pview[a].0,
                        encode_doc(pview[a].1, stop, minb),
                    ),
                forall|a: int| 0 <= a < i ==> encode_doc((#[trigger] pview[a]).1, stop, minb).len() > 0,
            decreases n - i,
        {
            let entries = &self.pending[i].entries;
            let ghost eview = pview[i as int].1;
            let m: usize = entries.len();
            let mut postings: Vec<Posting> = Vec::new();
            let mut j: usize = 0;
            while j < m
                invariant
                    0 <= j <= m,
                    *self == *old(self),
                    !self.spec_finalized(),
                    0 <= i < self.spec_pending().len(),
                    pview == self.spec_pending(),
                    stop == stop_set(pview, filter_stop_words, self.spec_max_df_percent()),
                    minb == self.spec_min_score(),
                    entries == &self.pending@[i as int].entries,
                    eview == pview[i as int].1,
                    m == entries@.len(),
                    entries@.map_values(|e: PendingEntry| e@) == eview,
                    postings@.map_values(|p: Posting| p@) == encode_doc(
                        eview.take(j as int),
                        stop,
                        minb,
                    ),
                decreases m - j,
            {
                proof {
                    assert(eview.take(j + 1).drop_last() =~= eview.take(j as int));
                    assert(eview.take(j + 1).last() == eview[j as int]);
                }
                let stopped: bool = if filter_stop_words {
                    is_stop(&self.pending, self.max_df_percent, &entries[j].token)
                } else {
                    false
                };
                proof {
                    assert(stopped == stop.contains(eview[j as int].0));
                }
                let w: u8 = quantize(entries[j].score_bits, self.min_score_bits);
                if !stopped && w != 0 {
                    let ghost before = postings@;
                    let token: String = entries[j].token.clone();
                    postings.push(Posting { token, weight: w });
                    proof {
                        assert(postings@.map_values(|p: Posting| p@) =~= before.map_values(
                            |p: Posting| p@,
                        ).push((eview[j as int].0, w)));
                    }
                } else {
                }
                j = j + 1;
            }
            proof {
                assert(eview.take(m as int) =~= eview);
            }
            if postings.is_empty() {
                proof {
                    assert(encode_doc(pview[i as int].1, stop, minb).len() == 0);
                }
                return Result::Err(RetrievalError::EmptyDocument);
            }
            let doc_id: u64 = self.pending[i].doc_id;
            let record = DocRecord { doc_id, postings };
            new_docs.push(record);
            i = i + 1;
        }
        self.docs = new_docs;
        self.pending = Vec::new();
        self.finalized = true;
        proof {
            assert(self.spec_docs() =~= encode_all(pview, stop, minb));
            if old(self).wf() {
                assert forall|a: int, b: int|
                    0 <= a < self.spec_docs().len() && 0 <= b < (
                    #[trigger] self.spec_docs()[a]).1.len() implies (
                #[trigger] self.spec_docs()[a].1[b]).1 > 0 by {
                    lemma_encode_doc_pos(pview[a].1, stop, minb, b);
                }
                assert(final(self).wf());
            }
        }
        Result::Ok(())
    }

    /// Answer a boolean-OR query over the given tokens: the top `top_k`
    /// matching documents, scored by the sum of their term frequencies over
    /// the query's tokens, ordered by score descending with ties broken by
    /// document id ascending.  An empty query returns an empty result without
    /// touching the searchable generation; a non-empty query demands a
    /// finalized one.
    pub fn search(&self, tokens: &Vec<String>, top_k: usize) -> (r: Result<
        Vec<(u64, u64)>,
        RetrievalError,
    >)
        ensures
            match r {
                Result::Ok(v) => {
                    &&& (tokens@.len() > 0 ==> self.spec_finalized())
                    &&& v@ == search_spec(
                        self.spec_docs(),
                        tokens@.map_values(|t: String| t@),
                        top_k as nat,
                    )
                },
                Result::Err(e) => {
                    &&& e == RetrievalError::NotFinalized
                    &&& !self.spec_finalized()
                    &&& tokens@.len() > 0
                },
            },
    {
        let ghost qv = tokens@.map_values(|t: String| t@);
        if tokens.is_empty() {
            let empty: Vec<(u64, u64)> = Vec::new();
            return Result::Ok(empty);
        }
        if !self.finalized {
            return Result::Err(RetrievalError::NotFinalized);
        }
        let ghost dv = self.spec_docs();
        // gather the matching documents with their scores
        let n: usize = self.docs.len();
        let mut cands: Vec<(u64, u64)> = Vec::new();
        let mut i: usize = 0;
        while i < n
            invariant
                0 <= i <= n,
                n == dv.len(),
                dv == self.spec_docs(),
                qv == tokens@.map_values(|t: String| t@),
                cands@ == candidates(dv.take(i as int), qv),
            decreases n - i,
        {
            proof {
                assert(dv.take(i + 1).drop_last() =~= dv.take(i as int));
                assert(dv.take(i + 1).last() == dv[i as int]);
                assert(dv[i as int] == self.docs@[i as int]@);
            }
            let s: u64 = score_of(&self.docs[i], tokens);
            if s > 0 {
                let id: u64 = self.docs[i].doc_id;
                cands.push((id, s));
            }
            i = i + 1;
        }
        proof {
            assert(dv.take(n as int) =~= dv);
        }
        // select the top_k candidates in ranking order
        let ghost cands0 = cands@;
        let mut out: Vec<(u64, u64)> = Vec::new();
        while out.len() < top_k && cands.len() > 0
            invariant
                out@.len() <= top_k,
                out@ + ranked(cands@, (top_k - out@.len()) as nat) == ranked(
                    cands0,
                    top_k as nat,
                ),
            decreases cands@.len(),
        {
            let ghost rem = (top_k - out@.len()) as nat;
            let c: usize = cands.len();
            let mut best: usize = 0;
            let mut j: usize = 1;
            while j < c
                invariant
                    0 <= best < j <= c,
                    c == cands@.len(),
                    forall|e: int| 0 <= e < j ==> !ranks_before(#[trigger] cands@[e], cands@[best as int]),
                    forall|e: int| 0 <= e < best ==> (#[trigger] cands@[e]) != cands@[best as int],
                decreases c - j,
            {
                if ranks_before_exec(cands[j], cands[best]) {
                    best = j;
                }
                j = j + 1;
            }
            proof {
                lemma_max_of(cands@);
                let m = max_of(cands@);
                let jm = choose|jm: int| 0 <= jm < cands@.len() && cands@[jm] == m;
                assert(!ranks_before(cands@[jm], cands@[best as int]));
                assert(!ranks_before(cands@[best as int], m));
                assert(cands@[best as int] == m);
                lemma_first_index(cands@, m);
                assert(first_index(cands@, m) == best as int);
                assert(ranked(cands@, rem) == seq![m] + ranked(
                    cands@.remove(best as int),
                    (rem - 1) as nat,
                ));
            }
            let ghost out_before = out@;
            let ghost cands_before = cands@;
            let picked: (u64, u64) = cands[best];
            out.push(picked);
            cands.remove(best);
            proof {
                assert(out@ =~= out_before.push(picked));
                assert(out@ + ranked(cands@, (top_k - out@.len()) as nat) =~= out_before + (seq![
                    picked,
                ] + ranked(cands@, (top_k - out@.len()) as nat)));
            }
        }
        proof {
            if out@.len() == top_k {
                assert(ranked(cands@, (top_k - out@.len()) as nat) =~= Seq::<(u64, u64)>::empty());
            } else {
                assert(cands@.len() == 0);
                assert(ranked(cands@, (top_k - out@.len()) as nat) =~= Seq::<(u64, u64)>::empty());
            }
            assert(out@ =~= out@ + Seq::<(u64, u64)>::empty());
            assert(out@ == ranked(cands0, top_k as nat));
        }
        Result::Ok(out)
    }
}

/// The clamped term frequency of one token in one record.
fn tf_of(postings: &Vec<Posting>, t: &String) -> (r: u64)
    ensures
        r == sat64(tf(postings@.map_values(|p: Posting| p@), t@)),
{
    let ghost pv = postings@.map_values(|p: Posting| p@);
    let n: usize = postings.len();
    let mut acc: u64 = 0;
    let mut i: usize = 0;
    while i < n
        invariant
            0 <= i <= n,
            n == pv.len(),
            pv == postings@.map_values(|p: Posting| p@),
            acc == sat64(tf(pv.take(i as int), t@)),
        decreases n - i,
    {
        proof {
            assert(pv.take(i + 1).drop_last() =~= pv.take(i as int));
            assert(pv.take(i + 1).last() == pv[i as int]);
            assert(pv[i as int] == postings@[i as int]@);
        }
        if postings[i].token.eq(t) {
            acc = acc.saturating_add(postings[i].weight as u64);
        }
        i = i + 1;
    }
    proof {
        assert(pv.take(n as int) =~= pv);
    }
    acc
}

/// The clamped total score of one record for a query.
fn score_of(rec: &DocRecord, q: &Vec<String>) -> (r: u64)
    ensures
        r == sat64(doc_score(rec@.1, q@.map_values(|t: String| t@))),
{
    let ghost pv = rec@.1;
    let ghost qv = q@.map_values(|t: String| t@);
    let n: usize = q.len();
    let mut acc: u64 = 0;
    let mut i: usize = 0;
    while i < n
        invariant
            0 <= i <= n,
            n == qv.len(),
            pv == rec@.1,
            qv == q@.map_values(|t: String| t@),
            acc == sat64(doc_score(pv, qv.take(i as int))),
        decreases n - i,
    {
        proof {
            assert(qv.take(i + 1).drop_last() =~= qv.take(i as int));
            assert(qv.take(i + 1).last() == qv[i as int]);
            assert(qv[i as int] == q@[i as int]@);
        }
        let t: u64 = tf_of(&rec.postings, &q[i]);
        acc = acc.saturating_add(t);
        i = i + 1;
    }
    proof {
        assert(qv.take(n as int) =~= qv);
    }
    acc
}

/// The ranking order, executably.
fn ranks_before_exec(a: (u64, u64), b: (u64, u64)) -> (r: bool)
    ensures
        r == ranks_before(a, b),
{
    a.1 > b.1 || (a.1 == b.1 && a.0 < b.0)
}

/// Every encoded posting carries a positive weight.
proof fn lemma_encode_doc_pos(
    entries: Seq<(Seq<char>, u32)>,
    stop: Set<Seq<char>>,
    min_bits: u32,
    j: int,
)
    requires
        0 <= j < encode_doc(entries, stop, min_bits).len(),
    ensures
        encode_doc(entries, stop, min_bits)[j].1 > 0,
    decreases entries.len(),
{
    if entries.len() > 0 {
        let rest = encode_doc(entries.drop_last(), stop, min_bits);
        if j < rest.len() {
            lemma_encode_doc_pos(entries.drop_last(), stop, min_bits, j);
        }
    }
}

/// The (token, score) pairs of two parallel sequences, in order.
pub open spec fn zip_pairs(tokens: Seq<Seq<char>>, scores: Seq<u32>) -> Seq<(Seq<char>, u32)> {
    Seq::new(tokens.len(), |i: int| (tokens[i], scores[i]))
}

/// The document frequency of a token over the pending generation.
fn df_of(pending: &Vec<PendingDoc>, t: &String) -> (r: usize)
    ensures
        r == df_count(pending@.map_values(|d: PendingDoc| d@), t@),
{
    let ghost pview = pending@.map_values(|d: PendingDoc| d@);
    let n: usize = pending.len();
    let mut count: usize = 0;
    let mut i: usize = 0;
    while i < n
        invariant
            0 <= i <= n,
            n == pview.len(),
            pview == pending@.map_values(|d: PendingDoc| d@),
            count <= i,
            count == df_count(pview.take(i as int), t@),
        decreases n - i,
    {
        proof {
            assert(pview.take(i + 1).drop_last() =~= pview.take(i as int));
            assert(pview.take(i + 1).last() == pview[i as int]);
        }
        let entries = &pending[i].entries;
        let m: usize = entries.len();
        let mut j: usize = 0;
        let mut found: bool = false;
        while j < m
            invariant
                0 <= j <= m,
                m == entries@.len(),
                entries@.map_values(|e: PendingEntry| e@) == pview[i as int].1,
                0 <= i < pview.len(),
                found <==> exists|a: int| 0 <= a < j && (#[trigger] pview[i as int].1[a]).0 == t@,
            decreases m - j,
        {
            proof {
                assert(pview[i as int].1[j as int] == entries@[j as int]@);
            }
            if entries[j].token.eq(t) {
                found = true;
            }
            j = j + 1;
        }
        if found {
            proof {
                assert(doc_has_token(pview[i as int].1, t@));
            }
            count = count + 1;
        } else {
            proof {
                assert(!doc_has_token(pview[i as int].1, t@));
            }
        }
        i = i + 1;
    }
    proof {
        assert(pview.take(n as int) =~= pview);
    }
    count
}

/// Whether a token is a stop token of the pending generation.
fn is_stop(pending: &Vec<PendingDoc>, percent: u64, t: &String) -> (r: bool)
    ensures
        r == is_stop_token(pending@.map_values(|d: PendingDoc| d@), percent, t@),
{
    let df: usize = df_of(pending, t);
    let total: usize = pending.len();
    proof {
        assert(pending@.map_values(|d: PendingDoc| d@).len() == pending@.len());
    }
    proof {
        assert((total as nat) * (percent as nat) < 0x1_0000_0000_0000_0000_0000_0000_0000_0000)
            by (nonlinear_arith)
            requires
                total <= 0xFFFF_FFFF_FFFF_FFFF,
                percent <= 0xFFFF_FFFF_FFFF_FFFF,
        ;
    }
    (df as u128) * 100 >= (total as u128) * (percent as u128)
}

/// The first pending document with a given id: `find_doc` returns either -1
/// and no document has the id, or the first index that does.
pub proof fn lemma_find_doc(pending: Seq<(u64, Seq<(Seq<char>, u32)>)>, doc_id: u64)
    ensures
        find_doc(pending, doc_id) == -1 ==> forall|i: int|
            0 <= i < pending.len() ==> (#[trigger] pending[i]).0 != doc_id,
        find_doc(pending, doc_id) != -1 ==> {
            &&& 0 <= find_doc(pending, doc_id) < pending.len()
            &&& pending[find_doc(pending, doc_id)].0 == doc_id
            &&& forall|i: int|
                0 <= i < find_doc(pending, doc_id) ==> (#[trigger] pending[i]).0 != doc_id
        },
    decreases pending.len(),
{
    if pending.len() == 0 {
    } else if pending[0].0 == doc_id {
    } else {
        lemma_find_doc(pending.drop_first(), doc_id);
        assert(forall|i: int|
            1 <= i < pending.len() ==> #[trigger] pending[i] == pending.drop_first()[i - 1]);
    }
}

} // verus!

