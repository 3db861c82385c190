//! Deduplication of the labels returned by a nearest-neighbor search.
//!
//! A search may return the same vocabulary entry several times (and sentinel
//! padding); near-duplicate entries must not inflate a document's effective
//! token count or be double-quantized, so the labels are projected onto their
//! set of distinct ids, sorted ascending for reproducibility.

use vstd::prelude::*;

use crate::ann::Idx;

verus! {

/// The set of ids carried by the non-sentinel labels of a sequence.
pub open spec fn some_vals(s: Seq<Idx>) -> Set<u64>
    decreases s.len(),
{
    if s.len() == 0 {
        Set::empty()
    } else {
        let rest = some_vals(s.drop_last());
        if s.last().spec_is_some() {
            rest.insert(s.last().spec_val())
        } else {
            rest
        }
    }
}

/// A label sequence is an ascending deduplication: every label denotes a
/// result and the ids strictly increase.
pub open spec fn strictly_ascending(s: Seq<Idx>) -> bool {
    &&& forall|i: int| 0 <= i < s.len() ==> (#[trigger] s[i]).spec_is_some()
    &&& forall|i: int, j: int| 0 <= i < j < s.len() ==> s[i].spec_val() < s[j].spec_val()
}

/// Every id of a non-sentinel label is in the set of the sequence's ids.
proof fn lemma_some_vals_has(s: Seq<Idx>, i: int)
    requires
        0 <= i < s.len(),
        s[i].spec_is_some(),
    ensures
        some_vals(s).contains(s[i].spec_val()),
    decreases s.len(),
{
    if i == s.len() - 1 {
    } else {
        lemma_some_vals_has(s.drop_last(), i);
    }
}

/// Every id in the set of a sequence's ids is carried by some label.
proof fn lemma_some_vals_only(s: Seq<Idx>, v: u64)
    requires
        some_vals(s).contains(v),
    ensures
        exists|i: int| 0 <= i < s.len() && s[i].spec_is_some() && s[i].spec_val() == v,
    decreases s.len(),
{
    if s.len() > 0 {
        if s.last().spec_is_some() && s.last().spec_val() == v {
            assert(s[s.len() - 1].spec_is_some() && s[s.len() - 1].spec_val() == v);
        } else {
            lemma_some_vals_only(s.drop_last(), v);
            let i = choose|i: int|
                0 <= i < s.drop_last().len() && s.drop_last()[i].spec_is_some()
                    && s.drop_last()[i].spec_val() == v;
            assert(s[i].spec_is_some() && s[i].spec_val() == v);
        }
    }
}

/// Inserting a non-sentinel label anywhere in a sequence inserts its id into
/// the sequence's id set.
proof fn lemma_some_vals_insert(s: Seq<Idx>, p: int, x: Idx)
    requires
        0 <= p <= s.len(),
        x.spec_is_some(),
    ensures
        some_vals(s.insert(p, x)) == some_vals(s).insert(x.spec_val()),
    decreases s.len(),
{
    let t = s.insert(p, x);
    if p == s.len() {
        assert(t.drop_last() =~= s);
        assert(t.last() == x);
        assert(some_vals(t) == some_vals(s).insert(x.spec_val()));
    } else {
        assert(t.last() == s.last());
        assert(t.drop_last() =~= s.drop_last().insert(p, x));
        lemma_some_vals_insert(s.drop_last(), p, x);
        if s.last().spec_is_some() {
            assert(some_vals(t) == some_vals(s.drop_last()).insert(x.spec_val()).insert(
                s.last().spec_val(),
            ));
            assert(some_vals(s.drop_last()).insert(x.spec_val()).insert(s.last().spec_val())
                =~= some_vals(s.drop_last()).insert(s.last().spec_val()).insert(x.spec_val()));
        }
    }
}

/// Project a label sequence onto its distinct ids, sorted ascending, keeping
/// one label per id and discarding sentinels.
pub fn unique_labels(labels: &[Idx]) -> (r: Vec<Idx>)
    ensures
        strictly_ascending(r@),
        some_vals(r@) == some_vals(labels@),
        r@.len() <= labels@.len(),
{
    let n: usize = labels.len();
    let mut r: Vec<Idx> = Vec::new();
    let mut i: usize = 0;
    while i < n
        invariant
            0 <= i <= n,
            n == labels@.len(),
            strictly_ascending(r@),
            some_vals(r@) == some_vals(labels@.take(i as int)),
            r@.len() <= i,
        decreases n - i,
    {
        let l: Idx = labels[i];
        proof {
            assert(labels@.take(i + 1).drop_last() =~= labels@.take(i as int));
            assert(labels@.take(i + 1).last() == labels@[i as int]);
        }
        match l.get() {
            Option::None => {},
            Option::Some(v) => {
                // find the insertion point among the already sorted ids
                let mut p: usize = 0;
                let mut dup: bool = false;
                loop
                    invariant_except_break
                        !dup,
                    invariant
                        0 <= p <= r@.len(),
                        strictly_ascending(r@),
                        l.spec_is_some() && l.spec_val() == v,
                        forall|q: int| 0 <= q < p ==> r@[q].spec_val() < v,
                    ensures
                        0 <= p <= r@.len(),
                        forall|q: int| 0 <= q < p ==> r@[q].spec_val() < v,
                        dup ==> p < r@.len() && r@[p as int].spec_val() == v,
                        !dup ==> (p == r@.len() || r@[p as int].spec_val() > v),
                    decreases r@.len() - p,
                {
                    if p == r.len() {
                        break ;
                    }
                    let rv: Option<u64> = r[p].get();
                    match rv {
                        Option::Some(w) => {
                            if w == v {
                                dup = true;
                                break ;
                            }
                            if w > v {
                                break ;
                            }
                        },
                        Option::None => {
                            // unreachable: every stored label denotes a result
                            proof {
                                assert(r@[p as int].spec_is_some());
                            }
                        },
                    }
                    p = p + 1;
                }
                if dup {
                    proof {
                        lemma_some_vals_has(r@, p as int);
                        assert(some_vals(r@).insert(v) =~= some_vals(r@));
                    }
                } else {
                    proof {
                        lemma_some_vals_insert(r@, p as int, l);
                    }
                    r.insert(p, l);
                }
            },
        }
        i = i + 1;
    }
    proof {
        assert(labels@.take(n as int) =~= labels@);
    }
    r
}

} // verus!
