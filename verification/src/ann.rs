//! The approximate-nearest-neighbor vector index abstraction.
//!
//! The engine consumes an ANN index only through the [`Index`] trait: search
//! for the nearest vocabulary entries to a query vector, reconstruct a stored
//! vector by id, and report the dimension and size of the index.  Vectors
//! cross the trait as sequences of 32-bit IEEE-754 bit patterns, so the trait
//! itself carries no floating-point arithmetic.
//!
//! Two implementations are intended: a production one wrapping a native ANN
//! library (outside this crate), and [`FixtureIndex`], a deterministic
//! in-memory fixture with scripted search answers, used by tests.

use vstd::prelude::*;

use crate::error::RetrievalError;

verus! {

/// A numeric id of the vector index: a non-negative id stored in a signed
/// 64-bit integer, with -1 as the sentinel for "no result".
#[derive(Debug, Clone, Copy, PartialEq, Eq, Structural)]
pub struct Idx(i64);

impl Idx {
    /// The raw signed value.
    pub closed spec fn raw(self) -> i64 {
        self.0
    }

    /// Whether this id denotes a result (is not the sentinel).
    pub closed spec fn spec_is_some(self) -> bool {
        self.0 != -1
    }

    /// The id as an unsigned value (meaningful when `spec_is_some`).
    pub closed spec fn spec_val(self) -> u64 {
        self.0 as u64
    }

    /// A valid id.  Ids at or above 2^63 do not fit the signed carrier.
    pub fn new(idx: u64) -> (r: Self)
        requires
            idx < 0x8000_0000_0000_0000,
        ensures
            r.spec_is_some(),
            r.spec_val() == idx,
    {
        Idx(idx as i64)
    }

    /// The sentinel id.
    pub fn none() -> (r: Self)
        ensures
            !r.spec_is_some(),
    {
        Idx(-1)
    }

    /// Whether this is the sentinel id.
    pub fn is_none(self) -> (r: bool)
        ensures
            r == !self.spec_is_some(),
    {
        self.0 == -1
    }

    /// Whether this id denotes a result.
    pub fn is_some(self) -> (r: bool)
        ensures
            r == self.spec_is_some(),
    {
        self.0 != -1
    }

    /// The id as an unsigned value, or `None` for the sentinel.
    pub fn get(self) -> (r: Option<u64>)
        ensures
            match r {
                Option::Some(v) => self.spec_is_some() && v == self.spec_val(),
                Option::None => !self.spec_is_some(),
            },
    {
        match self.0 {
            -1 => Option::None,
            x => Option::Some(x as u64),
        }
    }

    /// The raw signed value, as the native library represents ids.
    pub fn to_native(self) -> (r: i64)
        ensures
            r == self.raw(),
    {
        self.0
    }
}

/// What a nearest-neighbor search returns: one distance (an IEEE-754 bit
/// pattern) and one label per requested neighbor.  The engine reads only the
/// labels.
pub struct SearchResult {
    pub distances: Vec<u32>,
    pub labels: Vec<Idx>,
}

/// An ANN vector index.
///
/// `vectors()` is the mathematical content of the index: the stored vectors
/// by id, each a sequence of 32-bit bit patterns of length `dim()`.  Search
/// may approximate, so nothing is promised about which labels come back, only
/// how many; reconstruction is exact by id.
pub trait Index: Sized {
    /// The vector dimension of the index.  The default stands for an index
    /// whose mathematical content is unknown, as with a native
    /// implementation outside the verifier's reach.
    open spec fn dim(&self) -> nat {
        0
    }

    /// The stored vectors, by numeric id.
    open spec fn vectors(&self) -> Seq<Seq<u32>> {
        Seq::empty()
    }

    /// Whether reconstruction is owed to succeed for an id.  The default
    /// promises nothing, as fits an index whose failure modes are outside
    /// the verifier's reach; the in-memory fixture promises success for
    /// every stored id.
    open spec fn reconstructs(&self, id: u64) -> bool {
        false
    }

    /// The dimension, as the index reports it.
    fn d(&self) -> (r: u32)
        ensures
            r as nat == self.dim(),
    ;

    /// How many vectors the index stores.
    fn ntotal(&self) -> (r: u64)
        ensures
            r as nat == self.vectors().len(),
    ;

    /// Nearest-neighbor search: for each of the `q.len() / dim` query
    /// vectors in the flattened batch `q`, the `k` nearest labels, padded
    /// with the sentinel where fewer exist.
    fn search(&mut self, q: &[u32], k: usize) -> (r: Result<SearchResult, RetrievalError>)
        requires
            old(self).dim() > 0,
            q@.len() % old(self).dim() == 0,
            q@.len() * k <= usize::MAX,
        ensures
            final(self).dim() == old(self).dim(),
            final(self).vectors() == old(self).vectors(),
            match r {
                Result::Ok(sr) => sr.labels@.len() == (q@.len() / old(self).dim()) * k,
                Result::Err(e) => e == RetrievalError::AnnFailure,
            },
    ;

    /// Reconstruct the stored vector with the given id.
    fn reconstruct(&self, key: Idx) -> (r: Result<Vec<u32>, RetrievalError>)
        ensures
            key.spec_is_some() && self.reconstructs(key.spec_val()) ==> r is Ok,
            match r {
                Result::Ok(v) => {
                    &&& key.spec_is_some()
                    &&& key.spec_val() < self.vectors().len()
                    &&& v@ == self.vectors()[key.spec_val() as int]
                    &&& v@.len() == self.dim()
                },
                Result::Err(e) => e == RetrievalError::AnnFailure,
            },
    ;
}

/// Element-wise comparison of two vectors of bit patterns.
fn bits_eq(a: &[u32], b: &Vec<u32>) -> (r: bool)
    ensures
        r == (a@ == b@),
{
    if a.len() != b.len() {
        proof {
            assert(a@.len() != b@.len());
        }
        return false;
    }
    let n: usize = a.len();
    let mut i: usize = 0;
    while i < n
        invariant
            0 <= i <= n,
            n == a@.len(),
            n == b@.len(),
            forall|j: int| 0 <= j < i ==> a@[j] == b@[j],
        decreases n - i,
    {
        if a[i] != b[i] {
            return false;
        }
        i = i + 1;
    }
    proof {
        assert(a@ =~= b@);
    }
    true
}

/// A deterministic in-memory vector index for tests: it stores its vectors
/// explicitly and answers searches from a scripted table mapping each known
/// flattened query batch to the labels it returns.
pub struct FixtureIndex {
    dim: u32,
    vectors: Vec<Vec<u32>>,
    answers: Vec<(Vec<u32>, Vec<Idx>)>,
}

impl FixtureIndex {
    /// The scripted answers, by query batch.
    pub closed spec fn spec_answers(&self) -> Seq<(Seq<u32>, Seq<Idx>)> {
        self.answers@.map_values(|a: (Vec<u32>, Vec<Idx>)| (a.0@, a.1@))
    }

    /// Build a fixture.  Every stored vector must have length `dim`.
    pub fn new(dim: u32, vectors: Vec<Vec<u32>>, answers: Vec<(Vec<u32>, Vec<Idx>)>) -> (r:
        Result<FixtureIndex, RetrievalError>)
        ensures
            match r {
                Result::Ok(f) => {
                    &&& f.dim() == dim as nat
                    &&& f.vectors() == vectors@.map_values(|v: Vec<u32>| v@)
                    &&& f.spec_answers() == answers@.map_values(
                        |a: (Vec<u32>, Vec<Idx>)| (a.0@, a.1@),
                    )
                    &&& forall|id: u64| #[trigger] f.reconstructs(id) <==> id < vectors@.len()
                    &&& forall|i: int|
                        0 <= i < vectors@.len() ==> vectors@[i]@.len() == dim as nat
                },
                Result::Err(e) => {
                    &&& e == RetrievalError::DimensionMismatch
                    &&& exists|i: int|
                        0 <= i < vectors@.len() && vectors@[i]@.len() != dim as nat
                },
            },
    {
        let n: usize = vectors.len();
        let mut i: usize = 0;
        while i < n
            invariant
                0 <= i <= n,
                n == vectors@.len(),
                forall|j: int| 0 <= j < i ==> vectors@[j]@.len() == dim as nat,
            decreases n - i,
        {
            if vectors[i].len() != dim as usize {
                return Result::Err(RetrievalError::DimensionMismatch);
            }
            i = i + 1;
        }
        Result::Ok(FixtureIndex { dim, vectors, answers })
    }
}

impl Index for FixtureIndex {
    closed spec fn dim(&self) -> nat {
        self.dim as nat
    }

    closed spec fn vectors(&self) -> Seq<Seq<u32>> {
        self.vectors@.map_values(|v: Vec<u32>| v@)
    }

    closed spec fn reconstructs(&self, id: u64) -> bool {
        id < self.vectors@.len() && self.vectors@[id as int]@.len() == self.dim as nat
    }

    fn d(&self) -> (r: u32) {
        self.dim
    }

    fn ntotal(&self) -> (r: u64) {
        self.vectors.len() as u64
    }

    fn search(&mut self, q: &[u32], k: usize) -> (r: Result<SearchResult, RetrievalError>) {
        let d: usize = self.dim as usize;
        proof {
            assert(q@.len() / (d as nat) <= q@.len()) by (nonlinear_arith)
                requires
                    d >= 1,
            ;
            assert((q@.len() / (d as nat)) * k <= q@.len() * k) by (nonlinear_arith)
                requires
                    q@.len() / (d as nat) <= q@.len(),
            ;
        }
        let expected: usize = (q.len() / d) * k;
        let n: usize = self.answers.len();
        let mut i: usize = 0;
        while i < n
            invariant
                0 <= i <= n,
                *self == *old(self),
                n == self.answers@.len(),
                expected as nat == (q@.len() / old(self).dim()) * k,
            decreases n - i,
        {
            if bits_eq(q, &self.answers[i].0) {
                if self.answers[i].1.len() == expected {
                    let script: &Vec<Idx> = &self.answers[i].1;
                    let mut labels: Vec<Idx> = Vec::new();
                    let mut j: usize = 0;
                    while j < script.len()
                        invariant
                            0 <= j <= script@.len(),
                            labels@ =~= script@.take(j as int),
                        decreases script@.len() - j,
                    {
                        labels.push(script[j]);
                        j = j + 1;
                    }
                    proof {
                        assert(labels@ =~= script@);
                    }
                    return Result::Ok(SearchResult { distances: Vec::new(), labels });
                } else {
                    return Result::Err(RetrievalError::AnnFailure);
                }
            }
            i = i + 1;
        }
        Result::Err(RetrievalError::AnnFailure)
    }

    fn reconstruct(&self, key: Idx) -> (r: Result<Vec<u32>, RetrievalError>) {
        match key.get() {
            Option::None => Result::Err(RetrievalError::AnnFailure),
            Option::Some(id) => {
                if id < self.vectors.len() as u64 {
                    let v: Vec<u32> = self.vectors[id as usize].clone();
                    proof {
                        assert(v@ =~= self.vectors@[id as int]@);
                    }
                    if v.len() == self.dim as usize {
                        Result::Ok(v)
                    } else {
                        Result::Err(RetrievalError::AnnFailure)
                    }
                } else {
                    Result::Err(RetrievalError::AnnFailure)
                }
            },
        }
    }
}

} // verus!
