//! The id-to-token table of the vocabulary.
//!
//! The table maps numeric vocabulary ids to token strings.  It is persisted
//! as a JSON object whose keys are the decimal renderings of the ids; loading
//! parses that object and rebuilds the numeric keys.

use vstd::prelude::*;

use crate::error::RetrievalError;
use crate::parse::decimal_val;
use crate::parse::is_decimal;
use crate::parse::parse_u64;

verus! {

/// Whether `serde_json::from_str::<HashMap<String, String>>` accepts a
/// document: acceptance is a function of the document alone.
pub uninterp spec fn json_accepts(s: Seq<char>) -> bool;

/// The string-to-string object a JSON document denotes, when
/// `serde_json::from_str::<HashMap<String, String>>` accepts the document.
pub uninterp spec fn json_string_object(s: Seq<char>) -> Map<Seq<char>, Seq<char>>;

/// Relies on `serde_json::from_str::<HashMap<String, String>>`: it accepts a
/// document, deterministically, exactly when the document is a JSON object
/// with string keys and string values, and it keeps the last value of a
/// repeated key, so the pairs handed back carry distinct keys and are
/// exactly the entries of the parsed object.  The order of the pairs follows
/// the hash map's iteration order and is not specified.
#[verifier::external_body]
fn parse_string_object(s: &str) -> (r: Result<Vec<(String, String)>, serde_json::Error>)
    ensures
        r is Ok <==> json_accepts(s@),
        match r {
            Result::Ok(v) => {
                &&& forall|i: int|
                    0 <= i < v@.len() ==> json_string_object(s@).contains_pair(
                        #[trigger] v@[i].0@,
                        v@[i].1@,
                    )
                &&& forall|k: Seq<char>|
                    json_string_object(s@).contains_key(k) ==> exists|i: int|
                        0 <= i < v@.len() && #[trigger] v@[i].0@ == k
                &&& forall|i: int, j: int| 0 <= i < j < v@.len() ==> v@[i].0@ != v@[j].0@
            },
            Result::Err(_) => true,
        },
{
    match serde_json::from_str::<std::collections::HashMap<String, String>>(s) {
        Ok(m) => Ok(m.into_iter().collect()),
        Err(e) => Err(e),
    }
}

/// The declaration of serde_json's error type, so the parsing wrapper can
/// hand it through.
#[verifier::external_type_specification]
#[verifier::external_body]
pub struct ExSerdeJsonError(serde_json::Error);

/// Every key of a string-to-string object is the decimal rendering of a
/// 64-bit id.
pub open spec fn keys_all_decimal(obj: Map<Seq<char>, Seq<char>>) -> bool {
    forall|k: Seq<char>|
        #[trigger] obj.contains_key(k) ==> is_decimal(k) && decimal_val(k) <= u64::MAX
}

/// Two distinct keys of a string-to-string object denote one id.
pub open spec fn keys_collide(obj: Map<Seq<char>, Seq<char>>) -> bool {
    exists|k1: Seq<char>, k2: Seq<char>|
        #![trigger obj.contains_key(k1), obj.contains_key(k2)]
        obj.contains_key(k1) && obj.contains_key(k2) && k1 != k2 && decimal_val(k1)
            == decimal_val(k2)
}

/// An id-token entry denotes a pair of a string-to-string object: some key
/// of the object is the decimal rendering of the id and carries the token as
/// its value.
pub open spec fn table_entry_from(obj: Map<Seq<char>, Seq<char>>, e: (u64, Seq<char>)) -> bool {
    exists|k: Seq<char>|
        #[trigger] obj.contains_pair(k, e.1) && is_decimal(k) && decimal_val(k) == e.0
}

/// Every key of a string-to-string object is decimal and its number is the
/// id of some entry.
pub open spec fn table_covers(obj: Map<Seq<char>, Seq<char>>, entries: Seq<(u64, Seq<char>)>) -> bool {
    forall|k: Seq<char>|
        #[trigger] obj.contains_key(k) ==> is_decimal(k) && exists|i: int|
            0 <= i < entries.len() && (#[trigger] entries[i]).0 == decimal_val(k)
}

/// The id-to-token table: numeric vocabulary id to token string, with
/// distinct ids.
pub struct TokenTable {
    entries: Vec<(u64, String)>,
}

impl TokenTable {
    /// The table's entries, as pairs of id and token.
    pub closed spec fn entries_view(&self) -> Seq<(u64, Seq<char>)> {
        self.entries@.map_values(|e: (u64, String)| (e.0, e.1@))
    }

    /// No id occurs twice.
    pub open spec fn wf(&self) -> bool {
        forall|i: int, j: int|
            0 <= i < j < self.entries_view().len() ==> self.entries_view()[i].0
                != self.entries_view()[j].0
    }

    /// Whether the table knows an id.
    pub open spec fn spec_contains(&self, id: u64) -> bool {
        exists|i: int| 0 <= i < self.entries_view().len() && (#[trigger] self.entries_view()[i]).0 == id
    }

    /// Build a table from id-token pairs, refusing a repeated id.
    pub fn new(entries: Vec<(u64, String)>) -> (r: Result<TokenTable, RetrievalError>)
        ensures
            match r {
                Result::Ok(t) => {
                    &&& t.wf()
                    &&& t.entries_view() == entries@.map_values(|e: (u64, String)| (e.0, e.1@))
                },
                Result::Err(e) => {
                    &&& e == RetrievalError::DuplicateTableId
                    &&& exists|i: int, j: int|
                        0 <= i < j < entries@.len() && (#[trigger] entries@[i]).0 == (
                        #[trigger] entries@[j]).0
                },
            },
    {
        let n: usize = entries.len();
        let mut i: usize = 0;
        while i < n
            invariant
                0 <= i <= n,
                n == entries@.len(),
                forall|a: int, b: int|
                    0 <= a < b < i ==> (#[trigger] entries@[a]).0 != (#[trigger] entries@[b]).0,
            decreases n - i,
        {
            let mut j: usize = 0;
            while j < i
                invariant
                    0 <= j <= i < n,
                    n == entries@.len(),
                    forall|b: int| 0 <= b < j ==> (#[trigger] entries@[b]).0 != entries@[i as int].0,
                decreases i - j,
            {
                if entries[j].0 == entries[i].0 {
                    return Result::Err(RetrievalError::DuplicateTableId);
                }
                j = j + 1;
            }
            i = i + 1;
        }
        Result::Ok(TokenTable { entries })
    }

    /// Load a table from the JSON rendering of the id-to-token object.
    ///
    /// On success every table entry comes from a pair of the object whose key
    /// is the decimal rendering of the entry's id, and every key of the
    /// object is decimal and reaches the table.  The document is malformed
    /// exactly when it is not accepted as a string-to-string object or some
    /// key is not a decimal 64-bit id; ids are duplicated exactly when two
    /// distinct keys denote one id.
    pub fn from_json(s: &str) -> (r: Result<TokenTable, RetrievalError>)
        ensures
            r == Result::<TokenTable, RetrievalError>::Err(RetrievalError::MalformedTable) <==> (
            !json_accepts(s@) || !keys_all_decimal(json_string_object(s@))),
            r == Result::<TokenTable, RetrievalError>::Err(RetrievalError::DuplicateTableId) <==> (
            json_accepts(s@) && keys_all_decimal(json_string_object(s@)) && keys_collide(
                json_string_object(s@),
            )),
            match r {
                Result::Ok(t) => {
                    &&& t.wf()
                    &&& forall|i: int|
                        0 <= i < t.entries_view().len() ==> table_entry_from(
                            json_string_object(s@),
                            #[trigger] t.entries_view()[i],
                        )
                    &&& table_covers(json_string_object(s@), t.entries_view())
                },
                Result::Err(e) => e == RetrievalError::MalformedTable || e
                    == RetrievalError::DuplicateTableId,
            },
    {
        let pairs: Vec<(String, String)> = match parse_string_object(s) {
            Result::Ok(v) => v,
            Result::Err(_) => {
                return Result::Err(RetrievalError::MalformedTable);
            },
        };
        let ghost obj = json_string_object(s@);
        let ghost pairs0 = pairs@;
        let mut entries: Vec<(u64, String)> = Vec::new();
        let n: usize = pairs.len();
        let mut i: usize = 0;
        while i < n
            invariant
                0 <= i <= n,
                pairs@ == pairs0,
                n == pairs0.len(),
                entries@.len() == i,
                obj == json_string_object(s@),
                json_accepts(s@),
                forall|a: int|
                    0 <= a < n ==> obj.contains_pair((#[trigger] pairs0[a]).0@, pairs0[a].1@),
                forall|a: int| 0 <= a < i ==> is_decimal((#[trigger] pairs0[a]).0@),
                forall|a: int|
                    0 <= a < i ==> (#[trigger] entries@[a]).0 == decimal_val(pairs0[a].0@),
                forall|a: int| 0 <= a < i ==> (#[trigger] entries@[a]).1@ == pairs0[a].1@,
            decreases n - i,
        {
            let id: u64 = match parse_u64(pairs[i].0.as_str()) {
                Option::Some(v) => v,
                Option::None => {
                    proof {
                        let k = pairs0[i as int].0@;
                        assert(obj.contains_key(k));
                        assert(!(is_decimal(k) && decimal_val(k) <= u64::MAX));
                        assert(!keys_all_decimal(obj));
                    }
                    return Result::Err(RetrievalError::MalformedTable);
                },
            };
            let token: String = pairs[i].1.clone();
            proof {
                assert(is_decimal(pairs0[i as int].0@));
                assert(id as int == decimal_val(pairs0[i as int].0@));
                assert(token@ == pairs0[i as int].1@);
            }
            entries.push((id, token));
            i = i + 1;
        }
        let ghost entries0 = entries@;
        proof {
            assert forall|k: Seq<char>| #[trigger] obj.contains_key(k) implies is_decimal(k)
                && decimal_val(k) <= u64::MAX by {
                let j = choose|j: int| 0 <= j < pairs0.len() && #[trigger] pairs0[j].0@ == k;
                assert(is_decimal(pairs0[j].0@));
                assert(entries0[j].0 == decimal_val(pairs0[j].0@));
            }
            assert(keys_all_decimal(obj));
        }
        let t = match TokenTable::new(entries) {
            Result::Ok(t) => t,
            Result::Err(e) => {
                proof {
                    let (i1, j1) = choose|i1: int, j1: int|
                        0 <= i1 < j1 < entries0.len() && (#[trigger] entries0[i1]).0 == (
                        #[trigger] entries0[j1]).0;
                    let k1 = pairs0[i1].0@;
                    let k2 = pairs0[j1].0@;
                    assert(obj.contains_key(k1) && obj.contains_key(k2));
                    assert(k1 != k2);
                    assert(decimal_val(k1) == decimal_val(k2));
                    assert(keys_collide(obj));
                }
                return Result::Err(e);
            },
        };
        proof {
            assert(!keys_collide(obj)) by {
                if keys_collide(obj) {
                    let (k1, k2) = choose|k1: Seq<char>, k2: Seq<char>|
                        obj.contains_key(k1) && obj.contains_key(k2) && k1 != k2 && decimal_val(k1)
                            == decimal_val(k2);
                    let i1 = choose|a: int| 0 <= a < pairs0.len() && #[trigger] pairs0[a].0@ == k1;
                    let i2 = choose|a: int| 0 <= a < pairs0.len() && #[trigger] pairs0[a].0@ == k2;
                    assert(entries0[i1].0 == decimal_val(k1));
                    assert(entries0[i2].0 == decimal_val(k2));
                    assert(i1 != i2);
                    assert(t.entries_view()[i1] == (entries0[i1].0, entries0[i1].1@));
                    assert(t.entries_view()[i2] == (entries0[i2].0, entries0[i2].1@));
                    // two entries with one id contradict the table's distinct ids
                    assert(false);
                }
            }
        }
        proof {
            assert forall|i2: int|
                0 <= i2 < t.entries_view().len() implies table_entry_from(
                obj,
                #[trigger] t.entries_view()[i2],
            ) by {
                let k = pairs0[i2].0@;
                assert(t.entries_view()[i2] == (entries0[i2].0, entries0[i2].1@));
                assert(obj.contains_pair(k, t.entries_view()[i2].1));
                assert(is_decimal(k) && decimal_val(k) == t.entries_view()[i2].0);
            }
            assert forall|k: Seq<char>| #[trigger] obj.contains_key(k) implies is_decimal(k)
                && exists|i2: int|
                0 <= i2 < t.entries_view().len() && (#[trigger] t.entries_view()[i2]).0
                    == decimal_val(k) by {
                let j = choose|j: int| 0 <= j < pairs0.len() && #[trigger] pairs0[j].0@ == k;
                assert(t.entries_view()[j] == (entries0[j].0, entries0[j].1@));
                assert(0 <= j < t.entries_view().len() && t.entries_view()[j].0 == decimal_val(k));
            }
            assert(table_covers(obj, t.entries_view()));
        }
        Result::Ok(t)
    }

    /// Look an id up.
    pub fn get(&self, id: u64) -> (r: Option<&String>)
        ensures
            match r {
                Option::Some(t) => exists|i: int|
                    0 <= i < self.entries_view().len() && #[trigger] self.entries_view()[i] == (
                    id,
                    t@,
                    ),
                Option::None => !self.spec_contains(id),
            },
    {
        let n: usize = self.entries.len();
        let mut i: usize = 0;
        while i < n
            invariant
                0 <= i <= n,
                n == self.entries_view().len(),
                forall|j: int| 0 <= j < i ==> (#[trigger] self.entries_view()[j]).0 != id,
            decreases n - i,
        {
            if self.entries[i].0 == id {
                proof {
                    assert(self.entries_view()[i as int] == (id, self.entries@[i as int].1@));
                }
                return Option::Some(&self.entries[i].1);
            }
            i = i + 1;
        }
        Option::None
    }

    /// How many entries the table holds.
    pub fn len(&self) -> (r: usize)
        ensures
            r == self.entries_view().len(),
    {
        self.entries.len()
    }
}

} // verus!
