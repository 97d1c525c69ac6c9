//! The vector store: a mapping from string keys to vectors of binary32 bit
//! patterns, held as a list of rows with distinct keys.

use vstd::prelude::*;
use crate::select::{is_k_smallest, min_nat, picks, select_smallest};

verus! {

/// A row's key and vector, as mathematical values.
pub type RowView = (Seq<char>, Seq<u32>);

/// No two rows share a key.
pub open spec fn unique_keys(rows: Seq<RowView>) -> bool {
    forall|i: int, j: int| 0 <= i < rows.len() && 0 <= j < rows.len() && i != j ==> #[trigger] rows[i].0 != #[trigger] rows[j].0
}

/// Some row holds key `k`.
pub open spec fn has_key(rows: Seq<RowView>, k: Seq<char>) -> bool {
    exists|i: int| 0 <= i < rows.len() && #[trigger] rows[i].0 == k
}

/// The mapping that the rows stand for.
pub open spec fn map_of(rows: Seq<RowView>) -> Map<Seq<char>, Seq<u32>> {
    Map::new(
        |k: Seq<char>| has_key(rows, k),
        |k: Seq<char>| rows[choose|i: int| 0 <= i < rows.len() && #[trigger] rows[i].0 == k].1,
    )
}

/// With distinct keys, each row's key maps to that row's vector.
pub proof fn lemma_map_at(rows: Seq<RowView>, i: int)
    requires
        unique_keys(rows),
        0 <= i < rows.len(),
    ensures
        map_of(rows).contains_key(rows[i].0),
        map_of(rows)[rows[i].0] == rows[i].1,
{
    let k = rows[i].0;
    assert(has_key(rows, k));
    let j = choose|j: int| 0 <= j < rows.len() && #[trigger] rows[j].0 == k;
    assert(j == i);
}

/// Number of rows among the first `n` whose vector has length `len`.
pub open spec fn count_len(rows: Seq<RowView>, len: nat, n: int) -> nat
    decreases n,
{
    if n <= 0 {
        0
    } else if rows[n - 1].1.len() == len {
        count_len(rows, len, n - 1) + 1
    } else {
        count_len(rows, len, n - 1)
    }
}

/// The keys of `m` whose vector has length `len`.
pub open spec fn keys_of_len(m: Map<Seq<char>, Seq<u32>>, len: nat) -> Set<Seq<char>> {
    m.dom().filter(|k: Seq<char>| m[k].len() == len)
}

/// Keys of the first `n` rows whose vector has length `len`.
spec fn keys_of_len_upto(rows: Seq<RowView>, len: nat, n: int) -> Set<Seq<char>> {
    Set::new(|k: Seq<char>| exists|i: int| 0 <= i < n && #[trigger] rows[i].0 == k && rows[i].1.len() == len)
}

proof fn lemma_count_upto(rows: Seq<RowView>, len: nat, n: int)
    requires
        unique_keys(rows),
        0 <= n <= rows.len(),
    ensures
        keys_of_len_upto(rows, len, n).finite(),
        keys_of_len_upto(rows, len, n).len() == count_len(rows, len, n),
    decreases n,
{
    if n == 0 {
        assert(keys_of_len_upto(rows, len, 0) =~= Set::empty());
    } else {
        lemma_count_upto(rows, len, n - 1);
        let before = keys_of_len_upto(rows, len, n - 1);
        let after = keys_of_len_upto(rows, len, n);
        if rows[n - 1].1.len() == len {
            assert(after =~= before.insert(rows[n - 1].0)) by {
                assert forall|k: Seq<char>| after.contains(k) implies before.insert(rows[n - 1].0).contains(k) by {
                    let i = choose|i: int| 0 <= i < n && #[trigger] rows[i].0 == k && rows[i].1.len() == len;
                    if i < n - 1 {
                        assert(before.contains(k));
                    }
                }
                assert forall|k: Seq<char>| before.insert(rows[n - 1].0).contains(k) implies after.contains(k) by {
                    if k == rows[n - 1].0 {
                        assert(rows[n - 1].0 == k);
                    } else {
                        let i = choose|i: int| 0 <= i < n - 1 && #[trigger] rows[i].0 == k && rows[i].1.len() == len;
                        assert(rows[i].0 == k);
                    }
                }
            }
            assert(!before.contains(rows[n - 1].0)) by {
                if before.contains(rows[n - 1].0) {
                    let i = choose|i: int| 0 <= i < n - 1 && #[trigger] rows[i].0 == rows[n - 1].0 && rows[i].1.len() == len;
                    assert(rows[i].0 != rows[n - 1].0);
                }
            }
        } else {
            assert(after =~= before) by {
                assert forall|k: Seq<char>| after.contains(k) implies before.contains(k) by {
                    let i = choose|i: int| 0 <= i < n && #[trigger] rows[i].0 == k && rows[i].1.len() == len;
                    assert(i < n - 1);
                    assert(rows[i].0 == k);
                }
                assert forall|k: Seq<char>| before.contains(k) implies after.contains(k) by {
                    let i = choose|i: int| 0 <= i < n - 1 && #[trigger] rows[i].0 == k && rows[i].1.len() == len;
                    assert(rows[i].0 == k);
                }
            }
        }
    }
}

/// With distinct keys, the rows whose vector has length `len` are as many as
/// the keys of the mapping whose vector has that length.
pub proof fn lemma_count_is_keys_of_len(rows: Seq<RowView>, len: nat)
    requires
        unique_keys(rows),
    ensures
        keys_of_len(map_of(rows), len).finite(),
        count_len(rows, len, rows.len() as int) == keys_of_len(map_of(rows), len).len(),
{
    lemma_count_upto(rows, len, rows.len() as int);
    let m = map_of(rows);
    let a = keys_of_len_upto(rows, len, rows.len() as int);
    assert(keys_of_len(m, len) =~= a) by {
        assert forall|k: Seq<char>| keys_of_len(m, len).contains(k) implies a.contains(k) by {
            let i = choose|i: int| 0 <= i < rows.len() && #[trigger] rows[i].0 == k;
            lemma_map_at(rows, i);
            assert(rows[i].0 == k);
        }
        assert forall|k: Seq<char>| a.contains(k) implies keys_of_len(m, len).contains(k) by {
            let i = choose|i: int| 0 <= i < rows.len() && #[trigger] rows[i].0 == k && rows[i].1.len() == len;
            lemma_map_at(rows, i);
        }
    }
}

/// `r` lists the rows nearest to a query of length `len`, by the ordering
/// keys `dist` (one per row): among the rows whose vector has length `len`,
/// the `k` with the smallest keys (all of them when there are fewer), each
/// once, in non-decreasing order of key, with no row left out that is nearer
/// than one taken. Among rows at equal distance the earlier row comes first,
/// and is the one taken.
pub open spec fn is_k_nearest(rows: Seq<RowView>, len: nat, dist: Seq<u32>, k: nat, r: Seq<usize>) -> bool {
    &&& r.len() == min_nat(k, count_len(rows, len, rows.len() as int))
    &&& forall|i: int| 0 <= i < r.len() ==> #[trigger] r[i] < rows.len() && rows[r[i] as int].1.len() == len
    &&& forall|i: int, j: int| 0 <= i < j < r.len() ==> r[i] != r[j]
    &&& forall|i: int, j: int|
        0 <= i < j < r.len() ==> dist[#[trigger] r[i] as int] <= dist[#[trigger] r[j] as int]
    &&& forall|i: int, p: int|
        0 <= i < r.len() && 0 <= p < rows.len() && rows[p].1.len() == len && !picks(r, p)
            ==> dist[#[trigger] r[i] as int] <= #[trigger] dist[p]
    &&& forall|i: int, j: int|
        0 <= i < j < r.len() && dist[#[trigger] r[i] as int] == dist[#[trigger] r[j] as int] ==> r[i] < r[j]
    &&& forall|i: int, p: int|
        0 <= i < r.len() && 0 <= p < rows.len() && rows[p].1.len() == len && !picks(r, p)
            && #[trigger] dist[p] == dist[#[trigger] r[i] as int] ==> r[i] < p
}

/// A character of an identifier in hyphenated form: a hyphen at positions
/// 8, 13, 18 and 23, a lower-case hex digit elsewhere.
pub open spec fn is_hyphenated_char(c: char, i: int) -> bool {
    if i == 8 || i == 13 || i == 18 || i == 23 {
        c == '-'
    } else {
        ('0' <= c && c <= '9') || ('a' <= c && c <= 'f')
    }
}

/// Relies on uuid's `Uuid::new_v4` and its `Display`: a random version-4
/// identifier, written in lower-case hyphenated form (32 hex digits and 4
/// hyphens, the version digit `4` at position 14).
#[verifier::external_body]
fn fresh_id() -> (r: String)
    ensures
        r@.len() == 36,
        forall|i: int| 0 <= i < 36 ==> is_hyphenated_char(#[trigger] r@[i], i),
        r@[14] == '4',
{
    uuid::Uuid::new_v4().to_string()
}

/// Why two keys give no pair of operands.
#[derive(Clone, Copy, Debug, PartialEq, Eq, Structural)]
pub enum OperandError {
    /// One key or both are absent.
    NotFound,
    /// Both are present and the vectors differ in length.
    Incompatible,
}

/// A binary operation on two stored vectors.
#[derive(Clone, Copy, Debug, PartialEq, Eq, Structural)]
pub enum Operation {
    Addition,
    Subtraction,
    CosineSimilarity,
}

impl OperandError {
    /// The reply to the client when `op` cannot be carried out.
    pub open spec fn spec_message(self, op: Operation) -> Seq<char> {
        match (self, op) {
            (OperandError::NotFound, _) => "One or both keys not found"@,
            (OperandError::Incompatible, Operation::Addition) => "Vectors are not compatible for addition"@,
            (OperandError::Incompatible, Operation::Subtraction) => "Vectors are not compatible for subtraction"@,
            (OperandError::Incompatible, Operation::CosineSimilarity) =>
                "Vectors are not compatible for cosine similarity"@,
        }
    }

    /// The reply to the client when `op` cannot be carried out.
    pub fn message(&self, op: Operation) -> (r: &'static str)
        ensures
            r@ == self.spec_message(op),
    {
        match (self, op) {
            (OperandError::NotFound, _) => "One or both keys not found",
            (OperandError::Incompatible, Operation::Addition) => "Vectors are not compatible for addition",
            (OperandError::Incompatible, Operation::Subtraction) => "Vectors are not compatible for subtraction",
            (OperandError::Incompatible, Operation::CosineSimilarity) =>
                "Vectors are not compatible for cosine similarity",
        }
    }
}

/// An in-memory store of vectors under string keys.
pub struct VectorStore {
    entries: Vec<(String, Vec<u32>)>,
}

impl View for VectorStore {
    type V = Map<Seq<char>, Seq<u32>>;

    open spec fn view(&self) -> Map<Seq<char>, Seq<u32>> {
        map_of(self.rows())
    }
}

impl VectorStore {
    /// The rows in the order the store keeps them.
    pub closed spec fn rows(&self) -> Seq<RowView> {
        self.entries@.map_values(|e: (String, Vec<u32>)| (e.0@, e.1@))
    }

    /// The rows carry distinct keys.
    pub open spec fn wf(&self) -> bool {
        unique_keys(self.rows())
    }

    /// An empty store.
    pub fn new() -> (r: Self)
        ensures
            r.wf(),
            r@ == Map::<Seq<char>, Seq<u32>>::empty(),
            r.rows().len() == 0,
    {
        let r = VectorStore { entries: Vec::new() };
        assert(r@ =~= Map::<Seq<char>, Seq<u32>>::empty());
        r
    }

    /// Number of keys held.
    pub fn len(&self) -> (r: usize)
        requires
            self.wf(),
        ensures
            r == self.rows().len(),
            r == self@.len(),
    {
        proof { self.lemma_len(); }
        self.entries.len()
    }

    proof fn lemma_len(&self)
        requires
            self.wf(),
        ensures
            self@.dom().finite(),
            self@.len() == self.rows().len(),
    {
        let rows = self.rows();
        let keys = rows.map_values(|e: RowView| e.0);
        assert(self@.dom() =~= keys.to_set()) by {
            assert forall|k: Seq<char>| self@.dom().contains(k) implies keys.to_set().contains(k) by {
                let i = choose|i: int| 0 <= i < rows.len() && #[trigger] rows[i].0 == k;
                assert(keys[i] == k);
            }
            assert forall|k: Seq<char>| keys.to_set().contains(k) implies self@.dom().contains(k) by {
                let i = choose|i: int| 0 <= i < keys.len() && keys[i] == k;
                assert(rows[i].0 == k);
            }
        }
        assert(keys.no_duplicates()) by {
            assert forall|i: int, j: int| 0 <= i < keys.len() && 0 <= j < keys.len() && i != j implies keys[i] != keys[j] by {
                assert(rows[i].0 != rows[j].0);
            }
        }
        keys.unique_seq_to_set();
    }

    /// All rows, in the order the store keeps them.
    pub fn entries(&self) -> (r: &Vec<(String, Vec<u32>)>)
        ensures
            r@.map_values(|e: (String, Vec<u32>)| (e.0@, e.1@)) == self.rows(),
    {
        &self.entries
    }

    fn find(&self, key: &String) -> (r: Option<usize>)
        requires
            self.wf(),
        ensures
            match r {
                Some(i) => i < self.rows().len() && self.rows()[i as int].0 == key@,
                None => !has_key(self.rows(), key@),
            },
    {
        let mut i: usize = 0;
        while i < self.entries.len()
            invariant
                i <= self.entries.len(),
                forall|j: int| 0 <= j < i ==> #[trigger] self.rows()[j].0 != key@,
            decreases self.entries.len() - i,
        {
            if self.entries[i].0 == *key {
                return Some(i);
            }
            i += 1;
        }
        None
    }

    /// The vector stored under `id`, if any.
    pub fn get(&self, id: String) -> (r: Option<&Vec<u32>>)
        requires
            self.wf(),
        ensures
            match r {
                Some(v) => self@.contains_key(id@) && v@ == self@[id@],
                None => !self@.contains_key(id@),
            },
    {
        match self.find(&id) {
            Some(i) => {
                proof { lemma_map_at(self.rows(), i as int); }
                Some(&self.entries[i].1)
            },
            None => None,
        }
    }

    /// Stores `vector` under `key`, replacing what was there.
    pub fn insert_with_key(&mut self, key: String, vector: Vec<u32>)
        requires
            old(self).wf(),
        ensures
            final(self).wf(),
            final(self)@ == old(self)@.insert(key@, vector@),
    {
        let ghost k = key@;
        let ghost v = vector@;
        let ghost before = self.rows();
        match self.find(&key) {
            Some(i) => {
                self.entries.set(i, (key, vector));
                proof {
                    let rows = self.rows();
                    assert(rows =~= before.update(i as int, (k, v)));
                    assert(unique_keys(rows));
                    assert forall|q: Seq<char>| #[trigger] has_key(rows, q) == (has_key(before, q) || q == k) by {
                        if has_key(before, q) {
                            let j = choose|j: int| 0 <= j < before.len() && #[trigger] before[j].0 == q;
                            assert(rows[j].0 == q);
                        }
                        if q == k {
                            assert(rows[i as int].0 == q);
                        }
                        if has_key(rows, q) {
                            let j = choose|j: int| 0 <= j < rows.len() && #[trigger] rows[j].0 == q;
                            if j != i {
                                assert(before[j].0 == q);
                            }
                        }
                    }
                    assert forall|q: Seq<char>| has_key(rows, q) implies map_of(rows)[q] == old(self)@.insert(k, v)[q] by {
                        let j = choose|j: int| 0 <= j < rows.len() && #[trigger] rows[j].0 == q;
                        lemma_map_at(rows, j);
                        if j != i {
                            assert(before[j] == rows[j]);
                            lemma_map_at(before, j);
                        }
                    }
                    assert(self@ =~= old(self)@.insert(k, v));
                }
            },
            None => {
                self.entries.push((key, vector));
                proof {
                    let rows = self.rows();
                    assert(rows =~= before.push((k, v)));
                    assert(unique_keys(rows)) by {
                        assert forall|a: int, b: int| 0 <= a < rows.len() && 0 <= b < rows.len() && a != b implies #[trigger] rows[a].0 != #[trigger] rows[b].0 by {
                            if a == before.len() {
                                assert(before[b].0 != k);
                            } else if b == before.len() {
                                assert(before[a].0 != k);
                            } else {
                                assert(before[a].0 != before[b].0);
                            }
                        }
                    }
                    assert forall|q: Seq<char>| #[trigger] has_key(rows, q) == (has_key(before, q) || q == k) by {
                        if has_key(before, q) {
                            let j = choose|j: int| 0 <= j < before.len() && #[trigger] before[j].0 == q;
                            assert(rows[j].0 == q);
                        }
                        if q == k {
                            assert(rows[before.len() as int].0 == q);
                        }
                        if has_key(rows, q) {
                            let j = choose|j: int| 0 <= j < rows.len() && #[trigger] rows[j].0 == q;
                            if j != before.len() {
                                assert(before[j].0 == q);
                            }
                        }
                    }
                    assert forall|q: Seq<char>| has_key(rows, q) implies map_of(rows)[q] == old(self)@.insert(k, v)[q] by {
                        let j = choose|j: int| 0 <= j < rows.len() && #[trigger] rows[j].0 == q;
                        lemma_map_at(rows, j);
                        if j != before.len() {
                            assert(before[j] == rows[j]);
                            lemma_map_at(before, j);
                        }
                    }
                    assert(self@ =~= old(self)@.insert(k, v));
                }
            },
        }
    }

    /// Takes out the vector stored under `id`, if any.
    pub fn remove(&mut self, id: String) -> (r: Option<Vec<u32>>)
        requires
            old(self).wf(),
        ensures
            final(self).wf(),
            final(self)@ == old(self)@.remove(id@),
            match r {
                Some(v) => old(self)@.contains_key(id@) && v@ == old(self)@[id@],
                None => !old(self)@.contains_key(id@),
            },
    {
        let ghost before = self.rows();
        match self.find(&id) {
            Some(i) => {
                proof { lemma_map_at(before, i as int); }
                let row = self.entries.remove(i);
                proof {
                    let k = id@;
                    let rows = self.rows();
                    assert(rows =~= before.remove(i as int));
                    assert(unique_keys(rows)) by {
                        assert forall|a: int, b: int| 0 <= a < rows.len() && 0 <= b < rows.len() && a != b implies #[trigger] rows[a].0 != #[trigger] rows[b].0 by {
                            let a2 = if a < i { a } else { a + 1 };
                            let b2 = if b < i { b } else { b + 1 };
                            assert(rows[a] == before[a2]);
                            assert(rows[b] == before[b2]);
                        }
                    }
                    assert forall|q: Seq<char>| #[trigger] has_key(rows, q) == (has_key(before, q) && q != k) by {
                        if has_key(before, q) && q != k {
                            let j = choose|j: int| 0 <= j < before.len() && #[trigger] before[j].0 == q;
                            assert(j != i);
                            if j < i {
                                assert(rows[j].0 == q);
                            } else {
                                assert(rows[j - 1].0 == q);
                            }
                        }
                        if has_key(rows, q) {
                            let j = choose|j: int| 0 <= j < rows.len() && #[trigger] rows[j].0 == q;
                            let j2 = if j < i { j } else { j + 1 };
                            assert(before[j2].0 == q);
                            assert(j2 != i);
                        }
                    }
                    assert forall|q: Seq<char>| has_key(rows, q) implies map_of(rows)[q] == old(self)@.remove(k)[q] by {
                        let j = choose|j: int| 0 <= j < rows.len() && #[trigger] rows[j].0 == q;
                        lemma_map_at(rows, j);
                        let j2 = if j < i { j } else { j + 1 };
                        assert(before[j2] == rows[j]);
                        lemma_map_at(before, j2);
                    }
                    assert(self@ =~= old(self)@.remove(k));
                }
                Some(row.1)
            },
            None => {
                proof {
                    assert(self@ =~= old(self)@.remove(id@));
                }
                None
            },
        }
    }

    /// Stores `vector` under a freshly generated key and returns that key.
    pub fn insert_with_uuid(&mut self, vector: Vec<u32>) -> (r: String)
        requires
            old(self).wf(),
        ensures
            final(self).wf(),
            final(self)@ == old(self)@.insert(r@, vector@),
            r@.len() == 36,
            forall|i: int| 0 <= i < 36 ==> is_hyphenated_char(#[trigger] r@[i], i),
            r@[14] == '4',
    {
        let id = fresh_id();
        self.insert_with_key(id.clone(), vector);
        id
    }

    /// The two vectors stored under `key1` and `key2`, when both are present
    /// and of one length.
    pub fn operands(&self, key1: &String, key2: &String) -> (r: Result<(&Vec<u32>, &Vec<u32>), OperandError>)
        requires
            self.wf(),
        ensures
            match r {
                Ok((a, b)) => self@.contains_key(key1@) && self@.contains_key(key2@) && a@ == self@[key1@]
                    && b@ == self@[key2@] && a@.len() == b@.len(),
                Err(OperandError::NotFound) => !(self@.contains_key(key1@) && self@.contains_key(key2@)),
                Err(OperandError::Incompatible) => self@.contains_key(key1@) && self@.contains_key(key2@)
                    && self@[key1@].len() != self@[key2@].len(),
            },
    {
        match (self.find(key1), self.find(key2)) {
            (Some(i), Some(j)) => {
                proof {
                    lemma_map_at(self.rows(), i as int);
                    lemma_map_at(self.rows(), j as int);
                }
                let a = &self.entries[i].1;
                let b = &self.entries[j].1;
                if a.len() == b.len() {
                    Ok((a, b))
                } else {
                    Err(OperandError::Incompatible)
                }
            },
            _ => Err(OperandError::NotFound),
        }
    }

    /// Positions (into `entries`) of the `k` rows nearest to `query`, nearest
    /// first, given one ordering key per row in `distances`. Only rows whose
    /// vector has the query's length take part; among rows at equal distance
    /// the earlier row comes first.
    pub fn k_nearest_neighbors(&self, query: &Vec<u32>, k: usize, distances: &Vec<u32>) -> (r: Vec<usize>)
        requires
            distances@.len() == self.rows().len(),
        ensures
            is_k_nearest(self.rows(), query@.len(), distances@, k as nat, r@),
            self.wf() ==> r.len() == min_nat(k as nat, keys_of_len(self@, query@.len()).len()),
            self.wf() ==> forall|i: int|
                0 <= i < r.len() ==> self@.contains_key(#[trigger] self.rows()[r[i] as int].0)
                    && self@[self.rows()[r[i] as int].0] == self.rows()[r[i] as int].1,
    {
        let ghost rows = self.rows();
        let ghost len = query@.len();
        let n = self.entries.len();
        let mut cand: Vec<usize> = Vec::new();
        let mut keys: Vec<u32> = Vec::new();
        let mut i: usize = 0;
        while i < n
            invariant
                n == rows.len(),
                rows == self.rows(),
                len == query@.len(),
                distances@.len() == n,
                i <= n,
                cand.len() == keys.len(),
                cand.len() == count_len(rows, len, i as int),
                forall|c: int| 0 <= c < cand.len() ==> #[trigger] cand[c] < i && rows[cand[c] as int].1.len() == len
                    && keys[c] == distances[cand[c] as int],
                forall|a: int, b: int| 0 <= a < b < cand.len() ==> #[trigger] cand[a] < #[trigger] cand[b],
                forall|p: int| 0 <= p < i && #[trigger] rows[p].1.len() == len ==> picks(cand@, p),
            decreases n - i,
        {
            if self.entries[i].1.len() == query.len() {
                let ghost before = cand@;
                cand.push(i);
                keys.push(distances[i]);
                proof {
                    assert forall|p: int| 0 <= p < i + 1 && #[trigger] rows[p].1.len() == len implies picks(cand@, p) by {
                        if p < i {
                            let c = choose|c: int| 0 <= c < before.len() && before[c] as int == p;
                            assert(cand@[c] as int == p);
                        } else {
                            assert(cand@[before.len() as int] as int == p);
                        }
                    }
                }
            }
            i += 1;
        }
        let sel = select_smallest(&keys, k);
        let mut out: Vec<usize> = Vec::new();
        let mut t: usize = 0;
        while t < sel.len()
            invariant
                is_k_smallest(keys@, k as nat, sel@),
                cand.len() == keys.len(),
                t <= sel.len(),
                out.len() == t,
                forall|u: int| 0 <= u < t ==> out[u] == cand[#[trigger] sel[u] as int],
            decreases sel.len() - t,
        {
            out.push(cand[sel[t]]);
            t += 1;
        }
        proof {
            assert(out.len() == min_nat(k as nat, count_len(rows, len, n as int)));
            assert forall|i: int| 0 <= i < out.len() implies #[trigger] out[i] < rows.len() && rows[out[i] as int].1.len() == len by {
                assert(sel[i] < keys.len());
            }
            assert forall|i: int, j: int| 0 <= i < j < out.len() implies out[i] != out[j] by {
                assert(sel[i] < keys.len());
                assert(sel[j] < keys.len());
                assert(sel[i] != sel[j]);
                if sel[i] < sel[j] {
                    assert(cand[sel[i] as int] < cand[sel[j] as int]);
                } else {
                    assert(cand[sel[j] as int] < cand[sel[i] as int]);
                }
            }
            assert forall|i: int, j: int| 0 <= i < j < out.len() implies distances[#[trigger] out[i] as int] <= distances[#[trigger] out[j] as int] by {
                assert(sel[i] < keys.len());
                assert(sel[j] < keys.len());
                assert(keys[sel[i] as int] <= keys[sel[j] as int]);
            }
            assert forall|i: int, j: int|
                0 <= i < j < out.len() && distances[#[trigger] out[i] as int] == distances[#[trigger] out[j] as int]
                implies out[i] < out[j] by {
                assert(sel[i] < keys.len());
                assert(sel[j] < keys.len());
                assert(keys[sel[i] as int] == keys[sel[j] as int]);
                assert(sel[i] < sel[j]);
                assert(cand[sel[i] as int] < cand[sel[j] as int]);
            }
            assert forall|i: int, p: int|
                0 <= i < out.len() && 0 <= p < rows.len() && rows[p].1.len() == len && !picks(out@, p)
                    && #[trigger] distances[p] == distances[#[trigger] out[i] as int]
                implies out[i] < p by {
                assert(rows[p].1.len() == len);
                assert(picks(cand@, p));
                let c = choose|c: int| 0 <= c < cand.len() && cand@[c] as int == p;
                if picks(sel@, c) {
                    let u = choose|u: int| 0 <= u < sel.len() && sel@[u] as int == c;
                    assert(out@[u] as int == p);
                }
                assert(sel[i] < keys.len());
                assert(keys[c] == keys[sel[i] as int]);
                assert(sel[i] < c);
                assert(cand[sel[i] as int] < cand[c]);
            }
            assert forall|i: int, p: int|
                0 <= i < out.len() && 0 <= p < rows.len() && rows[p].1.len() == len && !picks(out@, p)
                implies distances[#[trigger] out[i] as int] <= #[trigger] distances[p] by {
                assert(rows[p].1.len() == len);
                assert(picks(cand@, p));
                let c = choose|c: int| 0 <= c < cand.len() && cand@[c] as int == p;
                if picks(sel@, c) {
                    let u = choose|u: int| 0 <= u < sel.len() && sel@[u] as int == c;
                    assert(out@[u] as int == p);
                }
                assert(sel[i] < keys.len());
                assert(keys[sel[i] as int] <= keys[c]);
            }
            if self.wf() {
                lemma_count_is_keys_of_len(rows, len);
                assert forall|i: int| 0 <= i < out.len() implies self@.contains_key(#[trigger] rows[out[i] as int].0)
                    && self@[rows[out[i] as int].0] == rows[out[i] as int].1 by {
                    assert(sel[i] < keys.len());
                    lemma_map_at(rows, out[i] as int);
                }
            }
        }
        out
    }
}

/// Asking for one or more neighbours of a query that some row matches in
/// length gives at least one row, and the first row given is a nearest one.
pub proof fn nearest_neighbour_first(rows: Seq<RowView>, len: nat, dist: Seq<u32>, k: nat, r: Seq<usize>)
    requires
        is_k_nearest(rows, len, dist, k, r),
        k >= 1,
        count_len(rows, len, rows.len() as int) >= 1,
    ensures
        r.len() >= 1,
        forall|p: int| 0 <= p < rows.len() && rows[p].1.len() == len ==> dist[r[0] as int] <= #[trigger] dist[p],
{
    assert forall|p: int| 0 <= p < rows.len() && rows[p].1.len() == len implies dist[r[0] as int] <= #[trigger] dist[p] by {
        if picks(r, p) {
            let i = choose|i: int| 0 <= i < r.len() && r[i] as int == p;
            if i > 0 {
                assert(dist[r[0] as int] <= dist[r[i] as int]);
            }
        } else {
            assert(r[0] < rows.len());
        }
    }
}

/// After a vector is stored under a key, the key gives back exactly that
/// vector.
pub proof fn get_after_insert(m: Map<Seq<char>, Seq<u32>>, key: Seq<char>, vector: Seq<u32>)
    ensures
        m.insert(key, vector).contains_key(key),
        m.insert(key, vector)[key] == vector,
{
}

/// After a key is removed it is absent, and removing it again changes
/// nothing.
pub proof fn remove_is_idempotent(m: Map<Seq<char>, Seq<u32>>, key: Seq<char>)
    ensures
        !m.remove(key).contains_key(key),
        m.remove(key).remove(key) == m.remove(key),
{
    assert(m.remove(key).remove(key) =~= m.remove(key));
}

} // verus!
