//! An insertion-ordered mapping from field names to field values.
//!
//! Control documents and package records are small ordered key-value maps.
//! The order in which fields first appear is kept, so every document built
//! from a map is deterministic.

use vstd::prelude::*;

verus! {

/// The position of the first pair whose key is `k`, or -1 if no pair has it.
pub open spec fn spec_key_index(m: Seq<(Seq<char>, Seq<char>)>, k: Seq<char>) -> int
    decreases m.len(),
{
    if m.len() == 0 {
        -1
    } else if m[0].0 == k {
        0
    } else {
        let r = spec_key_index(m.drop_first(), k);
        if r < 0 {
            -1
        } else {
            r + 1
        }
    }
}

/// The value of the first pair whose key is `k`.
pub open spec fn spec_get(m: Seq<(Seq<char>, Seq<char>)>, k: Seq<char>) -> Option<Seq<char>> {
    if spec_key_index(m, k) < 0 {
        None
    } else {
        Some(m[spec_key_index(m, k)].1)
    }
}

/// Replaces the value of `k` in place if the key is present, else appends the
/// pair at the end.
pub open spec fn spec_insert(
    m: Seq<(Seq<char>, Seq<char>)>,
    k: Seq<char>,
    v: Seq<char>,
) -> Seq<(Seq<char>, Seq<char>)> {
    if spec_key_index(m, k) < 0 {
        m.push((k, v))
    } else {
        m.update(spec_key_index(m, k), (k, v))
    }
}

/// `spec_key_index` finds the first pair with the given key, and -1 means
/// that no pair has it.
pub proof fn lemma_key_index(m: Seq<(Seq<char>, Seq<char>)>, k: Seq<char>)
    ensures
        spec_key_index(m, k) < 0 ==> forall|j: int| 0 <= j < m.len() ==> m[j].0 != k,
        spec_key_index(m, k) >= 0 ==> {
            &&& spec_key_index(m, k) < m.len()
            &&& m[spec_key_index(m, k)].0 == k
            &&& forall|j: int| 0 <= j < spec_key_index(m, k) ==> m[j].0 != k
        },
    decreases m.len(),
{
    if m.len() > 0 && m[0].0 != k {
        lemma_key_index(m.drop_first(), k);
        assert forall|j: int| 1 <= j < m.len() implies m[j] == m.drop_first()[j - 1] by {}
    }
}

/// If the first pair carrying `k` stands at position `i`, then
/// `spec_key_index` returns `i`.
pub proof fn lemma_key_index_at(m: Seq<(Seq<char>, Seq<char>)>, k: Seq<char>, i: int)
    requires
        0 <= i < m.len(),
        m[i].0 == k,
        forall|j: int| 0 <= j < i ==> m[j].0 != k,
    ensures
        spec_key_index(m, k) == i,
    decreases m.len(),
{
    if i > 0 {
        assert forall|j: int| 0 <= j < i - 1 implies m.drop_first()[j].0 != k by {
            assert(m.drop_first()[j] == m[j + 1]);
        }
        assert(m.drop_first()[i - 1] == m[i]);
        lemma_key_index_at(m.drop_first(), k, i - 1);
    }
}

/// An ordered mapping from field name to field value.
pub struct FieldMap {
    pairs: Vec<(String, String)>,
}

impl View for FieldMap {
    type V = Seq<(Seq<char>, Seq<char>)>;

    closed spec fn view(&self) -> Seq<(Seq<char>, Seq<char>)> {
        Seq::new(self.pairs@.len(), |i: int| (self.pairs@[i].0@, self.pairs@[i].1@))
    }
}

impl FieldMap {
    /// No two pairs share a key.
    pub open spec fn wf(&self) -> bool {
        forall|i: int, j: int|
            0 <= i < j < self@.len() ==> self@[i].0 != self@[j].0
    }

    /// Creates an empty mapping.
    pub fn new() -> (r: FieldMap)
        ensures
            r@ == Seq::<(Seq<char>, Seq<char>)>::empty(),
            r.wf(),
    {
        let r = FieldMap { pairs: Vec::new() };
        proof {
            assert(r@ =~= Seq::<(Seq<char>, Seq<char>)>::empty());
        }
        r
    }

    /// The number of fields.
    pub fn len(&self) -> (n: usize)
        ensures
            n == self@.len(),
    {
        self.pairs.len()
    }

    /// True if the mapping holds no field.
    pub fn is_empty(&self) -> (r: bool)
        ensures
            r == (self@.len() == 0),
    {
        self.pairs.len() == 0
    }

    /// The pair at the given position.
    pub fn pair_at(&self, i: usize) -> (r: (&String, &String))
        requires
            i < self@.len(),
        ensures
            (r.0@, r.1@) == self@[i as int],
    {
        (&self.pairs[i].0, &self.pairs[i].1)
    }

    /// Looks a field up by name.
    pub fn get<'a>(&'a self, k: &str) -> (r: Option<&'a String>)
        ensures
            match r {
                Some(v) => spec_get(self@, k@) == Some(v@),
                None => spec_get(self@, k@) is None,
            },
    {
        proof {
            lemma_key_index(self@, k@);
        }
        let mut i: usize = 0;
        while i < self.pairs.len()
            invariant
                i <= self@.len(),
                self@.len() == self.pairs@.len(),
                forall|j: int| 0 <= j < i ==> self@[j].0 != k@,
            decreases self@.len() - i,
        {
            if crate::chars::str_eq(self.pairs[i].0.as_str(), k) {
                proof {
                    lemma_key_index_at(self@, k@, i as int);
                }
                return Some(&self.pairs[i].1);
            }
            i = i + 1;
        }
        None
    }

    /// True if a field with the given name is present.
    pub fn contains_key(&self, k: &str) -> (r: bool)
        ensures
            r == (spec_get(self@, k@) is Some),
    {
        match self.get(k) {
            Some(_) => true,
            None => false,
        }
    }

    /// Inserts a field, replacing the value in place if the name is present.
    pub fn insert(&mut self, k: String, v: String)
        ensures
            final(self)@ == spec_insert(old(self)@, k@, v@),
            old(self).wf() ==> final(self).wf(),
    {
        proof {
            lemma_key_index(old(self)@, k@);
        }
        let n = self.pairs.len();
        let mut i: usize = 0;
        while i < n
            invariant
                i <= n,
                n == self@.len(),
                self@ == old(self)@,
                self@.len() == self.pairs@.len(),
                forall|j: int| 0 <= j < i ==> self@[j].0 != k@,
            decreases n - i,
        {
            if crate::chars::str_eq(self.pairs[i].0.as_str(), k.as_str()) {
                proof {
                    lemma_key_index_at(old(self)@, k@, i as int);
                }
                self.pairs.remove(i);
                self.pairs.insert(i, (k, v));
                proof {
                    assert(self@ =~= spec_insert(old(self)@, k@, v@));
                    if old(self).wf() {
                        assert forall|a: int, b: int|
                            0 <= a < b < self@.len() implies self@[a].0 != self@[b].0 by {
                            if a != i as int {
                                assert(self@[a] == old(self)@[a]);
                            }
                            if b != i as int {
                                assert(self@[b] == old(self)@[b]);
                            }
                            assert(old(self)@[i as int].0 == k@);
                        }
                    }
                }
                return;
            }
            i = i + 1;
        }
        self.pairs.push((k, v));
        proof {
            assert(self@ =~= spec_insert(old(self)@, k@, v@));
            if old(self).wf() {
                assert forall|a: int, b: int|
                    0 <= a < b < self@.len() implies self@[a].0 != self@[b].0 by {
                    if b < old(self)@.len() {
                        assert(self@[a] == old(self)@[a]);
                        assert(self@[b] == old(self)@[b]);
                    } else {
                        assert(self@[b].0 == k@);
                        assert(self@[a] == old(self)@[a]);
                    }
                }
            }
        }
    }
}

} // verus!
