use vstd::prelude::*;

use crate::text::{chars_eq, copy_chars};

verus! {

// ---------------------------------------------------------------------------
// Association lists keyed by character strings
//
// The engine needs small maps from unlabeled identifiers to hash values and
// to partner identifiers. They are kept as vectors of entries with pairwise
// distinct keys, viewed as a `Map<Seq<char>, _>`; iteration order is the
// insertion order, so every walk over them is deterministic.
// ---------------------------------------------------------------------------

/// The views of the keys of an entry list.
pub open spec fn hash_keys(entries: Seq<(Vec<char>, u64)>) -> Seq<Seq<char>> {
    entries.map_values(|e: (Vec<char>, u64)| e.0@)
}

/// The map an entry list denotes (later entries shadow earlier ones, but the
/// keys are kept distinct).
pub open spec fn hash_map_of(entries: Seq<(Vec<char>, u64)>) -> Map<Seq<char>, u64>
    decreases entries.len(),
{
    if entries.len() == 0 {
        Map::empty()
    } else {
        hash_map_of(entries.drop_last()).insert(entries.last().0@, entries.last().1)
    }
}

pub proof fn lemma_hash_map_dom(entries: Seq<(Vec<char>, u64)>)
    ensures
        hash_map_of(entries).dom() =~= hash_keys(entries).to_set(),
    decreases entries.len(),
{
    if entries.len() > 0 {
        lemma_hash_map_dom(entries.drop_last());
        assert(hash_keys(entries).drop_last() =~= hash_keys(entries.drop_last()));
        assert forall|k: Seq<char>| hash_keys(entries).to_set().contains(k) implies hash_map_of(
            entries).dom().contains(k) by {
            let i = choose|i: int| 0 <= i < hash_keys(entries).len() && hash_keys(entries)[i] == k;
            if i < entries.len() - 1 {
                assert(hash_keys(entries.drop_last())[i] == k);
                assert(hash_keys(entries.drop_last()).to_set().contains(k));
            }
        }
        assert forall|k: Seq<char>| hash_map_of(entries).dom().contains(k) implies hash_keys(
            entries).to_set().contains(k) by {
            if k == entries.last().0@ {
                assert(hash_keys(entries)[entries.len() - 1] == k);
            } else {
                let i = choose|i: int|
                    0 <= i < hash_keys(entries.drop_last()).len() && hash_keys(
                        entries.drop_last())[i] == k;
                assert(hash_keys(entries)[i] == k);
            }
        }
    }
}

pub proof fn lemma_hash_map_entry(entries: Seq<(Vec<char>, u64)>, i: int)
    requires
        hash_keys(entries).no_duplicates(),
        0 <= i < entries.len(),
    ensures
        hash_map_of(entries).dom().contains(entries[i].0@),
        hash_map_of(entries)[entries[i].0@] == entries[i].1,
    decreases entries.len(),
{
    if i == entries.len() - 1 {
    } else {
        assert(hash_keys(entries).drop_last() =~= hash_keys(entries.drop_last()));
        lemma_hash_map_entry(entries.drop_last(), i);
        assert(hash_keys(entries)[i] != hash_keys(entries)[entries.len() - 1]);
    }
}

/// A map from unlabeled identifiers to 64-bit hash values.
pub struct HashAssoc {
    pub entries: Vec<(Vec<char>, u64)>,
}

impl View for HashAssoc {
    type V = Map<Seq<char>, u64>;

    open spec fn view(&self) -> Map<Seq<char>, u64> {
        hash_map_of(self.entries@)
    }
}

impl HashAssoc {
    /// Keys are pairwise distinct.
    pub open spec fn wf(&self) -> bool {
        hash_keys(self.entries@).no_duplicates()
    }

    /// The key views, in insertion order.
    pub open spec fn keys(&self) -> Seq<Seq<char>> {
        hash_keys(self.entries@)
    }

    pub fn new() -> (r: Self)
        ensures
            r.wf(),
            r@ == Map::<Seq<char>, u64>::empty(),
            r.entries@.len() == 0,
    {
        HashAssoc { entries: Vec::new() }
    }

    pub fn len(&self) -> (r: usize)
        ensures
            r == self.entries@.len(),
    {
        self.entries.len()
    }

    /// A copy with the same entries.
    pub fn duplicate(&self) -> (r: Self)
        ensures
            r.entries@.len() == self.entries@.len(),
            forall|i: int|
                0 <= i < self.entries@.len() ==> #[trigger] r.entries@[i].0@ == self.entries@[i].0@
                    && r.entries@[i].1 == self.entries@[i].1,
            r.keys() =~= self.keys(),
            r@ == self@,
            r.wf() == self.wf(),
    {
        let mut entries: Vec<(Vec<char>, u64)> = Vec::new();
        let mut i: usize = 0;
        while i < self.entries.len()
            invariant
                i <= self.entries@.len(),
                entries@.len() == i,
                forall|j: int|
                    0 <= j < i ==> #[trigger] entries@[j].0@ == self.entries@[j].0@ && entries@[
                        j].1 == self.entries@[j].1,
            decreases self.entries@.len() - i,
        {
            let k = copy_chars(&self.entries[i].0);
            let v = self.entries[i].1;
            entries.push((k, v));
            i = i + 1;
        }
        let r = HashAssoc { entries };
        proof {
            assert(hash_keys(r.entries@) =~= hash_keys(self.entries@));
            lemma_hash_map_congruent(r.entries@, self.entries@);
        }
        r
    }

    pub fn contains_key(&self, k: &Vec<char>) -> (r: bool)
        requires
            self.wf(),
        ensures
            r == self@.dom().contains(k@),
    {
        proof {
            lemma_hash_map_dom(self.entries@);
        }
        let mut i: usize = 0;
        while i < self.entries.len()
            invariant
                self.wf(),
                self@.dom() == hash_keys(self.entries@).to_set(),
                i <= self.entries@.len(),
                forall|j: int| 0 <= j < i ==> #[trigger] self.entries@[j].0@ != k@,
            decreases self.entries@.len() - i,
        {
            if chars_eq(&self.entries[i].0, k) {
                proof {
                    assert(hash_keys(self.entries@)[i as int] == k@);
                    assert(hash_keys(self.entries@).to_set().contains(k@));
                }
                return true;
            }
            i = i + 1;
        }
        proof {
            if self@.dom().contains(k@) {
                let j = choose|j: int|
                    0 <= j < hash_keys(self.entries@).len() && hash_keys(self.entries@)[j] == k@;
                assert(self.entries@[j].0@ == k@);
            }
        }
        false
    }

    pub fn get(&self, k: &Vec<char>) -> (r: Option<u64>)
        requires
            self.wf(),
        ensures
            r matches Some(v) ==> self@.dom().contains(k@) && self@[k@] == v,
            r is None ==> !self@.dom().contains(k@),
    {
        proof {
            lemma_hash_map_dom(self.entries@);
        }
        let mut i: usize = 0;
        while i < self.entries.len()
            invariant
                self.wf(),
                self@.dom() == hash_keys(self.entries@).to_set(),
                i <= self.entries@.len(),
                forall|j: int| 0 <= j < i ==> #[trigger] self.entries@[j].0@ != k@,
            decreases self.entries@.len() - i,
        {
            if chars_eq(&self.entries[i].0, k) {
                proof {
                    lemma_hash_map_entry(self.entries@, i as int);
                }
                return Some(self.entries[i].1);
            }
            i = i + 1;
        }
        proof {
            if self@.dom().contains(k@) {
                let j = choose|j: int|
                    0 <= j < hash_keys(self.entries@).len() && hash_keys(self.entries@)[j] == k@;
                assert(self.entries@[j].0@ == k@);
            }
        }
        None
    }

    /// Inserts a binding for a key that is not yet present.
    pub fn insert(&mut self, k: Vec<char>, v: u64)
        requires
            old(self).wf(),
            !old(self)@.dom().contains(k@),
        ensures
            final(self).wf(),
            final(self)@ == old(self)@.insert(k@, v),
            final(self).entries@ == old(self).entries@.push((k, v)),
            final(self).keys() =~= old(self).keys().push(k@),
    {
        proof {
            lemma_hash_map_dom(self.entries@);
        }
        let ghost olde = self.entries@;
        self.entries.push((k, v));
        proof {
            assert(self.entries@.drop_last() =~= olde);
            assert(hash_keys(self.entries@) =~= hash_keys(olde).push(k@));
            assert forall|j: int| 0 <= j < olde.len() implies hash_keys(self.entries@)[j] != k@ by {
                if hash_keys(olde)[j] == k@ {
                    assert(hash_keys(olde).to_set().contains(k@));
                }
            }
            assert(hash_keys(self.entries@).no_duplicates());
        }
    }

    /// True when some entry carries the value `v`.
    pub fn contains_value(&self, v: u64) -> (r: bool)
        ensures
            r == exists|i: int| 0 <= i < self.entries@.len() && #[trigger] self.entries@[i].1 == v,
    {
        let mut i: usize = 0;
        while i < self.entries.len()
            invariant
                i <= self.entries@.len(),
                forall|j: int| 0 <= j < i ==> #[trigger] self.entries@[j].1 != v,
            decreases self.entries@.len() - i,
        {
            if self.entries[i].1 == v {
                return true;
            }
            i = i + 1;
        }
        false
    }
}

proof fn lemma_hash_map_congruent(a: Seq<(Vec<char>, u64)>, b: Seq<(Vec<char>, u64)>)
    requires
        a.len() == b.len(),
        forall|i: int| 0 <= i < a.len() ==> #[trigger] a[i].0@ == b[i].0@ && a[i].1 == b[i].1,
    ensures
        hash_map_of(a) == hash_map_of(b),
    decreases a.len(),
{
    if a.len() > 0 {
        lemma_hash_map_congruent(a.drop_last(), b.drop_last());
    }
}

// ---------------------------------------------------------------------------
// Pair lists: a candidate bijection between unlabeled identifiers
// ---------------------------------------------------------------------------

pub open spec fn pair_keys(entries: Seq<(Vec<char>, Vec<char>)>) -> Seq<Seq<char>> {
    entries.map_values(|e: (Vec<char>, Vec<char>)| e.0@)
}

pub open spec fn pair_vals(entries: Seq<(Vec<char>, Vec<char>)>) -> Seq<Seq<char>> {
    entries.map_values(|e: (Vec<char>, Vec<char>)| e.1@)
}

pub open spec fn pair_map_of(entries: Seq<(Vec<char>, Vec<char>)>) -> Map<Seq<char>, Seq<char>>
    decreases entries.len(),
{
    if entries.len() == 0 {
        Map::empty()
    } else {
        pair_map_of(entries.drop_last()).insert(entries.last().0@, entries.last().1@)
    }
}

pub proof fn lemma_pair_map_dom(entries: Seq<(Vec<char>, Vec<char>)>)
    ensures
        pair_map_of(entries).dom() =~= pair_keys(entries).to_set(),
    decreases entries.len(),
{
    if entries.len() > 0 {
        lemma_pair_map_dom(entries.drop_last());
        assert(pair_keys(entries).drop_last() =~= pair_keys(entries.drop_last()));
        assert forall|k: Seq<char>| pair_keys(entries).to_set().contains(k) implies pair_map_of(
            entries).dom().contains(k) by {
            let i = choose|i: int| 0 <= i < pair_keys(entries).len() && pair_keys(entries)[i] == k;
            if i < entries.len() - 1 {
                assert(pair_keys(entries.drop_last())[i] == k);
                assert(pair_keys(entries.drop_last()).to_set().contains(k));
            }
        }
        assert forall|k: Seq<char>| pair_map_of(entries).dom().contains(k) implies pair_keys(
            entries).to_set().contains(k) by {
            if k == entries.last().0@ {
                assert(pair_keys(entries)[entries.len() - 1] == k);
            } else {
                let i = choose|i: int|
                    0 <= i < pair_keys(entries.drop_last()).len() && pair_keys(
                        entries.drop_last())[i] == k;
                assert(pair_keys(entries)[i] == k);
            }
        }
    }
}

pub proof fn lemma_pair_map_entry(entries: Seq<(Vec<char>, Vec<char>)>, i: int)
    requires
        pair_keys(entries).no_duplicates(),
        0 <= i < entries.len(),
    ensures
        pair_map_of(entries).dom().contains(entries[i].0@),
        pair_map_of(entries)[entries[i].0@] == entries[i].1@,
    decreases entries.len(),
{
    if i == entries.len() - 1 {
    } else {
        assert(pair_keys(entries).drop_last() =~= pair_keys(entries.drop_last()));
        lemma_pair_map_entry(entries.drop_last(), i);
        assert(pair_keys(entries)[i] != pair_keys(entries)[entries.len() - 1]);
    }
}

/// An ordered list of (left, right) identifier pairs with distinct left keys
/// and distinct right values: a candidate bijection.
pub struct NodePairs {
    pub entries: Vec<(Vec<char>, Vec<char>)>,
}

impl View for NodePairs {
    type V = Map<Seq<char>, Seq<char>>;

    open spec fn view(&self) -> Map<Seq<char>, Seq<char>> {
        pair_map_of(self.entries@)
    }
}

impl NodePairs {
    pub open spec fn wf(&self) -> bool {
        pair_keys(self.entries@).no_duplicates() && pair_vals(self.entries@).no_duplicates()
    }

    pub open spec fn keys(&self) -> Seq<Seq<char>> {
        pair_keys(self.entries@)
    }

    pub open spec fn vals(&self) -> Seq<Seq<char>> {
        pair_vals(self.entries@)
    }

    pub fn new() -> (r: Self)
        ensures
            r.wf(),
            r@ == Map::<Seq<char>, Seq<char>>::empty(),
            r.entries@.len() == 0,
    {
        NodePairs { entries: Vec::new() }
    }

    pub fn len(&self) -> (r: usize)
        ensures
            r == self.entries@.len(),
    {
        self.entries.len()
    }

    pub fn get(&self, k: &Vec<char>) -> (r: Option<&Vec<char>>)
        requires
            self.wf(),
        ensures
            r matches Some(v) ==> self@.dom().contains(k@) && self@[k@] == v@,
            r is None ==> !self@.dom().contains(k@),
    {
        proof {
            lemma_pair_map_dom(self.entries@);
        }
        let mut i: usize = 0;
        while i < self.entries.len()
            invariant
                self.wf(),
                self@.dom() == pair_keys(self.entries@).to_set(),
                i <= self.entries@.len(),
                forall|j: int| 0 <= j < i ==> #[trigger] self.entries@[j].0@ != k@,
            decreases self.entries@.len() - i,
        {
            if chars_eq(&self.entries[i].0, k) {
                proof {
                    lemma_pair_map_entry(self.entries@, i as int);
                }
                return Some(&self.entries[i].1);
            }
            i = i + 1;
        }
        proof {
            if self@.dom().contains(k@) {
                let j = choose|j: int|
                    0 <= j < pair_keys(self.entries@).len() && pair_keys(self.entries@)[j] == k@;
                assert(self.entries@[j].0@ == k@);
            }
        }
        None
    }

    /// True when some pair's right side is `v`.
    pub fn uses_value(&self, v: &Vec<char>) -> (r: bool)
        ensures
            r == self.vals().contains(v@),
    {
        let mut i: usize = 0;
        while i < self.entries.len()
            invariant
                i <= self.entries@.len(),
                forall|j: int| 0 <= j < i ==> #[trigger] self.entries@[j].1@ != v@,
            decreases self.entries@.len() - i,
        {
            if chars_eq(&self.entries[i].1, v) {
                proof {
                    assert(pair_vals(self.entries@)[i as int] == v@);
                }
                return true;
            }
            i = i + 1;
        }
        proof {
            if self.vals().contains(v@) {
                let j = choose|j: int|
                    0 <= j < pair_vals(self.entries@).len() && pair_vals(self.entries@)[j] == v@;
                assert(self.entries@[j].1@ == v@);
            }
        }
        false
    }

    /// Inserts a pair whose two sides are both fresh.
    pub fn insert(&mut self, k: Vec<char>, v: Vec<char>)
        requires
            old(self).wf(),
            !old(self).keys().contains(k@),
            !old(self).vals().contains(v@),
        ensures
            final(self).wf(),
            final(self)@ == old(self)@.insert(k@, v@),
            final(self).entries@ == old(self).entries@.push((k, v)),
            final(self).keys() =~= old(self).keys().push(k@),
            final(self).vals() =~= old(self).vals().push(v@),
    {
        let ghost olde = self.entries@;
        self.entries.push((k, v));
        proof {
            assert(self.entries@.drop_last() =~= olde);
            assert(pair_keys(self.entries@) =~= pair_keys(olde).push(k@));
            assert(pair_vals(self.entries@) =~= pair_vals(olde).push(v@));
        }
    }
}

} // verus!
