//! An append-only table that hands out sequential indices to first-seen
//! type identities.
use vstd::prelude::*;
use vstd::set_lib::{lemma_int_range, lemma_len_subset, set_int_range};

use crate::meta_type::TypeId;

verus! {

/// The index handed to the first key of an interner; later keys follow one
/// by one.
pub const INDEX_BASE: u64 = 1;

/// The number of distinct identities that exist.
pub open spec fn identity_space() -> int {
    0x1_0000_0000
}

/// Assigns stable sequential indices to keys in the order they are first seen.
pub struct Interner {
    keys: Vec<TypeId>,
}

/// A sequence of distinct identities is never longer than the identity space.
pub proof fn lemma_distinct_ids_bounded(ks: Seq<TypeId>)
    requires
        ks.no_duplicates(),
    ensures
        ks.len() <= identity_space(),
{
    let ns = ks.map_values(|k: TypeId| k.0 as int);
    assert forall|i: int, j: int| 0 <= i < ns.len() && 0 <= j < ns.len() && i != j implies ns[i]
        != ns[j] by {
        assert(ks[i] != ks[j]);
    }
    ns.unique_seq_to_set();
    lemma_int_range(0, identity_space());
    assert forall|n: int| ns.to_set().contains(n) implies set_int_range(
        0,
        identity_space(),
    ).contains(n) by {
        let i = choose|i: int| 0 <= i < ns.len() && ns[i] == n;
        assert(ns[i] == ks[i].0 as int);
    }
    lemma_len_subset(ns.to_set(), set_int_range(0, identity_space()));
}

impl Interner {
    /// The keys, in the order their indices were assigned.
    pub closed spec fn view(&self) -> Seq<TypeId> {
        self.keys@
    }

    /// No key is held twice.
    pub open spec fn wf(&self) -> bool {
        self@.no_duplicates()
    }

    /// Creates an interner that holds no key.
    pub fn new() -> (r: Interner)
        ensures
            r.wf(),
            r@ == Seq::<TypeId>::empty(),
    {
        Interner { keys: Vec::new() }
    }

    /// The number of keys held.
    pub fn len(&self) -> (r: usize)
        ensures
            r == self@.len(),
    {
        self.keys.len()
    }

    /// The position of `key`, if it is held.
    fn position(&self, key: TypeId) -> (r: Option<usize>)
        ensures
            match r {
                Some(p) => p < self@.len() && self@[p as int] == key,
                None => !self@.contains(key),
            },
    {
        let mut i: usize = 0;
        while i < self.keys.len()
            invariant
                i <= self.keys@.len(),
                forall|j: int| 0 <= j < i ==> self.keys@[j] != key,
            decreases self.keys@.len() - i,
        {
            if self.keys[i] == key {
                return Some(i);
            }
            i = i + 1;
        }
        None
    }

    /// The index of `key`, if it has one.
    pub fn get(&self, key: TypeId) -> (r: Option<u64>)
        requires
            self.wf(),
        ensures
            match r {
                Some(i) => INDEX_BASE <= i < self@.len() + INDEX_BASE && self@[i - INDEX_BASE] == key,
                None => !self@.contains(key),
            },
    {
        proof {
            lemma_distinct_ids_bounded(self@);
        }
        match self.position(key) {
            Some(p) => Some(p as u64 + INDEX_BASE),
            None => None,
        }
    }

    /// The key that carries index `index`, if any does.
    pub fn resolve(&self, index: u64) -> (r: Option<TypeId>)
        ensures
            match r {
                Some(k) => INDEX_BASE <= index < self@.len() + INDEX_BASE && k == self@[index
                    - INDEX_BASE],
                None => !(INDEX_BASE <= index < self@.len() + INDEX_BASE),
            },
    {
        if index >= INDEX_BASE && index - INDEX_BASE < self.keys.len() as u64 {
            Some(self.keys[(index - INDEX_BASE) as usize])
        } else {
            None
        }
    }

    /// Returns whether `key` was new, and its index: the one it had, or else
    /// the next one in sequence, which it now holds.
    pub fn intern_or_get(&mut self, key: TypeId) -> (r: (bool, u64))
        requires
            old(self).wf(),
        ensures
            final(self).wf(),
            r.0 == !old(self)@.contains(key),
            r.0 ==> final(self)@ == old(self)@.push(key),
            !r.0 ==> final(self)@ == old(self)@,
            INDEX_BASE <= r.1 < final(self)@.len() + INDEX_BASE,
            final(self)@[r.1 - INDEX_BASE] == key,
            r.0 ==> r.1 == old(self)@.len() + INDEX_BASE,
    {
        match self.position(key) {
            Some(p) => {
                proof {
                    lemma_distinct_ids_bounded(self@);
                }
                (false, p as u64 + INDEX_BASE)
            },
            None => {
                let p: usize = self.keys.len();
                self.keys.push(key);
                proof {
                    assert(self@.no_duplicates());
                    lemma_distinct_ids_bounded(self@);
                }
                (true, p as u64 + INDEX_BASE)
            },
        }
    }
}

} // verus!
