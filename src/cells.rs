//! A set of live cells.
use std::collections::HashSet;
use vstd::prelude::*;
use vstd::std_specs::iter::IteratorSpec;
use crate::pos::{
    cell_key, key_of, key_pos, lemma_key_bounds, lemma_key_injective, lemma_pos_of_key, pos_of, Pos,
};

verus! {

broadcast use vstd::std_specs::hash::group_hash_axioms;

/// A set of grid positions, held as a hash set of packed keys.
pub struct LiveSet {
    keys: HashSet<u64>,
}

impl View for LiveSet {
    type V = Set<Pos>;

    closed spec fn view(&self) -> Set<Pos> {
        self.keys@.map(|k: u64| pos_of(k))
    }
}

impl LiveSet {
    proof fn lemma_view_contains(&self, p: Pos)
        ensures
            self@.contains(p) <==> self.keys@.contains(key_of(p) as u64),
    {
        crate::pos::lemma_key_bounds(p);
        if self@.contains(p) {
            let k = choose|k: u64| self.keys@.contains(k) && pos_of(k) == p;
            lemma_pos_of_key(k);
        }
        if self.keys@.contains(key_of(p) as u64) {
            assert(self@.contains(pos_of(key_of(p) as u64)));
        }
    }

    proof fn lemma_view_len(&self)
        ensures
            self@.finite(),
            self@.len() == self.keys@.len(),
    {
        broadcast use vstd::seq_lib::seq_to_set_is_finite;
        let ks = vstd::std_specs::hash::spec_hash_keys_iter(&self.keys).remaining().unref();
        assert(ks.to_set() == self.keys@);
        assert forall|a: u64, b: u64| self.keys@.contains(a) && self.keys@.contains(b) && pos_of(a) == pos_of(b) implies a == b by {
            lemma_pos_of_key(a);
            lemma_pos_of_key(b);
        }
        let f = |k: u64| pos_of(k);
        assert(vstd::relations::injective_on(f, self.keys@));
        vstd::set_lib::lemma_map_size(self.keys@, self@, f);
    }

    /// The number of members.
    pub fn len(&self) -> (r: usize)
        ensures
            r == self@.len(),
            self@.finite(),
    {
        proof {
            self.lemma_view_len();
        }
        self.keys.len()
    }

    /// Empties the set.
    pub fn clear(&mut self)
        ensures
            final(self)@ == Set::<Pos>::empty(),
    {
        self.keys.clear();
        assert(final(self)@ =~= Set::<Pos>::empty());
    }

    /// The empty set.
    pub fn new() -> (s: LiveSet)
        ensures
            s@ == Set::<Pos>::empty(),
    {
        let s = LiveSet { keys: HashSet::new() };
        assert(s@ =~= Set::<Pos>::empty());
        s
    }

    /// Whether `p` is in the set.
    pub fn contains(&self, p: Pos) -> (r: bool)
        ensures
            r == self@.contains(p),
    {
        proof {
            self.lemma_view_contains(p);
        }
        let k = cell_key(p);
        self.keys.contains(&k)
    }

    /// Adds `p`.
    pub fn insert(&mut self, p: Pos)
        ensures
            final(self)@ == old(self)@.insert(p),
    {
        let k = cell_key(p);
        self.keys.insert(k);
        proof {
            lemma_key_bounds(p);
            assert forall|q: Pos| final(self)@.contains(q) <==> old(self)@.insert(p).contains(q) by {
                self.lemma_view_contains(q);
                old(self).lemma_view_contains(q);
                lemma_key_injective(p, q);
                lemma_key_bounds(q);
            }
            assert(final(self)@ =~= old(self)@.insert(p));
        }
    }

    /// Removes `p`.
    pub fn remove(&mut self, p: Pos)
        ensures
            final(self)@ == old(self)@.remove(p),
    {
        let k = cell_key(p);
        self.keys.remove(&k);
        proof {
            lemma_key_bounds(p);
            assert forall|q: Pos| final(self)@.contains(q) <==> old(self)@.remove(p).contains(q) by {
                self.lemma_view_contains(q);
                old(self).lemma_view_contains(q);
                lemma_key_injective(p, q);
                lemma_key_bounds(q);
            }
            assert(final(self)@ =~= old(self)@.remove(p));
        }
    }

    /// A second set with the same members.
    pub fn copy(&self) -> (r: LiveSet)
        ensures
            r@ == self@,
    {
        let mut r = LiveSet::new();
        let v = self.positions();
        let mut i: usize = 0;
        while i < v.len()
            invariant
                0 <= i <= v.len(),
                v@.to_set() == self@,
                r@ == v@.take(i as int).to_set(),
            decreases v.len() - i,
        {
            proof {
                assert(v@.take(i as int + 1) =~= v@.take(i as int).push(v@[i as int]));
                v@.take(i as int).lemma_push_to_set_commute(v@[i as int]);
            }
            r.insert(v[i]);
            i = i + 1;
        }
        assert(v@.take(v.len() as int) =~= v@);
        r
    }

    /// The members, each once, in no particular order.
    pub fn positions(&self) -> (v: Vec<Pos>)
        ensures
            v@.to_set() == self@,
            v@.no_duplicates(),
            v@.len() == self@.len(),
            self@.finite(),
    {
        let mut v: Vec<Pos> = Vec::new();
        let ghost ks = self.keys.iter().remaining().unref();
        for k in it: self.keys.iter()
            invariant
                it.seq().unref() == ks,
                v@.len() == it.index(),
                forall|j: int| 0 <= j < it.index() ==> v@[j] == pos_of(ks[j]),
        {
            let p = key_pos(*k);
            v.push(p);
        }
        proof {
            broadcast use vstd::seq_lib::seq_to_set_is_finite;
            assert(ks.to_set() == self.keys@ && ks.no_duplicates() && ks.len() == self.keys@.len());
            assert(v@ =~= ks.map_values(|k: u64| pos_of(k)));
            assert forall|p: Pos| v@.to_set().contains(p) <==> self@.contains(p) by {
                if self@.contains(p) {
                    let k = choose|k: u64| self.keys@.contains(k) && pos_of(k) == p;
                    assert(ks.contains(k));
                    let j = choose|j: int| 0 <= j < ks.len() && ks[j] == k;
                    assert(v@[j] == p);
                }
                if v@.to_set().contains(p) {
                    let j = choose|j: int| 0 <= j < v@.len() && v@[j] == p;
                    assert(ks.to_set().contains(ks[j]));
                }
            }
            assert(v@.to_set() =~= self@);
            assert forall|i: int, j: int| 0 <= i < v@.len() && 0 <= j < v@.len() && i != j implies v@[i] != v@[j] by {
                lemma_pos_of_key(ks[i]);
                lemma_pos_of_key(ks[j]);
                assert(ks[i] != ks[j]);
            }
            assert(v@.no_duplicates());
            v@.unique_seq_to_set();
        }
        v
    }
}

} // verus!
