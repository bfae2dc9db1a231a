//! A mapping from names to strings: locked versions, version constraints,
//! content digests.
use vstd::prelude::*;
use crate::keyed::{keyed, keys_unique, lemma_keyed_domain, lemma_keyed_push, lemma_keyed_update, lemma_keyed_value};

verus! {

/// A name → string mapping whose entries keep the order in which their
/// names were first inserted. No name occurs twice.
pub struct StrMap {
    entries: Vec<(String, String)>,
}

/// The pairs of a vector of string pairs, as character sequences.
pub open spec fn str_pairs(v: Seq<(String, String)>) -> Seq<(Seq<char>, Seq<char>)> {
    v.map_values(|e: (String, String)| (e.0@, e.1@))
}

impl View for StrMap {
    type V = Map<Seq<char>, Seq<char>>;

    closed spec fn view(&self) -> Map<Seq<char>, Seq<char>> {
        keyed(str_pairs(self.entries@))
    }
}

impl StrMap {
    /// The entries, in order, as character sequences.
    pub closed spec fn pairs(&self) -> Seq<(Seq<char>, Seq<char>)> {
        str_pairs(self.entries@)
    }

    /// No name occurs twice, and the view is what the entries describe.
    pub closed spec fn wf(&self) -> bool {
        keys_unique(self.pairs())
    }

    /// The empty mapping.
    pub fn new() -> (r: StrMap)
        ensures
            r.wf(),
            r@ == Map::<Seq<char>, Seq<char>>::empty(),
            r.pairs().len() == 0,
    {
        let r = StrMap { entries: Vec::new() };
        assert(r.pairs() =~= Seq::empty());
        r
    }

    /// Number of entries.
    pub fn len(&self) -> (r: usize)
        ensures
            r == self.pairs().len(),
    {
        self.entries.len()
    }

    fn find(&self, k: &String) -> (r: Option<usize>)
        ensures
            match r {
                Some(i) => i < self.pairs().len() && self.pairs()[i as int].0 == k@,
                None => forall|i: int| 0 <= i < self.pairs().len() ==> self.pairs()[i].0 != k@,
            },
    {
        let mut i: usize = 0;
        while i < self.entries.len()
            invariant
                i <= self.entries@.len(),
                forall|j: int| 0 <= j < i ==> self.pairs()[j].0 != k@,
            decreases self.entries@.len() - i,
        {
            if self.entries[i].0 == *k {
                return Some(i);
            }
            i = i + 1;
        }
        None
    }

    /// The string stored under `k`, if any.
    pub fn get(&self, k: &String) -> (r: Option<&String>)
        requires
            self.wf(),
        ensures
            match r {
                Some(v) => self@.contains_key(k@) && self@[k@] == v@,
                None => !self@.contains_key(k@),
            },
    {
        proof {
            lemma_keyed_domain(self.pairs(), k@);
        }
        match self.find(k) {
            Some(i) => {
                proof {
                    lemma_keyed_value(self.pairs(), i as int);
                }
                Some(&self.entries[i].1)
            },
            None => None,
        }
    }

    /// Stores `v` under `k`: an existing entry is overwritten in place, a new
    /// name is appended.
    pub fn insert(&mut self, k: String, v: String)
        requires
            old(self).wf(),
        ensures
            final(self).wf(),
            final(self)@ == old(self)@.insert(k@, v@),
            old(self)@.contains_key(k@) ==> final(self).pairs().len() == old(self).pairs().len(),
            !old(self)@.contains_key(k@) ==> final(self).pairs().len() == old(self).pairs().len() + 1,
    {
        proof {
            lemma_keyed_domain(self.pairs(), k@);
        }
        match self.find(&k) {
            Some(i) => {
                let ghost s = self.pairs();
                proof {
                    lemma_keyed_update(s, i as int, v@);
                }
                self.entries[i] = (k, v);
                assert(self.pairs() =~= s.update(i as int, (s[i as int].0, v@)));
            },
            None => {
                let ghost s = self.pairs();
                let ghost kv = (k@, v@);
                self.entries.push((k, v));
                proof {
                    lemma_keyed_push(s, kv.0, kv.1);
                }
                assert(self.pairs() =~= s.push(kv));
            },
        }
    }

    /// The mapping that a sequence of pairs describes; of two pairs with one
    /// name, the later wins.
    pub fn from_pairs(pairs: Vec<(String, String)>) -> (r: StrMap)
        ensures
            r.wf(),
            r@ == keyed(str_pairs(pairs@)),
    {
        let mut r = StrMap::new();
        let mut i: usize = 0;
        while i < pairs.len()
            invariant
                i <= pairs@.len(),
                r.wf(),
                r@ == keyed(str_pairs(pairs@).subrange(0, i as int)),
            decreases pairs@.len() - i,
        {
            let ghost before = str_pairs(pairs@).subrange(0, i as int);
            r.insert(pairs[i].0.clone(), pairs[i].1.clone());
            proof {
                let after = str_pairs(pairs@).subrange(0, i + 1);
                assert(after.drop_last() =~= before);
            }
            i = i + 1;
        }
        assert(str_pairs(pairs@).subrange(0, pairs@.len() as int) =~= str_pairs(pairs@));
        r
    }

    /// The names, in entry order: each name of the mapping exactly once.
    pub fn keys(&self) -> (r: Vec<String>)
        ensures
            r@.len() == self.pairs().len(),
            forall|i: int| 0 <= i < r@.len() ==> r@[i]@ == self.pairs()[i].0,
            forall|k: Seq<char>| self@.contains_key(k) <==> exists|i: int| 0 <= i < r@.len() && r@[i]@ == k,
            self.wf() ==> forall|i: int, j: int| 0 <= i < j < r@.len() ==> r@[i]@ != r@[j]@,
    {
        let mut r: Vec<String> = Vec::new();
        let mut i: usize = 0;
        while i < self.entries.len()
            invariant
                i <= self.entries@.len(),
                r@.len() == i,
                forall|j: int| 0 <= j < i ==> r@[j]@ == self.pairs()[j].0,
            decreases self.entries@.len() - i,
        {
            r.push(self.entries[i].0.clone());
            i = i + 1;
        }
        assert forall|k: Seq<char>| self@.contains_key(k) <==> exists|i: int| 0 <= i < r@.len() && r@[i]@ == k by {
            lemma_keyed_domain(self.pairs(), k);
            if self@.contains_key(k) {
                let i = choose|i: int| 0 <= i < self.pairs().len() && self.pairs()[i].0 == k;
                assert(r@[i]@ == k);
            }
            if exists|i: int| 0 <= i < r@.len() && r@[i]@ == k {
                let i = choose|i: int| 0 <= i < r@.len() && r@[i]@ == k;
                assert(self.pairs()[i].0 == k);
            }
        }
        r
    }
}

} // verus!
