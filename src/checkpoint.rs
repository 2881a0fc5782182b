use vstd::prelude::*;

use crate::exclusion::same_text;
use crate::text::{is_prefix, str_starts_with, walk_key_prefix};

verus! {

/// A string key/value store. The map lives in memory; `location` names where
/// the application keeps it between runs.
pub struct KvStore {
    location: String,
    keys: Vec<String>,
    vals: Vec<String>,
}

impl View for KvStore {
    type V = Map<Seq<char>, Seq<char>>;

    closed spec fn view(&self) -> Map<Seq<char>, Seq<char>> {
        Map::new(
            |k: Seq<char>| self.has_key(k),
            |k: Seq<char>| self.vals@[self.slot(k)]@,
        )
    }
}

impl KvStore {
    closed spec fn has_key(&self, k: Seq<char>) -> bool {
        exists|i: int| 0 <= i < self.keys@.len() && #[trigger] self.keys@[i]@ == k
    }

    closed spec fn slot(&self, k: Seq<char>) -> int {
        choose|i: int| 0 <= i < self.keys@.len() && #[trigger] self.keys@[i]@ == k
    }

    /// Keys and values pair up, and no key is stored twice.
    pub closed spec fn wf(&self) -> bool {
        &&& self.keys@.len() == self.vals@.len()
        &&& forall|i: int, j: int|
            0 <= i < j < self.keys@.len() ==> #[trigger] self.keys@[i]@ != #[trigger] self.keys@[j]@
    }

    /// Where the application keeps this store.
    pub closed spec fn location_spec(&self) -> Seq<char> {
        self.location@
    }

    proof fn lemma_slot(&self, i: int)
        requires
            self.wf(),
            0 <= i < self.keys@.len(),
        ensures
            self@.contains_key(self.keys@[i]@),
            self.slot(self.keys@[i]@) == i,
            self@[self.keys@[i]@] == self.vals@[i]@,
    {
        let k = self.keys@[i]@;
        assert(self.has_key(k));
        let j = self.slot(k);
        if j != i {
            if j < i {
                assert(self.keys@[j]@ != self.keys@[i]@);
            } else {
                assert(self.keys@[i]@ != self.keys@[j]@);
            }
        }
    }

    /// An empty store kept at `location`.
    pub fn new(location: &str) -> (r: KvStore)
        ensures
            r.wf(),
            r@ == Map::<Seq<char>, Seq<char>>::empty(),
            r.location_spec() == location@,
    {
        let r = KvStore { location: location.to_string(), keys: Vec::new(), vals: Vec::new() };
        assert(r@ =~= Map::<Seq<char>, Seq<char>>::empty());
        r
    }

    /// Where the application keeps this store.
    pub fn location(&self) -> (r: &String)
        ensures
            r@ == self.location_spec(),
    {
        &self.location
    }

    fn find(&self, key: &str) -> (r: Option<usize>)
        requires
            self.wf(),
        ensures
            r matches Some(i) ==> i < self.keys@.len() && self.keys@[i as int]@ == key@,
            r is None ==> !self@.contains_key(key@),
    {
        let mut i: usize = 0;
        while i < self.keys.len()
            invariant
                i <= self.keys@.len(),
                forall|j: int| 0 <= j < i ==> self.keys@[j]@ != key@,
            decreases self.keys@.len() - i,
        {
            if same_text(self.keys[i].as_str(), key) {
                return Some(i);
            }
            i = i + 1;
        }
        None
    }

    /// The number of stored keys.
    pub fn len(&self) -> (r: usize)
        requires
            self.wf(),
        ensures
            r == self@.dom().len(),
    {
        proof {
            self.lemma_dom_len();
        }
        self.keys.len()
    }

    proof fn lemma_dom_len(&self)
        requires
            self.wf(),
        ensures
            self@.dom().len() == self.keys@.len(),
            self@.dom() == self.keys@.map_values(|s: String| s@).to_set(),
    {
        let ks = self.keys@.map_values(|s: String| s@);
        assert forall|i: int, j: int| 0 <= i < j < ks.len() implies ks[i] != ks[j] by {
            assert(self.keys@[i]@ != self.keys@[j]@);
        }
        assert(ks.no_duplicates());
        ks.unique_seq_to_set();
        assert forall|k: Seq<char>| self@.dom().contains(k) <==> ks.to_set().contains(k) by {
            if self@.dom().contains(k) {
                let i = self.slot(k);
                assert(ks[i] == k);
            }
            if ks.to_set().contains(k) {
                let i = choose|i: int| 0 <= i < ks.len() && ks[i] == k;
                assert(self.keys@[i]@ == k);
            }
        }
        assert(self@.dom() =~= ks.to_set());
    }

    /// The `i`-th key and its value, in the order of first insertion.
    pub fn entry(&self, i: usize) -> (r: (&String, &String))
        requires
            self.wf(),
            i < self@.dom().len(),
        ensures
            self@.contains_key(r.0@),
            self@[r.0@] == r.1@,
    {
        proof {
            self.lemma_dom_len();
            self.lemma_slot(i as int);
        }
        (&self.keys[i], &self.vals[i])
    }

    /// The value stored under `key`, if any.
    pub fn get_str(&self, key: &str) -> (r: Option<String>)
        requires
            self.wf(),
        ensures
            r is Some <==> self@.contains_key(key@),
            r matches Some(v) ==> v@ == self@[key@],
    {
        match self.find(key) {
            Some(i) => {
                proof {
                    self.lemma_slot(i as int);
                }
                Some(self.vals[i].clone())
            },
            None => None,
        }
    }

    /// Stores `value` under `key`, replacing what was there.
    pub fn put_str(&mut self, key: String, value: String)
        requires
            old(self).wf(),
        ensures
            final(self).wf(),
            final(self)@ == old(self)@.insert(key@, value@),
            final(self).location_spec() == old(self).location_spec(),
    {
        let ghost pre = *self;
        match self.find(key.as_str()) {
            Some(i) => {
                self.vals.set(i, value);
                proof {
                    assert(self.keys@ == pre.keys@);
                    assert forall|k: Seq<char>|
                        #![trigger self@.contains_key(k)]
                        self@.contains_key(k) <==> pre@.contains_key(k) || k == key@ by {
                        if self.has_key(k) {
                            let j = self.slot(k);
                            assert(pre.keys@[j]@ == k);
                        }
                        if pre.has_key(k) {
                            let j = pre.slot(k);
                            assert(self.keys@[j]@ == k);
                        }
                        if k == key@ {
                            assert(self.keys@[i as int]@ == k);
                        }
                    }
                    assert forall|k: Seq<char>| #[trigger] self@.contains_key(k) implies self@[k]
                        == pre@.insert(key@, value@)[k] by {
                        let j = self.slot(k);
                        self.lemma_slot(j);
                        pre.lemma_slot(j);
                    }
                    assert(self@ =~= pre@.insert(key@, value@));
                }
            },
            None => {
                self.keys.push(key);
                self.vals.push(value);
                proof {
                    let n = pre.keys@.len() as int;
                    assert forall|i: int, j: int|
                        0 <= i < j < self.keys@.len() implies #[trigger] self.keys@[i]@
                        != #[trigger] self.keys@[j]@ by {
                        if j == n {
                            assert(pre.keys@[i]@ != key@) by {
                                if pre.keys@[i]@ == key@ {
                                    assert(pre.has_key(key@));
                                }
                            }
                        } else {
                            assert(pre.keys@[i]@ != pre.keys@[j]@);
                        }
                    }
                    assert forall|k: Seq<char>|
                        #![trigger self@.contains_key(k)]
                        self@.contains_key(k) <==> pre@.contains_key(k) || k == key@ by {
                        if self.has_key(k) {
                            let j = self.slot(k);
                            if j < n {
                                assert(pre.keys@[j]@ == k);
                            }
                        }
                        if pre.has_key(k) {
                            let j = pre.slot(k);
                            assert(self.keys@[j]@ == k);
                        }
                        if k == key@ {
                            assert(self.keys@[n]@ == k);
                        }
                    }
                    assert forall|k: Seq<char>| #[trigger] self@.contains_key(k) implies self@[k]
                        == pre@.insert(key@, value@)[k] by {
                        let j = self.slot(k);
                        self.lemma_slot(j);
                        if j < n {
                            pre.lemma_slot(j);
                        }
                    }
                    assert(self@ =~= pre@.insert(key@, value@));
                }
            },
        }
    }

    fn find_prefixed(&self, prefix: &str) -> (r: Option<usize>)
        requires
            self.wf(),
        ensures
            r matches Some(i) ==> i < self.keys@.len() && is_prefix(prefix@, self.keys@[i as int]@),
            r is None ==> forall|k: Seq<char>|
                #[trigger] self@.contains_key(k) ==> !is_prefix(prefix@, k),
    {
        let mut i: usize = 0;
        while i < self.keys.len()
            invariant
                i <= self.keys@.len(),
                forall|j: int| 0 <= j < i ==> !is_prefix(prefix@, #[trigger] self.keys@[j]@),
            decreases self.keys@.len() - i,
        {
            if str_starts_with(self.keys[i].as_str(), prefix) {
                return Some(i);
            }
            i = i + 1;
        }
        proof {
            assert forall|k: Seq<char>| #[trigger] self@.contains_key(k) implies !is_prefix(
                prefix@,
                k,
            ) by {
                let j = self.slot(k);
                assert(self.keys@[j]@ == k);
            }
        }
        None
    }

    fn remove_at(&mut self, i: usize)
        requires
            old(self).wf(),
            i < old(self).keys@.len(),
        ensures
            final(self).wf(),
            final(self)@ == old(self)@.remove(old(self).keys@[i as int]@),
            final(self).keys@.len() == old(self).keys@.len() - 1,
            final(self).location_spec() == old(self).location_spec(),
    {
        let ghost pre = *self;
        let ghost gone = pre.keys@[i as int]@;
        self.keys.remove(i);
        self.vals.remove(i);
        proof {
            let ghost idx = |a: int| if a < i { a } else { a + 1 };
            assert forall|a: int| 0 <= a < self.keys@.len() implies #[trigger] self.keys@[a]
                == pre.keys@[idx(a)] && self.vals@[a] == pre.vals@[idx(a)] by {}
            assert forall|a: int, c: int|
                0 <= a < c < self.keys@.len() implies #[trigger] self.keys@[a]@
                != #[trigger] self.keys@[c]@ by {
                assert(self.keys@[a] == pre.keys@[idx(a)]);
                assert(self.keys@[c] == pre.keys@[idx(c)]);
                assert(pre.keys@[idx(a)]@ != pre.keys@[idx(c)]@);
            }
            assert forall|k: Seq<char>|
                #![trigger self@.contains_key(k)]
                self@.contains_key(k) <==> pre@.contains_key(k) && k != gone by {
                if self.has_key(k) {
                    let a = self.slot(k);
                    assert(self.keys@[a] == pre.keys@[idx(a)]);
                    pre.lemma_slot(idx(a));
                    assert(pre.keys@[idx(a)]@ != pre.keys@[i as int]@);
                }
                if pre.has_key(k) && k != gone {
                    let b = pre.slot(k);
                    if b < i {
                        assert(self.keys@[b] == pre.keys@[b]);
                        assert(self.keys@[b]@ == k);
                    } else {
                        assert(b != i);
                        assert(self.keys@[b - 1] == pre.keys@[b]);
                        assert(self.keys@[b - 1]@ == k);
                    }
                }
            }
            assert forall|k: Seq<char>| #[trigger] self@.contains_key(k) implies self@[k]
                == pre@[k] by {
                let a = self.slot(k);
                self.lemma_slot(a);
                assert(self.keys@[a] == pre.keys@[idx(a)]);
                pre.lemma_slot(idx(a));
            }
            assert(self@ =~= pre@.remove(gone));
        }
    }

    /// Removes every key that starts with `prefix`.
    pub fn remove_prefix(&mut self, prefix: &str)
        requires
            old(self).wf(),
        ensures
            final(self).wf(),
            final(self)@ == old(self)@.restrict(
                old(self)@.dom().filter(|k: Seq<char>| !is_prefix(prefix@, k)),
            ),
            final(self).location_spec() == old(self).location_spec(),
    {
        let ghost pre = *self;
        let ghost keep = pre@.dom().filter(|k: Seq<char>| !is_prefix(prefix@, k));
        loop
            invariant
                pre == *old(self),
                self.wf(),
                self.location_spec() == pre.location_spec(),
                forall|k: Seq<char>|
                    #[trigger] self@.contains_key(k) ==> pre@.contains_key(k) && self@[k]
                        == pre@[k],
                forall|k: Seq<char>| #[trigger] keep.contains(k) ==> self@.contains_key(k),
                keep == pre@.dom().filter(|k: Seq<char>| !is_prefix(prefix@, k)),
            decreases self.keys@.len(),
        {
            match self.find_prefixed(prefix) {
                Some(i) => {
                    let ghost before = *self;
                    proof {
                        before.lemma_slot(i as int);
                    }
                    self.remove_at(i);
                    proof {
                        assert forall|k: Seq<char>| #[trigger] keep.contains(k) implies self@.contains_key(k) by {
                            assert(before@.contains_key(k));
                        }
                        assert forall|k: Seq<char>| #[trigger] self@.contains_key(k) implies pre@.contains_key(k) && self@[k] == pre@[k] by {
                            assert(before@.contains_key(k));
                        }
                    }
                },
                None => {
                    proof {
                        assert(self@ =~= pre@.restrict(keep));
                    }
                    return;
                },
            }
        }
    }

    /// Forgets every walk checkpoint, so that every root is walked again.
    pub fn clear_walk_checkpoints(&mut self)
        requires
            old(self).wf(),
        ensures
            final(self).wf(),
            final(self)@ == old(self)@.restrict(
                old(self)@.dom().filter(|k: Seq<char>| !is_prefix(walk_key_prefix(), k)),
            ),
            final(self).location_spec() == old(self).location_spec(),
    {
        let p = String::from_str("walk:stat:");
        proof {
            reveal_strlit("walk:stat:");
            assert(p@ =~= walk_key_prefix());
        }
        self.remove_prefix(p.as_str());
    }
}

} // verus!
