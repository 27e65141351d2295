//! A map keyed by text, kept as a list of entries in which no key occurs
//! twice. Its view is the mathematical map from key text to value.

use vstd::prelude::*;

verus! {

broadcast use vstd::string::group_string_axioms;

/// A map from text keys to values, in insertion order.
pub struct StrMap<V> {
    entries: Vec<(String, V)>,
}

impl<V> StrMap<V> {
    /// The key of entry `i`.
    pub closed spec fn key_at(&self, i: int) -> Seq<char> {
        self.entries@[i].0@
    }

    /// The value of entry `i`.
    pub closed spec fn value_at(&self, i: int) -> V {
        self.entries@[i].1
    }

    /// The number of entries.
    pub closed spec fn size(&self) -> nat {
        self.entries@.len()
    }

    /// No key occurs twice.
    pub closed spec fn wf(&self) -> bool {
        forall|i: int, j: int| 0 <= i < j < self.size() ==> self.key_at(i) != self.key_at(j)
    }

    pub closed spec fn has(&self, k: Seq<char>) -> bool {
        exists|i: int| 0 <= i < self.size() && #[trigger] self.key_at(i) == k
    }

    spec fn index_of(&self, k: Seq<char>) -> int {
        choose|i: int| 0 <= i < self.size() && #[trigger] self.key_at(i) == k
    }
}

impl<V> View for StrMap<V> {
    type V = Map<Seq<char>, V>;

    closed spec fn view(&self) -> Map<Seq<char>, V> {
        Map::new(|k: Seq<char>| self.has(k), |k: Seq<char>| self.value_at(self.index_of(k)))
    }
}

impl<V> StrMap<V> {
    /// Whether one of the first `n` entries has key `k`.
    pub open spec fn seen(&self, n: int, k: Seq<char>) -> bool {
        exists|j: int| 0 <= j < n && #[trigger] self.key_at(j) == k
    }

    /// Entry `i` is what the map holds for its key.
    pub proof fn lemma_at(&self, i: int)
        requires
            self.wf(),
            0 <= i < self.size(),
        ensures
            self@.contains_key(self.key_at(i)),
            self@[self.key_at(i)] == self.value_at(i),
    {
        let k = self.key_at(i);
        assert(self.has(k));
        let j = self.index_of(k);
        assert(self.key_at(j) == k);
        assert(j == i);
    }

    /// Two entries never share a key.
    pub proof fn lemma_distinct(&self, i: int, j: int)
        requires
            self.wf(),
            0 <= i < self.size(),
            0 <= j < self.size(),
            i != j,
        ensures
            self.key_at(i) != self.key_at(j),
    {
        if i > j {
            assert(self.key_at(j) != self.key_at(i));
        }
    }

    /// Every key of the map is the key of some entry.
    pub proof fn lemma_key(&self, k: Seq<char>)
        requires
            self.wf(),
            self@.contains_key(k),
        ensures
            exists|i: int| 0 <= i < self.size() && #[trigger] self.key_at(i) == k,
    {
        assert(self.has(k));
    }

    /// The empty map.
    pub fn new() -> (m: Self)
        ensures
            m.wf(),
            m@ == Map::<Seq<char>, V>::empty(),
            m.size() == 0,
    {
        let m = StrMap { entries: Vec::new() };
        assert(m@ =~= Map::<Seq<char>, V>::empty());
        m
    }

    /// The number of entries.
    pub fn len(&self) -> (n: usize)
        ensures
            n == self.size(),
    {
        self.entries.len()
    }

    /// The key of entry `i`.
    pub fn key(&self, i: usize) -> (k: &String)
        requires
            i < self.size(),
        ensures
            k@ == self.key_at(i as int),
    {
        &self.entries[i].0
    }

    /// The value of entry `i`.
    pub fn value(&self, i: usize) -> (v: &V)
        requires
            i < self.size(),
        ensures
            *v == self.value_at(i as int),
    {
        &self.entries[i].1
    }

    /// The entry whose key is `k`.
    fn find(&self, k: &String) -> (r: Option<usize>)
        requires
            self.wf(),
        ensures
            match r {
                Some(i) => i < self.size() && self.key_at(i as int) == k@,
                None => !self@.contains_key(k@),
            },
    {
        let mut i: usize = 0;
        while i < self.entries.len()
            invariant
                self.wf(),
                i <= self.size(),
                forall|j: int| 0 <= j < i ==> #[trigger] self.key_at(j) != k@,
            decreases self.size() - i,
        {
            if self.entries[i].0 == *k {
                return Some(i);
            }
            i = i + 1;
        }
        None
    }

    /// The value held for `k`.
    pub fn get(&self, k: &str) -> (r: Option<&V>)
        requires
            self.wf(),
        ensures
            match r {
                Some(v) => self@.contains_key(k@) && *v == self@[k@],
                None => !self@.contains_key(k@),
            },
    {
        let ks = k.to_string();
        match self.find(&ks) {
            Some(i) => {
                proof {
                    self.lemma_at(i as int);
                }
                Some(&self.entries[i].1)
            },
            None => None,
        }
    }

    /// Whether `k` is a key.
    pub fn contains(&self, k: &str) -> (b: bool)
        requires
            self.wf(),
        ensures
            b == self@.contains_key(k@),
    {
        self.get(k).is_some()
    }

    /// Holds `v` for `k`, in place of what was there.
    pub fn insert(&mut self, k: &str, v: V)
        requires
            old(self).wf(),
        ensures
            final(self).wf(),
            final(self)@ == old(self)@.insert(k@, v),
    {
        let ks = k.to_string();
        let ghost old_map = *self;
        match self.find(&ks) {
            Some(i) => {
                self.entries.set(i, (ks, v));
                proof {
                    let new_map = *self;
                    assert forall|j: int| 0 <= j < new_map.size() implies #[trigger] new_map.key_at(j)
                        == old_map.key_at(j) by {}
                    assert(new_map.wf());
                    assert forall|kk: Seq<char>|
                        #![trigger new_map@.contains_key(kk)]
                        #![trigger old_map@.contains_key(kk)]
                        new_map@.contains_key(kk) == (old_map@.contains_key(kk) || kk == k@) by {
                        if new_map.has(kk) {
                            let j = choose|j: int| 0 <= j < new_map.size() && #[trigger] new_map.key_at(j) == kk;
                            if j != i {
                                assert(old_map.key_at(j) == kk);
                            }
                        }
                        if old_map.has(kk) {
                            let j = choose|j: int| 0 <= j < old_map.size() && #[trigger] old_map.key_at(j) == kk;
                            assert(new_map.key_at(j) == kk);
                        }
                        if kk == k@ {
                            assert(new_map.key_at(i as int) == kk);
                        }
                    }
                    assert forall|kk: Seq<char>| #[trigger] new_map@.contains_key(kk) implies new_map@[kk]
                        == old_map@.insert(k@, v)[kk] by {
                        let j = choose|j: int| 0 <= j < new_map.size() && #[trigger] new_map.key_at(j) == kk;
                        new_map.lemma_at(j);
                        if kk != k@ {
                            assert(j != i);
                            assert(old_map.key_at(j) == kk);
                            old_map.lemma_at(j);
                        }
                    }
                    assert(new_map@ =~= old_map@.insert(k@, v));
                }
            },
            None => {
                self.entries.push((ks, v));
                proof {
                    let new_map = *self;
                    let n = old_map.size() as int;
                    assert forall|j: int| 0 <= j < n implies #[trigger] old_map.key_at(j) != k@ by {
                        if old_map.key_at(j) == k@ {
                            assert(old_map.has(k@));
                        }
                    }
                    assert forall|a: int, b: int| 0 <= a < b < new_map.size() implies new_map.key_at(a)
                        != new_map.key_at(b) by {
                        assert(new_map.key_at(a) == old_map.key_at(a));
                        if b < n {
                            assert(new_map.key_at(b) == old_map.key_at(b));
                        }
                    }
                    assert(new_map.wf());
                    assert forall|kk: Seq<char>|
                        #![trigger new_map@.contains_key(kk)]
                        #![trigger old_map@.contains_key(kk)]
                        new_map@.contains_key(kk) == (old_map@.contains_key(kk) || kk == k@) by {
                        if new_map.has(kk) {
                            let j = choose|j: int| 0 <= j < new_map.size() && #[trigger] new_map.key_at(j) == kk;
                            if j != n {
                                assert(old_map.key_at(j) == kk);
                            }
                        }
                        if old_map.has(kk) {
                            let j = choose|j: int| 0 <= j < old_map.size() && #[trigger] old_map.key_at(j) == kk;
                            assert(new_map.key_at(j) == kk);
                        }
                        if kk == k@ {
                            assert(new_map.key_at(n) == kk);
                        }
                    }
                    assert forall|kk: Seq<char>| #[trigger] new_map@.contains_key(kk) implies new_map@[kk]
                        == old_map@.insert(k@, v)[kk] by {
                        let j = choose|j: int| 0 <= j < new_map.size() && #[trigger] new_map.key_at(j) == kk;
                        new_map.lemma_at(j);
                        if kk != k@ {
                            assert(j != n);
                            assert(old_map.key_at(j) == kk);
                            old_map.lemma_at(j);
                        }
                    }
                    assert(new_map@ =~= old_map@.insert(k@, v));
                }
            },
        }
    }

    /// Drops the entry for `k`, if there is one.
    pub fn remove(&mut self, k: &str)
        requires
            old(self).wf(),
        ensures
            final(self).wf(),
            final(self)@ == old(self)@.remove(k@),
    {
        let ks = k.to_string();
        let ghost old_map = *self;
        match self.find(&ks) {
            Some(i) => {
                let _ = self.entries.remove(i);
                proof {
                    let new_map = *self;
                    assert forall|j: int| 0 <= j < new_map.size() implies #[trigger] new_map.key_at(j)
                        == old_map.key_at(if j < i { j } else { j + 1 }) by {}
                    assert forall|a: int, b: int| 0 <= a < b < new_map.size() implies new_map.key_at(a)
                        != new_map.key_at(b) by {
                        let oa = if a < i { a } else { a + 1 };
                        let ob = if b < i { b } else { b + 1 };
                        assert(new_map.key_at(a) == old_map.key_at(oa));
                        assert(new_map.key_at(b) == old_map.key_at(ob));
                    }
                    assert(new_map.wf());
                    assert forall|kk: Seq<char>|
                        #![trigger new_map@.contains_key(kk)]
                        #![trigger old_map@.contains_key(kk)]
                        new_map@.contains_key(kk) == (old_map@.contains_key(kk) && kk != k@) by {
                        if new_map.has(kk) {
                            let j = choose|j: int| 0 <= j < new_map.size() && #[trigger] new_map.key_at(j) == kk;
                            let oj = if j < i { j } else { j + 1 };
                            assert(old_map.key_at(oj) == kk);
                        }
                        if old_map.has(kk) && kk != k@ {
                            let j = choose|j: int| 0 <= j < old_map.size() && #[trigger] old_map.key_at(j) == kk;
                            assert(j != i);
                            let nj = if j < i { j } else { j - 1 };
                            assert(new_map.key_at(nj) == kk);
                        }
                    }
                    assert forall|kk: Seq<char>| #[trigger] new_map@.contains_key(kk) implies new_map@[kk]
                        == old_map@[kk] by {
                        let j = choose|j: int| 0 <= j < new_map.size() && #[trigger] new_map.key_at(j) == kk;
                        new_map.lemma_at(j);
                        let oj = if j < i { j } else { j + 1 };
                        assert(old_map.key_at(oj) == kk);
                        old_map.lemma_at(oj);
                    }
                    assert(new_map@ =~= old_map@.remove(k@));
                }
            },
            None => {
                assert(old_map@.remove(k@) =~= old_map@);
            },
        }
    }

    /// Drops every entry.
    pub fn clear(&mut self)
        ensures
            final(self).wf(),
            final(self)@ == Map::<Seq<char>, V>::empty(),
            final(self).size() == 0,
    {
        self.entries = Vec::new();
        assert(self@ =~= Map::<Seq<char>, V>::empty());
    }
}

/// Whether one of the first `j` strings of `v` is `k`.
pub open spec fn listed(v: Seq<String>, j: int, k: Seq<char>) -> bool {
    exists|a: int| 0 <= a < j && #[trigger] v[a]@ == k
}

impl<V> StrMap<V> {
    /// The keys of the entries, in order.
    pub closed spec fn keys(&self) -> Seq<Seq<char>> {
        Seq::new(self.size(), |i: int| self.key_at(i))
    }

    /// The map has as many keys as entries.
    pub proof fn lemma_len(&self)
        requires
            self.wf(),
        ensures
            self@.dom().finite(),
            self@.dom().len() == self.size(),
    {
        let ks = self.keys();
        assert forall|i: int, j: int| 0 <= i < ks.len() && 0 <= j < ks.len() && i != j implies ks[i] != ks[j] by {
            self.lemma_distinct(i, j);
        }
        ks.unique_seq_to_set();
        assert forall|k: Seq<char>| #[trigger] self@.dom().contains(k) == ks.to_set().contains(k) by {
            if self@.dom().contains(k) {
                let i = choose|i: int| 0 <= i < self.size() && #[trigger] self.key_at(i) == k;
                assert(ks[i] == k);
            }
            if ks.to_set().contains(k) {
                let i = choose|i: int| 0 <= i < ks.len() && ks[i] == k;
                assert(self.key_at(i) == k);
            }
        }
        assert(self@.dom() =~= ks.to_set());
        vstd::seq_lib::seq_to_set_is_finite(ks);
    }

    /// The number of keys.
    pub fn count(&self) -> (n: usize)
        requires
            self.wf(),
        ensures
            n == self@.dom().len(),
    {
        proof {
            self.lemma_len();
        }
        self.entries.len()
    }

    /// Keeps only the entries whose key is in `keep`.
    pub fn retain_keys(&mut self, keep: &StrSet)
        requires
            old(self).wf(),
            keep.wf(),
        ensures
            final(self).wf(),
            final(self)@ == old(self)@.restrict(keep@),
    {
        let ghost orig = self@;
        let ghost start = *self;
        let n = self.entries.len();
        let mut drop: Vec<String> = Vec::new();
        let mut i: usize = 0;
        while i < n
            invariant
                *self == start,
                self.wf(),
                keep.wf(),
                n == self.size(),
                i <= n,
                forall|a: int| 0 <= a < drop@.len() ==> !keep@.contains(#[trigger] drop@[a]@),
                forall|j: int| 0 <= j < i && !keep@.contains(#[trigger] self.key_at(j)) ==> exists|a: int|
                    0 <= a < drop@.len() && drop@[a]@ == self.key_at(j),
            decreases n - i,
        {
            if !keep.contains(self.entries[i].0.as_str()) {
                let ghost before = drop@;
                drop.push(self.entries[i].0.clone());
                proof {
                    assert forall|j: int| 0 <= j < i + 1 && !keep@.contains(#[trigger] self.key_at(j)) implies exists|a: int|
                        0 <= a < drop@.len() && drop@[a]@ == self.key_at(j) by {
                        if j < i {
                            let a = choose|a: int| 0 <= a < before.len() && before[a]@ == self.key_at(j);
                            assert(drop@[a] == before[a]);
                        } else {
                            assert(drop@[drop@.len() - 1]@ == self.key_at(j));
                        }
                    }
                }
            }
            i = i + 1;
        }
        let mut j: usize = 0;
        assert(orig =~= Map::new(
            |k: Seq<char>| orig.contains_key(k) && !listed(drop@, 0, k),
            |k: Seq<char>| orig[k],
        ));
        while j < drop.len()
            invariant
                self.wf(),
                j <= drop@.len(),
                self@ == Map::new(
                    |k: Seq<char>| orig.contains_key(k) && !listed(drop@, j as int, k),
                    |k: Seq<char>| orig[k],
                ),
            decreases drop@.len() - j,
        {
            let ghost prev = self@;
            self.remove(drop[j].as_str());
            proof {
                assert forall|k: Seq<char>| #[trigger] listed(drop@, j + 1, k) == (listed(drop@, j as int, k) || k
                    == drop@[j as int]@) by {
                    if listed(drop@, j + 1, k) {
                        let a = choose|a: int| 0 <= a < j + 1 && #[trigger] drop@[a]@ == k;
                        if a == j {
                        }
                    }
                    if k == drop@[j as int]@ {
                        assert(drop@[j as int]@ == k);
                    }
                }
                assert(self@ =~= Map::new(
                    |k: Seq<char>| orig.contains_key(k) && !listed(drop@, j + 1, k),
                    |k: Seq<char>| orig[k],
                ));
            }
            j = j + 1;
        }
        proof {
            assert forall|k: Seq<char>| #[trigger] orig.contains_key(k) implies (keep@.contains(k) == !listed(drop@, drop@.len() as int, k)) by {
                start.lemma_key(k);
                let i0 = choose|i0: int| 0 <= i0 < start.size() && #[trigger] start.key_at(i0) == k;
                if !keep@.contains(k) {
                    assert(!keep@.contains(start.key_at(i0)));
                }
            }
            assert(self@ =~= orig.restrict(keep@));
        }
    }
}

/// A set of text keys.
pub struct StrSet {
    items: StrMap<()>,
}

impl View for StrSet {
    type V = Set<Seq<char>>;

    closed spec fn view(&self) -> Set<Seq<char>> {
        self.items@.dom()
    }
}

impl StrSet {
    pub closed spec fn wf(&self) -> bool {
        self.items.wf()
    }

    /// The number of members.
    pub closed spec fn size(&self) -> nat {
        self.items.size()
    }

    /// Member `i`.
    pub closed spec fn member_at(&self, i: int) -> Seq<char> {
        self.items.key_at(i)
    }

    /// Whether one of the first `n` members is `k`.
    pub open spec fn seen(&self, n: int, k: Seq<char>) -> bool {
        exists|j: int| 0 <= j < n && #[trigger] self.member_at(j) == k
    }

    /// Member `i` is in the set.
    pub proof fn lemma_member(&self, i: int)
        requires
            self.wf(),
            0 <= i < self.size(),
        ensures
            self@.contains(self.member_at(i)),
    {
        self.items.lemma_at(i);
    }

    /// Every element is some member.
    pub proof fn lemma_element(&self, k: Seq<char>)
        requires
            self.wf(),
            self@.contains(k),
        ensures
            exists|i: int| 0 <= i < self.size() && #[trigger] self.member_at(i) == k,
    {
        self.items.lemma_key(k);
        let i = choose|i: int| 0 <= i < self.items.size() && #[trigger] self.items.key_at(i) == k;
        assert(self.member_at(i) == k);
    }

    /// Two members differ.
    pub proof fn lemma_distinct(&self, i: int, j: int)
        requires
            self.wf(),
            0 <= i < self.size(),
            0 <= j < self.size(),
            i != j,
        ensures
            self.member_at(i) != self.member_at(j),
    {
        self.items.lemma_distinct(i, j);
    }

    /// The set is finite with one element per member.
    pub proof fn lemma_len(&self)
        requires
            self.wf(),
        ensures
            self@.finite(),
            self@.len() == self.size(),
    {
        self.items.lemma_len();
    }

    /// The empty set.
    pub fn new() -> (s: Self)
        ensures
            s.wf(),
            s@ == Set::<Seq<char>>::empty(),
    {
        let s = StrSet { items: StrMap::new() };
        assert(s@ =~= Set::<Seq<char>>::empty());
        s
    }

    /// The number of members.
    pub fn len(&self) -> (n: usize)
        ensures
            n == self.size(),
    {
        self.items.len()
    }

    /// Member `i`.
    pub fn member(&self, i: usize) -> (k: &String)
        requires
            i < self.size(),
        ensures
            k@ == self.member_at(i as int),
    {
        self.items.key(i)
    }

    /// Whether `k` is a member.
    pub fn contains(&self, k: &str) -> (b: bool)
        requires
            self.wf(),
        ensures
            b == self@.contains(k@),
    {
        self.items.contains(k)
    }

    /// Adds `k`.
    pub fn insert(&mut self, k: &str)
        requires
            old(self).wf(),
        ensures
            final(self).wf(),
            final(self)@ == old(self)@.insert(k@),
    {
        self.items.insert(k, ());
        assert(self@ =~= old(self)@.insert(k@));
    }

    /// Drops `k`.
    pub fn remove(&mut self, k: &str)
        requires
            old(self).wf(),
        ensures
            final(self).wf(),
            final(self)@ == old(self)@.remove(k@),
    {
        self.items.remove(k);
        assert(self@ =~= old(self)@.remove(k@));
    }
}

} // verus!
