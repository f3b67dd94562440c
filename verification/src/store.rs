use vstd::prelude::*;

verus! {

// ---------------------------------------------------------------------
// Address-keyed map: a vector of (key, value) pairs with distinct keys,
// in insertion order.
// ---------------------------------------------------------------------

/// Map from addresses (or other string keys) to values, kept as a list of
/// pairs with pairwise distinct keys, in insertion order.
pub struct AddrMap<V> {
    pub entries: Vec<(String, V)>,
}

/// Distinctness of the keys of an association list.
pub open spec fn distinct_keys<V>(s: Seq<(String, V)>) -> bool {
    forall|i: int, j: int| 0 <= i < j < s.len() ==> s[i].0@ != s[j].0@
}

/// Whether the association list holds the key.
pub open spec fn has_key<V>(s: Seq<(String, V)>, k: Seq<char>) -> bool {
    exists|i: int| 0 <= i < s.len() && s[i].0@ == k
}

/// Index of the key in the association list (meaningful when present and
/// the keys are distinct).
pub open spec fn key_index<V>(s: Seq<(String, V)>, k: Seq<char>) -> int {
    choose|i: int| 0 <= i < s.len() && s[i].0@ == k
}

/// The value stored under a key, if any.
pub open spec fn assoc_get<V>(s: Seq<(String, V)>, k: Seq<char>) -> Option<V> {
    if has_key(s, k) {
        Some(s[key_index(s, k)].1)
    } else {
        None
    }
}

/// With distinct keys, any index holding `k` is the one `key_index` picks.
pub proof fn lemma_key_index_unique<V>(s: Seq<(String, V)>, k: Seq<char>, i: int)
    requires
        distinct_keys(s),
        0 <= i < s.len(),
        s[i].0@ == k,
    ensures
        key_index(s, k) == i,
        has_key(s, k),
        assoc_get(s, k) == Some(s[i].1),
{
    assert(has_key(s, k));
    let j = key_index(s, k);
    if j != i {
        assert(s[i].0@ == s[j].0@);
    }
}

impl<V> AddrMap<V> {
    /// Keys are pairwise distinct.
    pub open spec fn wf(&self) -> bool {
        distinct_keys(self.entries@)
    }

    pub open spec fn spec_has(&self, k: Seq<char>) -> bool {
        has_key(self.entries@, k)
    }

    pub open spec fn spec_get(&self, k: Seq<char>) -> Option<V> {
        assoc_get(self.entries@, k)
    }

    pub fn new() -> (m: Self)
        ensures
            m.wf(),
            m.entries@ =~= Seq::<(String, V)>::empty(),
    {
        AddrMap { entries: Vec::new() }
    }

    pub fn len(&self) -> (n: usize)
        ensures
            n == self.entries@.len(),
    {
        self.entries.len()
    }

    /// Index of the entry with the given key.
    pub fn find(&self, k: &String) -> (r: Option<usize>)
        requires
            self.wf(),
        ensures
            match r {
                Some(i) => i < self.entries@.len() && self.entries@[i as int].0@ == k@
                    && i as int == key_index(self.entries@, k@)
                    && self.spec_get(k@) == Some(self.entries@[i as int].1),
                None => !self.spec_has(k@),
            },
    {
        let mut i: usize = 0;
        while i < self.entries.len()
            invariant
                i <= self.entries@.len(),
                self.wf(),
                forall|j: int| 0 <= j < i ==> self.entries@[j].0@ != k@,
            decreases self.entries@.len() - i,
        {
            if self.entries[i].0 == *k {
                proof {
                    lemma_key_index_unique(self.entries@, k@, i as int);
                }
                return Some(i);
            }
            i = i + 1;
        }
        None
    }

    pub fn contains_key(&self, k: &String) -> (r: bool)
        requires
            self.wf(),
        ensures
            r == self.spec_has(k@),
    {
        self.find(k).is_some()
    }

    pub fn get(&self, k: &String) -> (r: Option<&V>)
        requires
            self.wf(),
        ensures
            match r {
                Some(v) => self.spec_get(k@) == Some(*v),
                None => self.spec_get(k@) is None,
            },
    {
        match self.find(k) {
            Some(i) => Some(&self.entries[i].1),
            None => None,
        }
    }

    /// Insert a binding for a key that is not present yet.
    pub fn insert_new(&mut self, k: String, v: V)
        requires
            old(self).wf(),
            !old(self).spec_has(k@),
        ensures
            final(self).wf(),
            final(self).entries@ == old(self).entries@.push((k, v)),
            final(self).spec_get(k@) == Some(v),
            forall|k2: Seq<char>| k2 != k@ ==> final(self).spec_get(k2) == old(self).spec_get(k2),
    {
        let ghost olds = self.entries@;
        self.entries.push((k, v));
        proof {
            let news = self.entries@;
            assert forall|i: int, j: int| 0 <= i < j < news.len() implies news[i].0@ != news[j].0@ by {
                if j == news.len() - 1 {
                    assert(news[i] == olds[i]);
                }
            }
            lemma_key_index_unique(news, k@, news.len() - 1);
            assert forall|k2: Seq<char>| k2 != k@ implies assoc_get(news, k2) == assoc_get(olds, k2) by {
                if has_key(olds, k2) {
                    let i = key_index(olds, k2);
                    lemma_key_index_unique(olds, k2, i);
                    lemma_key_index_unique(news, k2, i);
                } else {
                    if has_key(news, k2) {
                        let i = key_index(news, k2);
                        assert(0 <= i < news.len() && news[i].0@ == k2);
                        assert(i < olds.len() ==> olds[i].0@ == k2);
                    }
                }
            }
        }
    }

    /// Replace the value stored at an existing key.
    pub fn set_at(&mut self, i: usize, k: &String, v: V)
        requires
            old(self).wf(),
            i < old(self).entries@.len(),
            old(self).entries@[i as int].0@ == k@,
        ensures
            final(self).wf(),
            final(self).entries@ == old(self).entries@.update(i as int, (old(self).entries@[i as int].0, v)),
            final(self).spec_get(k@) == Some(v),
            forall|k2: Seq<char>| k2 != k@ ==> final(self).spec_get(k2) == old(self).spec_get(k2),
    {
        let ghost olds = self.entries@;
        let key = self.entries[i].0.clone();
        self.entries[i] = (key, v);
        proof {
            let news = self.entries@;
            assert(news =~= olds.update(i as int, (olds[i as int].0, v)));
            assert forall|a: int, b: int| 0 <= a < b < news.len() implies news[a].0@ != news[b].0@ by {
                assert(news[a].0@ == olds[a].0@ && news[b].0@ == olds[b].0@);
            }
            lemma_key_index_unique(news, k@, i as int);
            assert forall|k2: Seq<char>| k2 != k@ implies assoc_get(news, k2) == assoc_get(olds, k2) by {
                if has_key(olds, k2) {
                    let a = key_index(olds, k2);
                    lemma_key_index_unique(olds, k2, a);
                    assert(news[a].0@ == k2);
                    lemma_key_index_unique(news, k2, a);
                } else {
                    if has_key(news, k2) {
                        let a = key_index(news, k2);
                        assert(olds[a].0@ == k2);
                    }
                }
            }
        }
    }

    /// Mutable access to the value at a known index; the key stays as it
    /// is.  `lemma_assoc_update` recovers what the update means for the
    /// map once the borrow ends.
    pub fn val_mut(&mut self, i: usize) -> (r: &mut V)
        requires
            i < old(self).entries@.len(),
        ensures
            *r == old(self).entries@[i as int].1,
            final(self).entries@ == old(self).entries@.update(
                i as int,
                (old(self).entries@[i as int].0, *final(r)),
            ),
    {
        &mut self.entries[i].1
    }

    /// Remove the binding at a known index.
    pub fn remove_at(&mut self, i: usize, k: &String)
        requires
            old(self).wf(),
            i < old(self).entries@.len(),
            old(self).entries@[i as int].0@ == k@,
        ensures
            final(self).wf(),
            final(self).entries@ == old(self).entries@.remove(i as int),
            !final(self).spec_has(k@),
            forall|k2: Seq<char>| k2 != k@ ==> final(self).spec_get(k2) == old(self).spec_get(k2),
    {
        let ghost olds = self.entries@;
        let _ = self.entries.remove(i);
        proof {
            let news = self.entries@;
            assert forall|a: int, b: int| 0 <= a < b < news.len() implies news[a].0@ != news[b].0@ by {
                let a0 = if a < i as int { a } else { a + 1 };
                let b0 = if b < i as int { b } else { b + 1 };
                assert(news[a] == olds[a0] && news[b] == olds[b0]);
            }
            assert forall|a: int| 0 <= a < news.len() implies news[a].0@ != k@ by {
                let a0 = if a < i as int { a } else { a + 1 };
                assert(news[a] == olds[a0]);
                if a0 != i as int && olds[a0].0@ == k@ {
                    assert(olds[i as int].0@ == olds[a0].0@);
                }
            }
            assert forall|k2: Seq<char>| k2 != k@ implies assoc_get(news, k2) == assoc_get(olds, k2) by {
                if has_key(olds, k2) {
                    let a = key_index(olds, k2);
                    lemma_key_index_unique(olds, k2, a);
                    let a1 = if a < i as int { a } else { a - 1 };
                    assert(news[a1] == olds[a]);
                    lemma_key_index_unique(news, k2, a1);
                } else {
                    if has_key(news, k2) {
                        let a = key_index(news, k2);
                        let a0 = if a < i as int { a } else { a + 1 };
                        assert(olds[a0] == news[a]);
                    }
                }
            }
        }
    }
}

// ---------------------------------------------------------------------
// Round-keyed map: a vector of (round, value) pairs sorted by strictly
// increasing round, so range scans run in ascending order.
// ---------------------------------------------------------------------

/// Map from round numbers to values, kept sorted by strictly increasing
/// round.
pub struct RoundMap<V> {
    pub entries: Vec<(u64, V)>,
}

/// Strictly increasing round keys.
pub open spec fn sorted_rounds<V>(s: Seq<(u64, V)>) -> bool {
    forall|i: int, j: int| 0 <= i < j < s.len() ==> s[i].0 < s[j].0
}

/// Whether the list holds the round.
pub open spec fn has_round<V>(s: Seq<(u64, V)>, r: u64) -> bool {
    exists|i: int| 0 <= i < s.len() && s[i].0 == r
}

/// Index of the round in the list (meaningful when present and sorted).
pub open spec fn round_index<V>(s: Seq<(u64, V)>, r: u64) -> int {
    choose|i: int| 0 <= i < s.len() && s[i].0 == r
}

/// The value stored under a round, if any.
pub open spec fn round_get<V>(s: Seq<(u64, V)>, r: u64) -> Option<V> {
    if has_round(s, r) {
        Some(s[round_index(s, r)].1)
    } else {
        None
    }
}

/// With sorted keys, any index holding `r` is the one `round_index` picks.
pub proof fn lemma_round_index_unique<V>(s: Seq<(u64, V)>, r: u64, i: int)
    requires
        sorted_rounds(s),
        0 <= i < s.len(),
        s[i].0 == r,
    ensures
        round_index(s, r) == i,
        has_round(s, r),
        round_get(s, r) == Some(s[i].1),
{
    assert(has_round(s, r));
    let j = round_index(s, r);
    if j < i {
        assert(s[j].0 < s[i].0);
    } else if j > i {
        assert(s[i].0 < s[j].0);
    }
}

impl<V> RoundMap<V> {
    /// Rounds are sorted strictly increasing.
    pub open spec fn wf(&self) -> bool {
        sorted_rounds(self.entries@)
    }

    pub open spec fn spec_has(&self, r: u64) -> bool {
        has_round(self.entries@, r)
    }

    pub open spec fn spec_get(&self, r: u64) -> Option<V> {
        round_get(self.entries@, r)
    }

    pub fn new() -> (m: Self)
        ensures
            m.wf(),
            m.entries@ =~= Seq::<(u64, V)>::empty(),
    {
        RoundMap { entries: Vec::new() }
    }

    pub fn len(&self) -> (n: usize)
        ensures
            n == self.entries@.len(),
    {
        self.entries.len()
    }

    /// Index of the entry with the given round.
    pub fn find(&self, r: u64) -> (res: Option<usize>)
        requires
            self.wf(),
        ensures
            match res {
                Some(i) => i < self.entries@.len() && self.entries@[i as int].0 == r
                    && self.spec_get(r) == Some(self.entries@[i as int].1),
                None => !self.spec_has(r),
            },
    {
        let mut i: usize = 0;
        while i < self.entries.len()
            invariant
                i <= self.entries@.len(),
                self.wf(),
                forall|j: int| 0 <= j < i ==> self.entries@[j].0 != r,
            decreases self.entries@.len() - i,
        {
            if self.entries[i].0 == r {
                proof {
                    lemma_round_index_unique(self.entries@, r, i as int);
                }
                return Some(i);
            }
            i = i + 1;
        }
        None
    }

    pub fn contains_round(&self, r: u64) -> (res: bool)
        requires
            self.wf(),
        ensures
            res == self.spec_has(r),
    {
        self.find(r).is_some()
    }

    pub fn get(&self, r: u64) -> (res: Option<&V>)
        requires
            self.wf(),
        ensures
            match res {
                Some(v) => self.spec_get(r) == Some(*v),
                None => self.spec_get(r) is None,
            },
    {
        match self.find(r) {
            Some(i) => Some(&self.entries[i].1),
            None => None,
        }
    }

    /// Insert a binding for a round that is not present yet, keeping the
    /// list sorted.
    pub fn insert_new(&mut self, r: u64, v: V)
        requires
            old(self).wf(),
            !old(self).spec_has(r),
        ensures
            final(self).wf(),
            exists|p: int| 0 <= p <= old(self).entries@.len()
                && final(self).entries@ == old(self).entries@.insert(p, (r, v)),
            final(self).spec_get(r) == Some(v),
            forall|r2: u64| r2 != r ==> final(self).spec_get(r2) == old(self).spec_get(r2),
            final(self).entries@.len() == old(self).entries@.len() + 1,
    {
        let ghost olds = self.entries@;
        let mut p: usize = 0;
        while p < self.entries.len() && self.entries[p].0 < r
            invariant
                p <= self.entries@.len(),
                self.entries@ == olds,
                sorted_rounds(olds),
                forall|j: int| 0 <= j < p ==> olds[j].0 < r,
            decreases self.entries@.len() - p,
        {
            p = p + 1;
        }
        // every later entry is larger than r
        proof {
            assert forall|j: int| p <= j < olds.len() implies olds[j].0 > r by {
                assert(olds[j].0 != r);
                if p < olds.len() && j > p as int {
                    assert(olds[p as int].0 < olds[j].0);
                }
            }
        }
        self.entries.insert(p, (r, v));
        proof {
            let news = self.entries@;
            assert(news == olds.insert(p as int, (r, v)));
            assert forall|a: int, b: int| 0 <= a < b < news.len() implies news[a].0 < news[b].0 by {
                let a0 = if a < p as int { a } else { a - 1 };
                let b0 = if b < p as int { b } else { b - 1 };
                if a < p as int { assert(news[a] == olds[a]); }
                if a > p as int { assert(news[a] == olds[a0]); }
                if b < p as int { assert(news[b] == olds[b]); }
                if b > p as int { assert(news[b] == olds[b0]); }
            }
            lemma_round_index_unique(news, r, p as int);
            assert forall|r2: u64| r2 != r implies round_get(news, r2) == round_get(olds, r2) by {
                if has_round(olds, r2) {
                    let a = round_index(olds, r2);
                    lemma_round_index_unique(olds, r2, a);
                    let a1 = if a < p as int { a } else { a + 1 };
                    assert(news[a1] == olds[a]);
                    lemma_round_index_unique(news, r2, a1);
                } else {
                    if has_round(news, r2) {
                        let a = round_index(news, r2);
                        let a0 = if a < p as int { a } else { a - 1 };
                        assert(a != p as int);
                        assert(news[a] == olds[a0]);
                    }
                }
            }
        }
    }

    /// Replace the value stored at an existing index.
    pub fn set_at(&mut self, i: usize, v: V)
        requires
            old(self).wf(),
            i < old(self).entries@.len(),
        ensures
            final(self).wf(),
            final(self).entries@ == old(self).entries@.update(i as int, (old(self).entries@[i as int].0, v)),
            final(self).spec_get(old(self).entries@[i as int].0) == Some(v),
            forall|r2: u64| r2 != old(self).entries@[i as int].0
                ==> final(self).spec_get(r2) == old(self).spec_get(r2),
    {
        let ghost olds = self.entries@;
        let ghost r = olds[i as int].0;
        let key = self.entries[i].0;
        self.entries[i] = (key, v);
        proof {
            let news = self.entries@;
            assert(news =~= olds.update(i as int, (r, v)));
            assert forall|a: int, b: int| 0 <= a < b < news.len() implies news[a].0 < news[b].0 by {
                assert(news[a].0 == olds[a].0 && news[b].0 == olds[b].0);
            }
            lemma_round_index_unique(news, r, i as int);
            assert forall|r2: u64| r2 != r implies round_get(news, r2) == round_get(olds, r2) by {
                if has_round(olds, r2) {
                    let a = round_index(olds, r2);
                    lemma_round_index_unique(olds, r2, a);
                    assert(news[a].0 == r2);
                    lemma_round_index_unique(news, r2, a);
                } else {
                    if has_round(news, r2) {
                        let a = round_index(news, r2);
                        assert(olds[a].0 == r2);
                    }
                }
            }
        }
    }

    /// Mutable access to the value at a known index; the key stays as it
    /// is.  `lemma_rounds_update` recovers what the update means for the
    /// map once the borrow ends.
    pub fn val_mut(&mut self, i: usize) -> (r: &mut V)
        requires
            i < old(self).entries@.len(),
        ensures
            *r == old(self).entries@[i as int].1,
            final(self).entries@ == old(self).entries@.update(
                i as int,
                (old(self).entries@[i as int].0, *final(r)),
            ),
    {
        &mut self.entries[i].1
    }
}

/// What an in-place value update at one index means for the whole
/// association list.
pub proof fn lemma_assoc_update<V>(s: Seq<(String, V)>, i: int, v: V)
    requires
        distinct_keys(s),
        0 <= i < s.len(),
    ensures
        distinct_keys(s.update(i, (s[i].0, v))),
        assoc_get(s.update(i, (s[i].0, v)), s[i].0@) == Some(v),
        forall|k2: Seq<char>| k2 != s[i].0@
            ==> assoc_get(s.update(i, (s[i].0, v)), k2) == assoc_get(s, k2),
{
    let news = s.update(i, (s[i].0, v));
    assert forall|a: int, b: int| 0 <= a < b < news.len() implies news[a].0@ != news[b].0@ by {
        assert(news[a].0@ == s[a].0@ && news[b].0@ == s[b].0@);
    }
    lemma_key_index_unique(news, s[i].0@, i);
    assert forall|k2: Seq<char>| k2 != s[i].0@ implies assoc_get(news, k2) == assoc_get(s, k2) by {
        if has_key(s, k2) {
            let a = key_index(s, k2);
            lemma_key_index_unique(s, k2, a);
            assert(news[a].0@ == k2);
            lemma_key_index_unique(news, k2, a);
        } else {
            if has_key(news, k2) {
                let a = key_index(news, k2);
                assert(s[a].0@ == k2);
            }
        }
    }
}

/// What an in-place value update at one index means for the whole round
/// list.
pub proof fn lemma_rounds_update<V>(s: Seq<(u64, V)>, i: int, v: V)
    requires
        sorted_rounds(s),
        0 <= i < s.len(),
    ensures
        sorted_rounds(s.update(i, (s[i].0, v))),
        round_get(s.update(i, (s[i].0, v)), s[i].0) == Some(v),
        forall|r2: u64| r2 != s[i].0
            ==> round_get(s.update(i, (s[i].0, v)), r2) == round_get(s, r2),
{
    let news = s.update(i, (s[i].0, v));
    assert forall|a: int, b: int| 0 <= a < b < news.len() implies news[a].0 < news[b].0 by {
        assert(news[a].0 == s[a].0 && news[b].0 == s[b].0);
    }
    lemma_round_index_unique(news, s[i].0, i);
    assert forall|r2: u64| r2 != s[i].0 implies round_get(news, r2) == round_get(s, r2) by {
        if has_round(s, r2) {
            let a = round_index(s, r2);
            lemma_round_index_unique(s, r2, a);
            assert(news[a].0 == r2);
            lemma_round_index_unique(news, r2, a);
        } else {
            if has_round(news, r2) {
                let a = round_index(news, r2);
                assert(s[a].0 == r2);
            }
        }
    }
}

// ---------------------------------------------------------------------
// Pair-keyed map: a vector of ((first, second), value) triples with
// distinct key pairs, in insertion order.
// ---------------------------------------------------------------------

/// Map keyed by a pair of addresses, kept as a list of entries with
/// pairwise distinct key pairs, in insertion order.
pub struct PairMap<V> {
    pub entries: Vec<((String, String), V)>,
}

/// View of a pair key.
pub open spec fn pair_view(k: (String, String)) -> (Seq<char>, Seq<char>) {
    (k.0@, k.1@)
}

/// Distinctness of the key pairs.
pub open spec fn distinct_pairs<V>(s: Seq<((String, String), V)>) -> bool {
    forall|i: int, j: int| 0 <= i < j < s.len() ==> pair_view(s[i].0) != pair_view(s[j].0)
}

/// Whether the list holds the key pair.
pub open spec fn has_pair<V>(s: Seq<((String, String), V)>, k: (Seq<char>, Seq<char>)) -> bool {
    exists|i: int| 0 <= i < s.len() && pair_view(s[i].0) == k
}

/// Index of the key pair in the list.
pub open spec fn pair_index<V>(s: Seq<((String, String), V)>, k: (Seq<char>, Seq<char>)) -> int {
    choose|i: int| 0 <= i < s.len() && pair_view(s[i].0) == k
}

/// The value stored under a key pair, if any.
pub open spec fn pair_get<V>(s: Seq<((String, String), V)>, k: (Seq<char>, Seq<char>)) -> Option<V> {
    if has_pair(s, k) {
        Some(s[pair_index(s, k)].1)
    } else {
        None
    }
}

/// With distinct pairs, any index holding `k` is the one `pair_index`
/// picks.
pub proof fn lemma_pair_index_unique<V>(s: Seq<((String, String), V)>, k: (Seq<char>, Seq<char>), i: int)
    requires
        distinct_pairs(s),
        0 <= i < s.len(),
        pair_view(s[i].0) == k,
    ensures
        pair_index(s, k) == i,
        has_pair(s, k),
        pair_get(s, k) == Some(s[i].1),
{
    assert(has_pair(s, k));
    let j = pair_index(s, k);
    if j != i {
        assert(pair_view(s[i].0) == pair_view(s[j].0));
    }
}

/// What an in-place value update at one index means for the whole
/// pair-keyed list.
pub proof fn lemma_pair_update<V>(s: Seq<((String, String), V)>, i: int, v: V)
    requires
        distinct_pairs(s),
        0 <= i < s.len(),
    ensures
        distinct_pairs(s.update(i, (s[i].0, v))),
        pair_get(s.update(i, (s[i].0, v)), pair_view(s[i].0)) == Some(v),
        forall|k2: (Seq<char>, Seq<char>)| k2 != pair_view(s[i].0)
            ==> pair_get(s.update(i, (s[i].0, v)), k2) == pair_get(s, k2),
{
    let news = s.update(i, (s[i].0, v));
    assert forall|a: int, b: int| 0 <= a < b < news.len()
        implies pair_view(news[a].0) != pair_view(news[b].0) by {
        assert(news[a].0 == s[a].0 && news[b].0 == s[b].0);
    }
    lemma_pair_index_unique(news, pair_view(s[i].0), i);
    assert forall|k2: (Seq<char>, Seq<char>)| k2 != pair_view(s[i].0)
        implies pair_get(news, k2) == pair_get(s, k2) by {
        if has_pair(s, k2) {
            let a = pair_index(s, k2);
            lemma_pair_index_unique(s, k2, a);
            assert(pair_view(news[a].0) == k2);
            lemma_pair_index_unique(news, k2, a);
        } else {
            if has_pair(news, k2) {
                let a = pair_index(news, k2);
                assert(pair_view(s[a].0) == k2);
            }
        }
    }
}

impl<V> PairMap<V> {
    /// Key pairs are pairwise distinct.
    pub open spec fn wf(&self) -> bool {
        distinct_pairs(self.entries@)
    }

    pub open spec fn spec_has(&self, k: (Seq<char>, Seq<char>)) -> bool {
        has_pair(self.entries@, k)
    }

    pub open spec fn spec_get(&self, k: (Seq<char>, Seq<char>)) -> Option<V> {
        pair_get(self.entries@, k)
    }

    pub fn new() -> (m: Self)
        ensures
            m.wf(),
            m.entries@ =~= Seq::<((String, String), V)>::empty(),
    {
        PairMap { entries: Vec::new() }
    }

    /// Index of the entry with the given key pair.
    pub fn find(&self, a: &String, b: &String) -> (r: Option<usize>)
        requires
            self.wf(),
        ensures
            match r {
                Some(i) => i < self.entries@.len() && pair_view(self.entries@[i as int].0) == (a@, b@)
                    && self.spec_get((a@, b@)) == Some(self.entries@[i as int].1),
                None => !self.spec_has((a@, b@)),
            },
    {
        let mut i: usize = 0;
        while i < self.entries.len()
            invariant
                i <= self.entries@.len(),
                self.wf(),
                forall|j: int| 0 <= j < i ==> pair_view(self.entries@[j].0) != (a@, b@),
            decreases self.entries@.len() - i,
        {
            if self.entries[i].0.0 == *a && self.entries[i].0.1 == *b {
                proof {
                    lemma_pair_index_unique(self.entries@, (a@, b@), i as int);
                }
                return Some(i);
            }
            i = i + 1;
        }
        None
    }

    /// Insert a binding for a key pair that is not present yet.
    pub fn insert_new(&mut self, k: (String, String), v: V)
        requires
            old(self).wf(),
            !old(self).spec_has(pair_view(k)),
        ensures
            final(self).wf(),
            final(self).entries@ == old(self).entries@.push((k, v)),
            final(self).spec_get(pair_view(k)) == Some(v),
            forall|k2: (Seq<char>, Seq<char>)| k2 != pair_view(k)
                ==> final(self).spec_get(k2) == old(self).spec_get(k2),
    {
        let ghost olds = self.entries@;
        let ghost kv = pair_view(k);
        self.entries.push((k, v));
        proof {
            let news = self.entries@;
            assert forall|i: int, j: int| 0 <= i < j < news.len()
                implies pair_view(news[i].0) != pair_view(news[j].0) by {
                if j == news.len() - 1 {
                    assert(news[i] == olds[i]);
                }
            }
            lemma_pair_index_unique(news, kv, news.len() - 1);
            assert forall|k2: (Seq<char>, Seq<char>)| k2 != kv
                implies pair_get(news, k2) == pair_get(olds, k2) by {
                if has_pair(olds, k2) {
                    let i = pair_index(olds, k2);
                    lemma_pair_index_unique(olds, k2, i);
                    lemma_pair_index_unique(news, k2, i);
                } else {
                    if has_pair(news, k2) {
                        let i = pair_index(news, k2);
                        assert(i < olds.len() ==> pair_view(olds[i].0) == k2);
                    }
                }
            }
        }
    }

    /// Mutable access to the value at a known index; the key stays as it
    /// is.  `lemma_pair_update` recovers what the update means for the
    /// map once the borrow ends.
    pub fn val_mut(&mut self, i: usize) -> (r: &mut V)
        requires
            i < old(self).entries@.len(),
        ensures
            *r == old(self).entries@[i as int].1,
            final(self).entries@ == old(self).entries@.update(
                i as int,
                (old(self).entries@[i as int].0, *final(r)),
            ),
    {
        &mut self.entries[i].1
    }
}

} // verus!
