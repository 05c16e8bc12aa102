use vstd::prelude::*;

verus! {

/// The value bound to `k` in an entry list, searching from the back.
pub open spec fn lookup<V>(s: Seq<(String, V)>, k: Seq<char>) -> Option<V>
    decreases s.len(),
{
    if s.len() == 0 {
        None
    } else if s.last().0@ == k {
        Some(s.last().1)
    } else {
        lookup(s.drop_last(), k)
    }
}

/// No key occurs twice in an entry list.
pub open spec fn unique_keys<V>(s: Seq<(String, V)>) -> bool {
    forall|i: int, j: int| 0 <= i < j < s.len() ==> s[i].0@ != s[j].0@
}

/// Some entry has key `k`.
pub open spec fn has_key<V>(s: Seq<(String, V)>, k: Seq<char>) -> bool {
    exists|i: int| 0 <= i < s.len() && s[i].0@ == k
}

/// The map that an entry list stands for.
pub open spec fn map_of<V>(s: Seq<(String, V)>) -> Map<Seq<char>, V> {
    Map::new(|k: Seq<char>| lookup(s, k) is Some, |k: Seq<char>| lookup(s, k)->0)
}

/// With unique keys, the entry at `i` is what its key looks up.
pub proof fn lemma_lookup_at<V>(s: Seq<(String, V)>, i: int)
    requires
        unique_keys(s),
        0 <= i < s.len(),
    ensures
        lookup(s, s[i].0@) == Some(s[i].1),
    decreases s.len(),
{
    if i != s.len() - 1 {
        assert(s.last().0@ != s[i].0@);
        assert(s.drop_last()[i] == s[i]);
        lemma_lookup_at(s.drop_last(), i);
    }
}

/// A key bound by no entry looks up nothing.
pub proof fn lemma_lookup_absent<V>(s: Seq<(String, V)>, k: Seq<char>)
    requires
        !has_key(s, k),
    ensures
        lookup(s, k) is None,
    decreases s.len(),
{
    if s.len() > 0 {
        assert(s.last() == s[s.len() - 1]);
        assert forall|i: int| 0 <= i < s.drop_last().len() implies s.drop_last()[i].0@ != k by {
            assert(s.drop_last()[i] == s[i]);
        }
        lemma_lookup_absent(s.drop_last(), k);
    }
}

/// Lookup in a list with unique keys, as a statement about indices.
pub proof fn lemma_lookup_char<V>(s: Seq<(String, V)>, k: Seq<char>)
    requires
        unique_keys(s),
    ensures
        has_key(s, k) ==> (exists|i: int|
            0 <= i < s.len() && s[i].0@ == k && lookup(s, k) == Some(s[i].1)),
        !has_key(s, k) ==> lookup(s, k) is None,
{
    if has_key(s, k) {
        let i = choose|i: int| 0 <= i < s.len() && s[i].0@ == k;
        lemma_lookup_at(s, i);
    } else {
        lemma_lookup_absent(s, k);
    }
}

/// The map view of a list with unique keys, entry by entry.
pub proof fn lemma_map_of<V>(s: Seq<(String, V)>)
    requires
        unique_keys(s),
    ensures
        forall|i: int|
            0 <= i < s.len() ==> #[trigger] map_of(s).contains_key(s[i].0@) && map_of(s)[s[i].0@]
                == s[i].1,
        forall|k: Seq<char>| #[trigger] map_of(s).contains_key(k) <==> has_key(s, k),
{
    assert forall|i: int| 0 <= i < s.len() implies #[trigger] map_of(s).contains_key(s[i].0@)
        && map_of(s)[s[i].0@] == s[i].1 by {
        lemma_lookup_at(s, i);
    }
    assert forall|k: Seq<char>| #[trigger] map_of(s).contains_key(k) <==> has_key(s, k) by {
        lemma_lookup_char(s, k);
    }
}

/// A finite map from strings to values, kept as a list of entries whose keys
/// are pairwise distinct.
pub struct StrMap<V> {
    pub entries: Vec<(String, V)>,
}

impl<V> View for StrMap<V> {
    type V = Map<Seq<char>, V>;

    open spec fn view(&self) -> Map<Seq<char>, V> {
        map_of(self.entries@)
    }
}

/// Whether two strings hold the same characters.
pub fn str_eq(a: &str, b: &str) -> (r: bool)
    ensures
        r == (a@ == b@),
{
    let x = a.to_owned();
    let y = b.to_owned();
    x == y
}

impl<V> StrMap<V> {
    /// The entry list, in insertion order.
    pub open spec fn seq(&self) -> Seq<(String, V)> {
        self.entries@
    }

    /// No key occurs twice.
    pub open spec fn wf(&self) -> bool {
        unique_keys(self.entries@)
    }

    /// An empty map.
    pub fn new() -> (m: Self)
        ensures
            m.wf(),
            m@ == Map::<Seq<char>, V>::empty(),
            m.seq().len() == 0,
    {
        let m = StrMap { entries: Vec::new() };
        assert(m@ =~= Map::<Seq<char>, V>::empty());
        m
    }

    /// Number of entries.
    pub fn len(&self) -> (n: usize)
        ensures
            n == self.seq().len(),
    {
        self.entries.len()
    }

    /// Whether the map holds no entry.
    pub fn is_empty(&self) -> (b: bool)
        requires
            self.wf(),
        ensures
            b == (self@ == Map::<Seq<char>, V>::empty()),
            b == (self.seq().len() == 0),
    {
        proof {
            lemma_map_of(self.entries@);
            if self.entries@.len() > 0 {
                lemma_lookup_at(self.entries@, 0);
                assert(self@.dom().contains(self.entries@[0].0@));
            } else {
                assert(self@ =~= Map::<Seq<char>, V>::empty());
            }
        }
        self.entries.len() == 0
    }

    /// Position of the entry with key `k`, if there is one.
    pub fn find(&self, k: &str) -> (r: Option<usize>)
        requires
            self.wf(),
        ensures
            match r {
                Some(i) => i < self.seq().len() && self.seq()[i as int].0@ == k@,
                None => !has_key(self.seq(), k@),
            },
            r is Some <==> self@.contains_key(k@),
    {
        proof {
            lemma_map_of(self.entries@);
        }
        let n = self.entries.len();
        let mut i: usize = 0;
        while i < n
            invariant
                n == self.entries@.len(),
                0 <= i <= n,
                forall|j: int| 0 <= j < i ==> self.entries@[j].0@ != k@,
                unique_keys(self.entries@),
            decreases n - i,
        {
            if str_eq(self.entries[i].0.as_str(), k) {
                proof {
                    assert(has_key(self.entries@, k@));
                    lemma_map_of(self.entries@);
                }
                return Some(i);
            }
            i = i + 1;
        }
        None
    }

    /// Whether `k` is bound.
    pub fn contains_key(&self, k: &str) -> (b: bool)
        requires
            self.wf(),
        ensures
            b == self@.contains_key(k@),
    {
        self.find(k).is_some()
    }

    /// The value bound to `k`, if any.
    pub fn get(&self, k: &str) -> (r: Option<&V>)
        requires
            self.wf(),
        ensures
            match r {
                Some(v) => self@.contains_key(k@) && *v == self@[k@],
                None => !self@.contains_key(k@),
            },
    {
        proof {
            lemma_map_of(self.entries@);
        }
        match self.find(k) {
            Some(i) => Some(&self.entries[i].1),
            None => None,
        }
    }

    /// The value that `k` is bound to in the map view: the last entry with
    /// key `k`, if any. Unlike `get` it needs no well-formedness.
    pub fn get_last(&self, k: &str) -> (r: Option<&V>)
        ensures
            match r {
                Some(v) => self@.contains_key(k@) && *v == self@[k@],
                None => !self@.contains_key(k@),
            },
    {
        let n = self.entries.len();
        let mut i: usize = n;
        proof {
            assert(self.entries@.take(n as int) =~= self.entries@);
        }
        while i > 0
            invariant
                n == self.entries@.len(),
                i <= n,
                lookup(self.entries@, k@) == lookup(self.entries@.take(i as int), k@),
            decreases i,
        {
            let ghost pre = self.entries@.take(i as int);
            proof {
                assert(pre.last() == self.entries@[i - 1]);
                assert(pre.drop_last() =~= self.entries@.take(i - 1));
            }
            if str_eq(self.entries[i - 1].0.as_str(), k) {
                return Some(&self.entries[i - 1].1);
            }
            i = i - 1;
        }
        proof {
            assert(self.entries@.take(0).len() == 0);
        }
        None
    }

    /// Replace the value of the entry at position `i`, keeping its key.
    pub fn set_value(&mut self, i: usize, v: V)
        requires
            old(self).wf(),
            i < old(self).seq().len(),
        ensures
            final(self).wf(),
            final(self).seq() == old(self).seq().update(i as int, (old(self).seq()[i as int].0, v)),
    {
        let k = self.entries[i].0.clone();
        self.entries.set(i, (k, v));
        assert(forall|j: int| 0 <= j < self.entries@.len() ==> #[trigger] self.entries@[j].0@ == old(self).entries@[j].0@);
    }

    /// Bind `k` to `v`, replacing any earlier binding of `k`.
    pub fn insert(&mut self, k: String, v: V)
        requires
            old(self).wf(),
        ensures
            final(self).wf(),
            final(self)@ == old(self)@.insert(k@, v),
    {
        let ghost old_s = self.entries@;
        match self.find(k.as_str()) {
            Some(i) => {
                self.entries.set(i, (k, v));
                proof {
                    let s = self.entries@;
                    assert(unique_keys(s));
                    lemma_map_of(old_s);
                    lemma_map_of(s);
                    assert forall|key: Seq<char>|
                        #[trigger] map_of(s).contains_key(key) == map_of(old_s).insert(
                        k@,
                        v,
                    ).contains_key(key) by {
                        if key == k@ {
                            assert(s[i as int].0@ == key);
                            assert(has_key(s, key));
                        } else {
                            if has_key(s, key) {
                                let j = choose|j: int| 0 <= j < s.len() && s[j].0@ == key;
                                assert(j != i);
                                assert(old_s[j] == s[j]);
                                assert(has_key(old_s, key));
                            }
                            if has_key(old_s, key) {
                                let j = choose|j: int| 0 <= j < old_s.len() && old_s[j].0@ == key;
                                assert(j != i);
                                assert(old_s[j] == s[j]);
                                assert(has_key(s, key));
                            }
                        }
                    }
                    assert forall|key: Seq<char>| #[trigger]
                        map_of(s).contains_key(key) implies map_of(s)[key] == map_of(
                        old_s,
                    ).insert(k@, v)[key] by {
                        let j = choose|j: int| 0 <= j < s.len() && s[j].0@ == key;
                        if j != i {
                            assert(old_s[j] == s[j]);
                        }
                    }
                    assert(map_of(s) =~= map_of(old_s).insert(k@, v));
                }
            },
            None => {
                self.entries.push((k, v));
                proof {
                    let s = self.entries@;
                    assert(s.drop_last() =~= old_s);
                    assert forall|a: int, b: int| 0 <= a < b < s.len() implies s[a].0@
                        != s[b].0@ by {
                        if b == s.len() - 1 {
                            assert(old_s[a] == s[a]);
                        } else {
                            assert(old_s[a] == s[a]);
                            assert(old_s[b] == s[b]);
                        }
                    }
                    assert(map_of(s) =~= map_of(old_s).insert(k@, v));
                }
            },
        }
    }

    /// Remove the binding of `k`, if any; returns whether there was one.
    pub fn remove(&mut self, k: &str) -> (removed: bool)
        requires
            old(self).wf(),
        ensures
            final(self).wf(),
            final(self)@ == old(self)@.remove(k@),
            removed == old(self)@.contains_key(k@),
    {
        let ghost old_s = self.entries@;
        match self.find(k) {
            Some(i) => {
                self.entries.remove(i);
                proof {
                    let s = self.entries@;
                    assert(s =~= old_s.remove(i as int));
                    assert forall|a: int, b: int| 0 <= a < b < s.len() implies s[a].0@
                        != s[b].0@ by {
                        let oa = if a < i { a } else { a + 1 };
                        let ob = if b < i { b } else { b + 1 };
                        assert(s[a] == old_s[oa]);
                        assert(s[b] == old_s[ob]);
                    }
                    lemma_map_of(old_s);
                    lemma_map_of(s);
                    assert forall|key: Seq<char>|
                        #[trigger] map_of(s).contains_key(key) == map_of(old_s).remove(
                        k@,
                    ).contains_key(key) by {
                        if has_key(s, key) {
                            let j = choose|j: int| 0 <= j < s.len() && s[j].0@ == key;
                            let oj = if j < i { j } else { j + 1 };
                            assert(s[j] == old_s[oj]);
                        }
                        if has_key(old_s, key) && key != k@ {
                            let j = choose|j: int| 0 <= j < old_s.len() && old_s[j].0@ == key;
                            assert(j != i);
                            let nj = if j < i { j } else { j - 1 };
                            assert(s[nj] == old_s[j]);
                        }
                    }
                    assert forall|key: Seq<char>| #[trigger]
                        map_of(s).contains_key(key) implies map_of(s)[key] == map_of(
                        old_s,
                    ).remove(k@)[key] by {
                        let j = choose|j: int| 0 <= j < s.len() && s[j].0@ == key;
                        let oj = if j < i { j } else { j + 1 };
                        assert(s[j] == old_s[oj]);
                    }
                    assert(map_of(s) =~= map_of(old_s).remove(k@));
                }
                true
            },
            None => {
                proof {
                    lemma_map_of(old_s);
                    assert(map_of(old_s) =~= map_of(old_s).remove(k@));
                }
                false
            },
        }
    }
}

} // verus!
