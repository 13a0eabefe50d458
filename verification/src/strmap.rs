//! A small map keyed by strings, kept as a vector of entries in insertion
//! order. Its view is a `Map` from the keys' characters to the values; no key
//! occurs twice.

use vstd::prelude::*;
use crate::text::{chars_eq, chars_of, str_views};

verus! {

pub struct StrMap<V> {
    entries: Vec<(String, V)>,
}

/// The map that a sequence of entries with distinct keys denotes.
pub open spec fn map_of<V>(s: Seq<(String, V)>) -> Map<Seq<char>, V>
    decreases s.len(),
{
    if s.len() == 0 {
        Map::empty()
    } else {
        map_of(s.drop_last()).insert(s.last().0@, s.last().1)
    }
}

pub open spec fn distinct_keys<V>(s: Seq<(String, V)>) -> bool {
    forall|i: int, j: int| 0 <= i < s.len() && 0 <= j < s.len() && i != j ==> s[i].0@ != s[j].0@
}

pub proof fn lemma_map_of<V>(s: Seq<(String, V)>)
    requires
        distinct_keys(s),
    ensures
        forall|k: Seq<char>| #[trigger]
            map_of(s).contains_key(k) <==> exists|i: int| 0 <= i < s.len() && s[i].0@ == k,
        forall|i: int| 0 <= i < s.len() ==> #[trigger] map_of(s)[s[i].0@] == s[i].1,
        map_of(s).dom().finite(),
        map_of(s).len() == s.len(),
    decreases s.len(),
{
    if s.len() > 0 {
        let t = s.drop_last();
        assert(distinct_keys(t));
        lemma_map_of(t);
        let k = s.last().0@;
        assert(!map_of(t).contains_key(k)) by {
            if map_of(t).contains_key(k) {
                let i = choose|i: int| 0 <= i < t.len() && t[i].0@ == k;
                assert(s[i].0@ == s[s.len() - 1].0@);
            }
        }
        assert forall|kk: Seq<char>| #[trigger]
            map_of(s).contains_key(kk) <==> exists|i: int| 0 <= i < s.len() && s[i].0@ == kk by {
            if map_of(s).contains_key(kk) && kk != k {
                let i = choose|i: int| 0 <= i < t.len() && t[i].0@ == kk;
                assert(s[i] == t[i]);
            }
            if exists|i: int| 0 <= i < s.len() && s[i].0@ == kk {
                let i = choose|i: int| 0 <= i < s.len() && s[i].0@ == kk;
                if i < s.len() - 1 {
                    assert(t[i] == s[i]);
                }
            }
        }
        assert forall|i: int| 0 <= i < s.len() implies #[trigger] map_of(s)[s[i].0@] == s[i].1 by {
            if i < s.len() - 1 {
                assert(t[i] == s[i]);
                assert(s[i].0@ != k);
            }
        }
    }
}

impl<V> StrMap<V> {
    pub closed spec fn wf(&self) -> bool {
        distinct_keys(self.entries@)
    }

    pub closed spec fn view(&self) -> Map<Seq<char>, V> {
        map_of(self.entries@)
    }

    /// The keys in the order in which they were first inserted.
    pub closed spec fn key_order(&self) -> Seq<Seq<char>> {
        Seq::new(self.entries@.len(), |i: int| self.entries@[i].0@)
    }

    pub proof fn lemma_view(&self)
        requires
            self.wf(),
        ensures
            self@.dom().finite(),
            self@.len() == self.key_order().len(),
            forall|k: Seq<char>| #[trigger]
                self@.contains_key(k) <==> self.key_order().contains(k),
            forall|i: int, j: int|
                0 <= i < self.key_order().len() && 0 <= j < self.key_order().len() && i != j
                    ==> self.key_order()[i] != self.key_order()[j],
    {
        lemma_map_of(self.entries@);
        assert forall|k: Seq<char>| #[trigger]
            self@.contains_key(k) <==> self.key_order().contains(k) by {
            if self@.contains_key(k) {
                let i = choose|i: int| 0 <= i < self.entries@.len() && self.entries@[i].0@ == k;
                assert(self.key_order()[i] == k);
            }
            if self.key_order().contains(k) {
                let i = choose|i: int| 0 <= i < self.key_order().len() && self.key_order()[i] == k;
                assert(self.entries@[i].0@ == k);
            }
        }
    }

    pub fn new() -> (r: Self)
        ensures
            r.wf(),
            r@ == Map::<Seq<char>, V>::empty(),
            r.key_order() == Seq::<Seq<char>>::empty(),
    {
        let r = StrMap { entries: Vec::new() };
        assert(r.key_order() =~= Seq::<Seq<char>>::empty());
        r
    }

    /// Position of `k` among the entries.
    fn find(&self, k: &[char]) -> (r: Option<usize>)
        requires
            self.wf(),
        ensures
            match r {
                Some(i) => i < self.entries@.len() && self.entries@[i as int].0@ == k@,
                None => forall|i: int| 0 <= i < self.entries@.len() ==> self.entries@[i].0@ != k@,
            },
    {
        let mut i: usize = 0;
        while i < self.entries.len()
            invariant
                i <= self.entries@.len(),
                forall|j: int| 0 <= j < i ==> self.entries@[j].0@ != k@,
            decreases self.entries@.len() - i,
        {
            let kc = chars_of(self.entries[i].0.as_str());
            if chars_eq(kc.as_slice(), k) {
                return Some(i);
            }
            i = i + 1;
        }
        None
    }

    pub fn len(&self) -> (r: usize)
        requires
            self.wf(),
        ensures
            r == self@.len(),
    {
        proof {
            lemma_map_of(self.entries@);
        }
        self.entries.len()
    }

    pub fn is_empty(&self) -> (r: bool)
        requires
            self.wf(),
        ensures
            r == (self@.len() == 0),
    {
        proof {
            lemma_map_of(self.entries@);
        }
        self.entries.len() == 0
    }

    pub fn contains_key(&self, k: &str) -> (r: bool)
        requires
            self.wf(),
        ensures
            r == self@.contains_key(k@),
    {
        proof {
            lemma_map_of(self.entries@);
        }
        let kc = chars_of(k);
        match self.find(kc.as_slice()) {
            Some(_) => true,
            None => false,
        }
    }

    pub fn get(&self, k: &str) -> (r: Option<&V>)
        requires
            self.wf(),
        ensures
            match r {
                Some(v) => self@.contains_key(k@) && *v == self@[k@],
                None => !self@.contains_key(k@),
            },
    {
        proof {
            lemma_map_of(self.entries@);
        }
        let kc = chars_of(k);
        match self.find(kc.as_slice()) {
            Some(i) => Some(&self.entries[i].1),
            None => None,
        }
    }

    /// The stored key equal to `k` and its value.
    pub fn get_key_value(&self, k: &str) -> (r: Option<(&String, &V)>)
        requires
            self.wf(),
        ensures
            match r {
                Some(kv) => self@.contains_key(k@) && kv.0@ == k@ && *kv.1 == self@[k@],
                None => !self@.contains_key(k@),
            },
    {
        proof {
            lemma_map_of(self.entries@);
        }
        let kc = chars_of(k);
        match self.find(kc.as_slice()) {
            Some(i) => Some((&self.entries[i].0, &self.entries[i].1)),
            None => None,
        }
    }

    /// Sets the value of `k`, replacing an existing one in place.
    pub fn insert(&mut self, k: String, v: V)
        requires
            old(self).wf(),
        ensures
            final(self).wf(),
            final(self)@ == old(self)@.insert(k@, v),
            old(self)@.contains_key(k@) ==> final(self).key_order() == old(self).key_order(),
            !old(self)@.contains_key(k@) ==> final(self).key_order() == old(self).key_order().push(k@),
    {
        proof {
            lemma_map_of(self.entries@);
        }
        let kc = chars_of(k.as_str());
        let ghost old_entries = self.entries@;
        match self.find(kc.as_slice()) {
            Some(i) => {
                self.entries.set(i, (k, v));
                proof {
                    let s = self.entries@;
                    assert(distinct_keys(s)) by {
                        assert forall|a: int, b: int|
                            0 <= a < s.len() && 0 <= b < s.len() && a != b implies s[a].0@
                            != s[b].0@ by {
                            assert(old_entries[a].0@ != old_entries[b].0@);
                        }
                    }
                    lemma_map_of(s);
                    assert(map_of(s) =~= map_of(old_entries).insert(k@, v)) by {
                        assert forall|kk: Seq<char>|
                            map_of(s).contains_key(kk) <==> map_of(old_entries).insert(
                                k@,
                                v,
                            ).contains_key(kk) by {
                            if map_of(s).contains_key(kk) {
                                let j = choose|j: int| 0 <= j < s.len() && s[j].0@ == kk;
                                if j != i {
                                    assert(old_entries[j] == s[j]);
                                }
                            }
                            if map_of(old_entries).contains_key(kk) {
                                let j = choose|j: int|
                                    0 <= j < old_entries.len() && old_entries[j].0@ == kk;
                                if j != i {
                                    assert(old_entries[j] == s[j]);
                                } else {
                                    assert(s[j].0@ == kk);
                                }
                            }
                        }
                        assert forall|kk: Seq<char>| #[trigger] map_of(s).contains_key(kk) implies map_of(
                            s,
                        )[kk] == map_of(old_entries).insert(k@, v)[kk] by {
                            let j = choose|j: int| 0 <= j < s.len() && s[j].0@ == kk;
                            if j != i {
                                assert(old_entries[j] == s[j]);
                            }
                        }
                    }
                    assert(self.key_order() =~= Seq::new(old_entries.len(), |j: int| old_entries[j].0@));
                }
            },
            None => {
                self.entries.push((k, v));
                proof {
                    let s = self.entries@;
                    assert(s.drop_last() == old_entries);
                    assert(distinct_keys(s)) by {
                        assert forall|a: int, b: int|
                            0 <= a < s.len() && 0 <= b < s.len() && a != b implies s[a].0@
                            != s[b].0@ by {
                            if a < s.len() - 1 && b < s.len() - 1 {
                                assert(old_entries[a].0@ != old_entries[b].0@);
                            } else if a < s.len() - 1 {
                                assert(old_entries[a] == s[a]);
                            } else {
                                assert(old_entries[b] == s[b]);
                            }
                        }
                    }
                    assert(self.key_order() =~= Seq::new(old_entries.len(), |j: int| old_entries[j].0@).push(
                        k@,
                    ));
                }
            },
        }
    }

    /// Sets `k` only where it has no value yet; the first value stays.
    pub fn insert_if_absent(&mut self, k: String, v: V)
        requires
            old(self).wf(),
        ensures
            final(self).wf(),
            old(self)@.contains_key(k@) ==> final(self)@ == old(self)@ && final(self).key_order()
                == old(self).key_order(),
            !old(self)@.contains_key(k@) ==> final(self)@ == old(self)@.insert(k@, v),
    {
        if !self.contains_key(k.as_str()) {
            self.insert(k, v);
        }
    }

    /// Removes `k`; the other keys keep their order.
    pub fn remove(&mut self, k: &str) -> (r: Option<V>)
        requires
            old(self).wf(),
        ensures
            final(self).wf(),
            final(self)@ == old(self)@.remove(k@),
            match r {
                Some(v) => old(self)@.contains_key(k@) && v == old(self)@[k@],
                None => !old(self)@.contains_key(k@),
            },
    {
        proof {
            lemma_map_of(self.entries@);
        }
        let kc = chars_of(k);
        let ghost old_entries = self.entries@;
        match self.find(kc.as_slice()) {
            Some(i) => {
                let e = self.entries.remove(i);
                proof {
                    let s = self.entries@;
                    assert(s == old_entries.remove(i as int));
                    assert(distinct_keys(s)) by {
                        assert forall|a: int, b: int|
                            0 <= a < s.len() && 0 <= b < s.len() && a != b implies s[a].0@
                            != s[b].0@ by {
                            let oa = if a < i {
                                a
                            } else {
                                a + 1
                            };
                            let ob = if b < i {
                                b
                            } else {
                                b + 1
                            };
                            assert(s[a] == old_entries[oa]);
                            assert(s[b] == old_entries[ob]);
                        }
                    }
                    lemma_map_of(s);
                    assert(map_of(s) =~= map_of(old_entries).remove(k@)) by {
                        assert forall|kk: Seq<char>|
                            map_of(s).contains_key(kk) <==> map_of(old_entries).remove(
                                k@,
                            ).contains_key(kk) by {
                            if map_of(s).contains_key(kk) {
                                let j = choose|j: int| 0 <= j < s.len() && s[j].0@ == kk;
                                let oj = if j < i {
                                    j
                                } else {
                                    j + 1
                                };
                                assert(s[j] == old_entries[oj]);
                            }
                            if map_of(old_entries).contains_key(kk) && kk != k@ {
                                let j = choose|j: int|
                                    0 <= j < old_entries.len() && old_entries[j].0@ == kk;
                                let nj = if j < i {
                                    j
                                } else {
                                    j - 1
                                };
                                assert(j != i);
                                assert(s[nj] == old_entries[j]);
                            }
                        }
                        assert forall|kk: Seq<char>| #[trigger] map_of(s).contains_key(kk) implies map_of(
                            s,
                        )[kk] == map_of(old_entries).remove(k@)[kk] by {
                            let j = choose|j: int| 0 <= j < s.len() && s[j].0@ == kk;
                            let oj = if j < i {
                                j
                            } else {
                                j + 1
                            };
                            assert(s[j] == old_entries[oj]);
                        }
                    }
                }
                Some(e.1)
            },
            None => {
                assert(map_of(old_entries).remove(k@) =~= map_of(old_entries));
                None
            },
        }
    }

    /// The `i`-th entry in insertion order.
    pub fn entry(&self, i: usize) -> (r: (&String, &V))
        requires
            self.wf(),
            i < self.key_order().len(),
        ensures
            r.0@ == self.key_order()[i as int],
            self@.contains_key(r.0@),
            self@[r.0@] == *r.1,
    {
        proof {
            lemma_map_of(self.entries@);
        }
        let e = &self.entries[i];
        (&e.0, &e.1)
    }

    /// The keys, in insertion order.
    pub fn keys(&self) -> (r: Vec<String>)
        requires
            self.wf(),
        ensures
            str_views(r@) == self.key_order(),
    {
        let mut r: Vec<String> = Vec::new();
        let mut i: usize = 0;
        while i < self.entries.len()
            invariant
                i <= self.entries@.len(),
                r@.len() == i,
                str_views(r@) == self.key_order().subrange(0, i as int),
            decreases self.entries@.len() - i,
        {
            let ghost old_r = r@;
            let c = self.entries[i].0.clone();
            assert(c@ == self.key_order()[i as int]);
            r.push(c);
            assert(r@ == old_r.push(c));
            assert(r@.len() == i + 1);
            i = i + 1;
            assert forall|j: int| 0 <= j < i implies #[trigger] str_views(r@)[j] == self.key_order()[j] by {
                if j < i - 1 {
                    assert(r@[j] == old_r[j]);
                    assert(str_views(old_r)[j] == self.key_order().subrange(0, i - 1)[j]);
                }
            }
            assert(str_views(r@) =~= self.key_order().subrange(0, i as int));
        }
        assert(self.key_order().subrange(0, i as int) == self.key_order());
        r
    }
}

} // verus!
