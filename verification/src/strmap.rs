//! A small map with text keys. It remembers the order of insertion.
use vstd::prelude::*;
use crate::text::same_str;

verus! {

/// The value of the last entry with a key.
pub open spec fn entry_at<V>(s: Seq<(String, V)>, key: Seq<char>) -> Option<V>
    decreases s.len(),
{
    if s.len() == 0 {
        None
    } else if s.last().0@ == key {
        Some(s.last().1)
    } else {
        entry_at(s.drop_last(), key)
    }
}

/// A map from text to values, with at most one entry for a key.
#[derive(Debug)]
pub struct StrMap<V> {
    pub entries: Vec<(String, V)>,
}

/// What `entry_at` finds is an entry.
pub proof fn lemma_entry_at<V>(s: Seq<(String, V)>, key: Seq<char>)
    ensures
        match entry_at(s, key) {
            Some(v) => exists|i: int| 0 <= i < s.len() && (#[trigger] s[i]).0@ == key && s[i].1 == v,
            None => forall|i: int| 0 <= i < s.len() ==> (#[trigger] s[i]).0@ != key,
        },
    decreases s.len(),
{
    if s.len() > 0 {
        if s.last().0@ == key {
            assert(s[s.len() - 1].0@ == key);
        } else {
            let t = s.drop_last();
            lemma_entry_at(t, key);
            match entry_at(t, key) {
                Some(v) => {
                    let i = choose|i: int| 0 <= i < t.len() && (#[trigger] t[i]).0@ == key && t[i].1 == v;
                    assert(s[i].0@ == key && s[i].1 == v);
                },
                None => {
                    assert forall|i: int| 0 <= i < s.len() implies (#[trigger] s[i]).0@ != key by {
                        if i < s.len() - 1 {
                            assert(t[i].0@ != key);
                        }
                    }
                },
            }
        }
    }
}

/// With distinct keys, an entry is what its key leads to.
pub proof fn lemma_entry_index<V>(s: Seq<(String, V)>, i: int)
    requires
        0 <= i < s.len(),
        distinct(s),
    ensures
        entry_at(s, s[i].0@) == Some(s[i].1),
    decreases s.len(),
{
    if i < s.len() - 1 {
        let t = s.drop_last();
        assert(s[i].0@ != s[s.len() - 1].0@);
        assert forall|a: int, b: int| 0 <= a < b < t.len() implies (#[trigger] t[a]).0@ != (#[trigger] t[b]).0@ by {
            assert(s[a].0@ != s[b].0@);
        }
        lemma_entry_index(t, i);
    }
}

/// No key occurs twice.
pub open spec fn distinct<V>(s: Seq<(String, V)>) -> bool {
    forall|i: int, k: int| 0 <= i < k < s.len() ==> (#[trigger] s[i]).0@ != (#[trigger] s[k]).0@
}

/// Changing the value of an entry changes the map at its key and nowhere
/// else.
proof fn lemma_entry_update<V>(s: Seq<(String, V)>, i: int, e: (String, V), key: Seq<char>)
    requires
        0 <= i < s.len(),
        distinct(s),
        e.0@ == s[i].0@,
    ensures
        entry_at(s.update(i, e), key) == if key == e.0@ {
            Some(e.1)
        } else {
            entry_at(s, key)
        },
        distinct(s.update(i, e)),
    decreases s.len(),
{
    let u = s.update(i, e);
    assert forall|a: int, b: int| 0 <= a < b < u.len() implies (#[trigger] u[a]).0@ != (#[trigger] u[b]).0@ by {
        assert(s[a].0@ != s[b].0@);
    }
    if i == s.len() - 1 {
        assert(u.drop_last() =~= s.drop_last());
    } else {
        let t = s.drop_last();
        assert(u.drop_last() =~= t.update(i, e));
        assert(s[i].0@ != s[s.len() - 1].0@);
        assert forall|a: int, b: int| 0 <= a < b < t.len() implies (#[trigger] t[a]).0@ != (#[trigger] t[b]).0@ by {
            assert(s[a].0@ != s[b].0@);
        }
        lemma_entry_update(t, i, e, key);
    }
}

impl<V> StrMap<V> {
    pub open spec fn wf(self) -> bool {
        distinct(self.entries@)
    }

    /// The value of a key.
    pub open spec fn at(self, key: Seq<char>) -> Option<V> {
        entry_at(self.entries@, key)
    }

    pub fn new() -> (r: StrMap<V>)
        ensures
            r.wf(),
            r.entries@.len() == 0,
            forall|key: Seq<char>| r.at(key) is None,
    {
        StrMap { entries: Vec::new() }
    }

    /// The place of a key's entry.
    pub fn position(&self, key: &str) -> (r: Option<usize>)
        ensures
            match r {
                Some(i) => i < self.entries.len() && self.entries@[i as int].0@ == key@ && self.at(key@) == Some(
                    self.entries@[i as int].1,
                ),
                None => self.at(key@) is None,
            },
    {
        let mut i: usize = self.entries.len();
        proof {
            assert(self.entries@.take(i as int) =~= self.entries@);
        }
        while i > 0
            invariant
                i <= self.entries.len(),
                self.at(key@) == entry_at(self.entries@.take(i as int), key@),
            decreases i,
        {
            proof {
                assert(self.entries@.take(i as int).drop_last() =~= self.entries@.take(i - 1));
                assert(self.entries@.take(i as int).last() == self.entries@[i - 1]);
            }
            if same_str(self.entries[i - 1].0.as_str(), key) {
                return Some(i - 1);
            }
            i = i - 1;
        }
        None
    }

    /// The value of a key.
    pub fn get(&self, key: &str) -> (r: Option<&V>)
        ensures
            match r {
                Some(v) => self.at(key@) == Some(*v),
                None => self.at(key@) is None,
            },
    {
        match self.position(key) {
            Some(i) => Some(&self.entries[i].1),
            None => None,
        }
    }

    pub fn contains_key(&self, key: &str) -> (r: bool)
        ensures
            r == (self.at(key@) is Some),
    {
        self.position(key).is_some()
    }

    /// Sets the value of a key.
    pub fn insert(&mut self, key: String, value: V)
        requires
            old(self).wf(),
        ensures
            final(self).wf(),
            forall|k: Seq<char>|
                #[trigger] final(self).at(k) == if k == key@ {
                    Some(value)
                } else {
                    old(self).at(k)
                },
    {
        match self.position(key.as_str()) {
            Some(i) => {
                let ghost e = (key, value);
                let ghost s = self.entries@;
                self.entries.set(i, (key, value));
                proof {
                    assert(self.entries@ =~= s.update(i as int, e));
                    lemma_entry_update(s, i as int, e, key@);
                    assert forall|k: Seq<char>|
                        #[trigger] self.at(k) == if k == key@ {
                            Some(value)
                        } else {
                            old(self).at(k)
                        } by {
                        lemma_entry_update(s, i as int, e, k);
                    }
                }
            },
            None => {
                let ghost s = self.entries@;
                self.entries.push((key, value));
                proof {
                    lemma_entry_at(s, key@);
                    assert(self.entries@.drop_last() =~= s);
                }
            },
        }
    }

    /// Takes the entry at a place out.
    pub fn take_at(&mut self, i: usize) -> (r: (String, V))
        requires
            old(self).wf(),
            i < old(self).entries.len(),
        ensures
            final(self).wf(),
            r == old(self).entries@[i as int],
            final(self).entries@ == old(self).entries@.remove(i as int),
            forall|k: Seq<char>|
                #[trigger] final(self).at(k) == if k == r.0@ {
                    None
                } else {
                    old(self).at(k)
                },
    {
        let ghost s = self.entries@;
        let r = self.entries.remove(i);
        proof {
            assert(self.entries@ =~= s.remove(i as int));
            assert forall|k: Seq<char>|
                #[trigger] self.at(k) == if k == r.0@ {
                    None
                } else {
                    old(self).at(k)
                } by {
                lemma_entry_remove(s, i as int, k);
            }
            lemma_entry_remove(s, i as int, r.0@);
        }
        r
    }
}

/// Without an entry, its key leads nowhere and the others where they did.
proof fn lemma_entry_remove<V>(s: Seq<(String, V)>, i: int, key: Seq<char>)
    requires
        0 <= i < s.len(),
        distinct(s),
    ensures
        entry_at(s.remove(i), key) == if key == s[i].0@ {
            None
        } else {
            entry_at(s, key)
        },
        distinct(s.remove(i)),
    decreases s.len(),
{
    let u = s.remove(i);
    assert forall|a: int, b: int| 0 <= a < b < u.len() implies (#[trigger] u[a]).0@ != (#[trigger] u[b]).0@ by {
        let a2 = if a < i {
            a
        } else {
            a + 1
        };
        let b2 = if b < i {
            b
        } else {
            b + 1
        };
        assert(s[a2].0@ != s[b2].0@);
    }
    if i == s.len() - 1 {
        assert(u =~= s.drop_last());
        if key == s[i].0@ {
            lemma_entry_at(u, key);
            if let Some(v) = entry_at(u, key) {
                let k = choose|k: int| 0 <= k < u.len() && (#[trigger] u[k]).0@ == key && u[k].1 == v;
                assert(s[k].0@ != s[i].0@);
            }
        }
    } else {
        let t = s.drop_last();
        assert forall|a: int, b: int| 0 <= a < b < t.len() implies (#[trigger] t[a]).0@ != (#[trigger] t[b]).0@ by {
            assert(s[a].0@ != s[b].0@);
        }
        lemma_entry_remove(t, i, key);
        assert(u.drop_last() =~= t.remove(i));
        assert(s[i].0@ != s[s.len() - 1].0@);
    }
}

} // verus!
