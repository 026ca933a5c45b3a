//! A snapshot of the external time-series store.
//!
//! The host records diagnostic samples elsewhere; each tick it hands the
//! engine a read-only snapshot mapping each source key to that
//! diagnostic's history, oldest sample first.  Samples are fixed-point
//! scalars in hundredths of a unit.

use crate::aggregate::int_view;
use vstd::prelude::*;

verus! {

/// A read-only snapshot of sample histories, keyed by source key.
pub struct SampleStore {
    /// Key and history pairs; at most one pair per key.
    pub samples: Vec<(String, Vec<i64>)>,
}

impl View for SampleStore {
    type V = Seq<(Seq<char>, Seq<int>)>;

    open spec fn view(&self) -> Seq<(Seq<char>, Seq<int>)> {
        self.samples@.map_values(|p: (String, Vec<i64>)| (p.0@, int_view(p.1@)))
    }
}

/// The first index holding `key`, or `-1` if there is none.
pub open spec fn find_key(s: Seq<(Seq<char>, Seq<int>)>, key: Seq<char>) -> int
    decreases s.len(),
{
    if s.len() == 0 {
        -1
    } else if s[0].0 == key {
        0
    } else {
        let r = find_key(s.drop_first(), key);
        if r < 0 {
            -1
        } else {
            r + 1
        }
    }
}

/// The history stored under `key`, if any.
pub open spec fn lookup(s: Seq<(Seq<char>, Seq<int>)>, key: Seq<char>) -> Option<Seq<int>> {
    let i = find_key(s, key);
    if i >= 0 {
        Some(s[i].1)
    } else {
        None
    }
}

/// A scan that passed every other key and stopped on a match found the
/// first match.
pub proof fn lemma_find_key_at(s: Seq<(Seq<char>, Seq<int>)>, key: Seq<char>, i: int)
    requires
        0 <= i < s.len(),
        s[i].0 == key,
        forall|j: int| 0 <= j < i ==> (#[trigger] s[j]).0 != key,
    ensures
        find_key(s, key) == i,
    decreases s.len(),
{
    if i > 0 {
        assert forall|j: int| 0 <= j < i - 1 implies (#[trigger] s.drop_first()[j]).0 != key by {
            assert(s.drop_first()[j] == s[j + 1]);
        }
        assert(s.drop_first()[i - 1] == s[i]);
        lemma_find_key_at(s.drop_first(), key, i - 1);
    }
}

/// A scan that matched nothing found nothing.
pub proof fn lemma_find_key_none(s: Seq<(Seq<char>, Seq<int>)>, key: Seq<char>)
    requires
        forall|j: int| 0 <= j < s.len() ==> (#[trigger] s[j]).0 != key,
    ensures
        find_key(s, key) == -1,
    decreases s.len(),
{
    if s.len() > 0 {
        assert forall|j: int| 0 <= j < s.len() - 1 implies (#[trigger] s.drop_first()[j]).0
            != key by {
            assert(s.drop_first()[j] == s[j + 1]);
        }
        lemma_find_key_none(s.drop_first(), key);
    }
}

impl SampleStore {
    /// An empty snapshot: no key has a history.
    pub fn new() -> (r: SampleStore)
        ensures
            r@ == Seq::<(Seq<char>, Seq<int>)>::empty(),
    {
        let r = SampleStore { samples: Vec::new() };
        proof {
            assert(r@ =~= Seq::<(Seq<char>, Seq<int>)>::empty());
        }
        r
    }

    /// Records the history for `key`, replacing any history the snapshot
    /// already held under that key.
    pub fn record(&mut self, key: String, values: Vec<i64>)
        ensures
            final(self)@ == ({
                let i = find_key(old(self)@, key@);
                if i >= 0 {
                    old(self)@.update(i, (key@, int_view(values@)))
                } else {
                    old(self)@.push((key@, int_view(values@)))
                }
            }),
    {
        let ghost s = self@;
        let mut i: usize = 0;
        while i < self.samples.len()
            invariant
                i <= self.samples@.len(),
                s == self@,
                s == old(self)@,
                forall|j: int| 0 <= j < i ==> (#[trigger] s[j]).0 != key@,
            decreases self.samples@.len() - i,
        {
            let cmp = crate::order::str_lex_cmp(self.samples[i].0.as_str(), key.as_str());
            proof {
                assert(s[i as int].0 == self.samples@[i as int].0@);
            }
            if cmp == 1 {
                proof {
                    lemma_find_key_at(s, key@, i as int);
                }
                let ghost sv = self.samples@;
                self.samples.remove(i);
                self.samples.insert(i, (key, values));
                proof {
                    sv.remove_ensures(i as int);
                    assert(self@ =~= s.update(i as int, (key@, int_view(values@))));
                }
                return ;
            }
            proof {
                assert(s[i as int].0 == self.samples@[i as int].0@);
            }
            i = i + 1;
        }
        proof {
            lemma_find_key_none(s, key@);
        }
        self.samples.push((key, values));
        proof {
            assert(self@ =~= s.push((key@, int_view(values@))));
        }
    }

    /// The history recorded under `key`, if the snapshot holds one.
    pub fn get(&self, key: &str) -> (r: Option<&Vec<i64>>)
        ensures
            match r {
                Some(h) => lookup(self@, key@) == Some(int_view(h@)),
                None => lookup(self@, key@) is None,
            },
    {
        let ghost s = self@;
        let mut i: usize = 0;
        while i < self.samples.len()
            invariant
                i <= self.samples@.len(),
                s == self@,
                forall|j: int| 0 <= j < i ==> (#[trigger] s[j]).0 != key@,
            decreases self.samples@.len() - i,
        {
            let cmp = crate::order::str_lex_cmp(self.samples[i].0.as_str(), key);
            proof {
                assert(s[i as int].0 == self.samples@[i as int].0@);
            }
            if cmp == 1 {
                proof {
                    lemma_find_key_at(s, key@, i as int);
                    assert(s[i as int].1 == int_view(self.samples@[i as int].1@));
                }
                return Some(&self.samples[i].1);
            }
            proof {
                assert(s[i as int].0 == self.samples@[i as int].0@);
            }
            i = i + 1;
        }
        proof {
            lemma_find_key_none(s, key@);
        }
        None
    }
}

} // verus!
