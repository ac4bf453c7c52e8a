//! The counter store model: a mapping from counter name to a non-negative
//! value, with increment-and-read and unconditional set. The laws proved here
//! are the store's whole point: an increment is a single indivisible
//! read-modify-write of the denoted map, so a run of increments counts each
//! one exactly.

use vstd::prelude::*;
use crate::assoc::{
    map_of, unique_names, lemma_map_of_domain, lemma_map_of_index, lemma_map_of_update,
    lemma_map_of_push, str_eq,
};

verus! {

/// What one increment does to the denoted map: the counter appears at 1, or
/// its value rises by exactly one.
pub open spec fn spec_increment(m: Map<Seq<char>, u64>, name: Seq<char>) -> Map<Seq<char>, u64> {
    m.insert(
        name,
        if m.contains_key(name) {
            ((m[name] + 1) as u64)
        } else {
            1u64
        },
    )
}

/// The store: named counters, each non-negative by its value type.
pub struct CounterStore {
    entries: Vec<(String, u64)>,
}

impl View for CounterStore {
    type V = Map<Seq<char>, u64>;

    closed spec fn view(&self) -> Map<Seq<char>, u64> {
        map_of(self.entries@)
    }
}

impl CounterStore {
    /// Names are pairwise distinct, so each counter has one entry.
    pub closed spec fn wf(&self) -> bool {
        unique_names(self.entries@)
    }

    /// An empty store: no counter exists yet.
    pub fn new() -> (r: CounterStore)
        ensures
            r.wf(),
            r@ == Map::<Seq<char>, u64>::empty(),
    {
        CounterStore { entries: Vec::new() }
    }

    /// Index of the entry that holds `name`, if any.
    fn find(&self, name: &str) -> (r: Option<usize>)
        requires
            self.wf(),
        ensures
            match r {
                None => !self@.contains_key(name@),
                Some(i) => i < self.entries@.len() && self.entries@[i as int].0@ == name@,
            },
    {
        let mut i: usize = 0;
        while i < self.entries.len()
            invariant
                i <= self.entries@.len(),
                forall|k: int| 0 <= k < i ==> self.entries@[k].0@ != name@,
            decreases self.entries@.len() - i,
        {
            if str_eq(self.entries[i].0.as_str(), name) {
                return Some(i);
            }
            i = i + 1;
        }
        proof {
            lemma_map_of_domain(self.entries@, name@);
        }
        None
    }

    /// The stored value, or zero for a counter that does not exist.
    pub fn get(&self, name: &str) -> (r: u64)
        requires
            self.wf(),
        ensures
            r == if self@.contains_key(name@) {
                self@[name@]
            } else {
                0u64
            },
    {
        match self.find(name) {
            Some(i) => {
                proof {
                    lemma_map_of_index(self.entries@, i as int);
                }
                self.entries[i].1
            },
            None => 0,
        }
    }

    /// Atomically create the counter at zero if absent, raise it by exactly
    /// one, and return the resulting value.
    pub fn increment(&mut self, name: &str) -> (r: u64)
        requires
            old(self).wf(),
            old(self)@.contains_key(name@) ==> old(self)@[name@] < u64::MAX,
        ensures
            final(self).wf(),
            final(self)@ == spec_increment(old(self)@, name@),
            r == final(self)@[name@],
            r == if old(self)@.contains_key(name@) {
                old(self)@[name@] + 1
            } else {
                1int
            },
    {
        match self.find(name) {
            Some(i) => {
                proof {
                    lemma_map_of_index(self.entries@, i as int);
                }
                let v = self.entries[i].1;
                let key = self.entries[i].0.clone();
                let ghost entries0 = self.entries@;
                let ghost p = (key, (v + 1) as u64);
                self.entries[i] = (key, v + 1);
                proof {
                    lemma_map_of_update(entries0, i as int, p);
                }
                v + 1
            },
            None => {
                proof {
                    lemma_map_of_domain(self.entries@, name@);
                    assert(forall|j: int|
                        0 <= j < self.entries@.len() ==> self.entries@[j].0@ != name@);
                }
                let key = name.to_owned();
                let ghost entries0 = self.entries@;
                let ghost p = (key, 1u64);
                self.entries.push((key, 1));
                proof {
                    lemma_map_of_push(entries0, p);
                    assert(unique_names(self.entries@));
                }
                1
            },
        }
    }

    /// Unconditionally create or overwrite the counter at `value`.
    pub fn set(&mut self, name: &str, value: u64)
        requires
            old(self).wf(),
        ensures
            final(self).wf(),
            final(self)@ == old(self)@.insert(name@, value),
    {
        match self.find(name) {
            Some(i) => {
                let key = self.entries[i].0.clone();
                let ghost entries0 = self.entries@;
                let ghost p = (key, value);
                self.entries[i] = (key, value);
                proof {
                    lemma_map_of_update(entries0, i as int, p);
                }
            },
            None => {
                proof {
                    lemma_map_of_domain(self.entries@, name@);
                    assert(forall|j: int|
                        0 <= j < self.entries@.len() ==> self.entries@[j].0@ != name@);
                }
                let key = name.to_owned();
                let ghost entries0 = self.entries@;
                let ghost p = (key, value);
                self.entries.push((key, value));
                proof {
                    lemma_map_of_push(entries0, p);
                    assert(unique_names(self.entries@));
                }
            },
        }
    }
}

/// The denoted map after `n` increments of one counter.
pub open spec fn iter_increment(m: Map<Seq<char>, u64>, name: Seq<char>, n: nat) -> Map<
    Seq<char>,
    u64,
>
    decreases n,
{
    if n == 0 {
        m
    } else {
        spec_increment(iter_increment(m, name, (n - 1) as nat), name)
    }
}

/// No lost updates: a run of `n` increments on a fresh counter name leaves
/// the stored value at exactly `n`.
pub proof fn lemma_increments_count(m: Map<Seq<char>, u64>, name: Seq<char>, n: nat)
    requires
        !m.contains_key(name),
        n <= u64::MAX,
    ensures
        n > 0 ==> iter_increment(m, name, n).contains_key(name) && iter_increment(m, name, n)[name]
            == n,
    decreases n,
{
    if n == 1 {
        assert(iter_increment(m, name, 1) == spec_increment(iter_increment(m, name, 0), name));
        assert(iter_increment(m, name, 0) == m);
    } else if n > 1 {
        lemma_increments_count(m, name, (n - 1) as nat);
        let prev = iter_increment(m, name, (n - 1) as nat);
        assert(iter_increment(m, name, n) == spec_increment(prev, name));
        assert(prev[name] == n - 1);
        assert(spec_increment(prev, name)[name] == ((prev[name] + 1) as u64));
    }
}

/// Setting a counter twice to the same value leaves what one set leaves.
pub proof fn lemma_set_idempotent(m: Map<Seq<char>, u64>, name: Seq<char>, value: u64)
    ensures
        m.insert(name, value).insert(name, value) == m.insert(name, value),
{
    assert(m.insert(name, value).insert(name, value) =~= m.insert(name, value));
}

/// An increment of a fresh counter returns 1, and so does an increment right
/// after the counter is set back to 0.
pub proof fn lemma_fresh_and_reset_increment(m: Map<Seq<char>, u64>, name: Seq<char>)
    requires
        !m.contains_key(name),
    ensures
        spec_increment(m, name)[name] == 1,
        spec_increment(spec_increment(m, name).insert(name, 0), name)[name] == 1,
{
}

} // verus!
