//! Association lists of named entries and the maps they denote. Both the
//! counter store and the theme registry keep their entries this way, with
//! pairwise-distinct names as their invariant.

use vstd::prelude::*;
use vstd::string::StrSliceExecFns;

verus! {

/// The map an association list denotes; a later entry wins over an earlier
/// one of the same name.
pub open spec fn map_of<T>(entries: Seq<(String, T)>) -> Map<Seq<char>, T>
    decreases entries.len(),
{
    if entries.len() == 0 {
        Map::empty()
    } else {
        map_of(entries.drop_last()).insert(entries.last().0@, entries.last().1)
    }
}

/// Entry names are pairwise distinct.
pub open spec fn unique_names<T>(entries: Seq<(String, T)>) -> bool {
    forall|i: int, j: int|
        0 <= i < j < entries.len() ==> entries[i].0@ != entries[j].0@
}

/// The denoted map holds a name exactly when some entry holds it.
pub proof fn lemma_map_of_domain<T>(entries: Seq<(String, T)>, name: Seq<char>)
    ensures
        map_of(entries).contains_key(name) <==> exists|j: int|
            0 <= j < entries.len() && entries[j].0@ == name,
    decreases entries.len(),
{
    if entries.len() > 0 {
        lemma_map_of_domain(entries.drop_last(), name);
        if map_of(entries).contains_key(name) {
            if entries.last().0@ == name {
                assert(entries[entries.len() - 1].0@ == name);
            } else {
                let j = choose|j: int|
                    0 <= j < entries.drop_last().len() && entries.drop_last()[j].0@ == name;
                assert(entries[j].0@ == name);
            }
        }
        if exists|j: int| 0 <= j < entries.len() && entries[j].0@ == name {
            let j = choose|j: int| 0 <= j < entries.len() && entries[j].0@ == name;
            if j < entries.len() - 1 {
                assert(entries.drop_last()[j].0@ == name);
            }
        }
    }
}

/// With distinct names, each entry gives the denoted map's value at its name.
pub proof fn lemma_map_of_index<T>(entries: Seq<(String, T)>, j: int)
    requires
        unique_names(entries),
        0 <= j < entries.len(),
    ensures
        map_of(entries).contains_key(entries[j].0@),
        map_of(entries)[entries[j].0@] == entries[j].1,
    decreases entries.len(),
{
    if j < entries.len() - 1 {
        lemma_map_of_index(entries.drop_last(), j);
        assert(entries.drop_last()[j] == entries[j]);
    }
}

/// Replacing the entry that holds a name denotes a point update of the map.
pub proof fn lemma_map_of_update<T>(entries: Seq<(String, T)>, j: int, p: (String, T))
    requires
        unique_names(entries),
        0 <= j < entries.len(),
        entries[j].0@ == p.0@,
    ensures
        map_of(entries.update(j, p)) =~= map_of(entries).insert(p.0@, p.1),
        unique_names(entries.update(j, p)),
    decreases entries.len(),
{
    let up = entries.update(j, p);
    assert forall|a: int, b: int| 0 <= a < b < up.len() implies up[a].0@ != up[b].0@ by {
        assert(entries[a].0@ != entries[b].0@);
    }
    if j == entries.len() - 1 {
        assert(up.drop_last() =~= entries.drop_last());
        assert(map_of(entries.drop_last()).insert(entries.last().0@, entries.last().1).insert(
            p.0@,
            p.1,
        ) =~= map_of(entries.drop_last()).insert(p.0@, p.1));
    } else {
        assert(up.drop_last() =~= entries.drop_last().update(j, p));
        lemma_map_of_update(entries.drop_last(), j, p);
        assert(entries[entries.len() - 1].0@ != entries[j].0@);
        assert(map_of(entries.drop_last()).insert(p.0@, p.1).insert(
            entries.last().0@,
            entries.last().1,
        ) =~= map_of(entries.drop_last()).insert(entries.last().0@, entries.last().1).insert(
            p.0@,
            p.1,
        ));
    }
}

/// Appending an entry denotes a point update of the map.
pub proof fn lemma_map_of_push<T>(entries: Seq<(String, T)>, p: (String, T))
    ensures
        map_of(entries.push(p)) == map_of(entries).insert(p.0@, p.1),
{
    assert(entries.push(p).drop_last() =~= entries);
}

/// Character-by-character string comparison.
pub fn str_eq(a: &str, b: &str) -> (r: bool)
    ensures
        r == (a@ == b@),
{
    let al = a.unicode_len();
    let bl = b.unicode_len();
    if al != bl {
        proof {
            assert(a@ != b@);
        }
        return false;
    }
    let mut i: usize = 0;
    while i < al
        invariant
            i <= al,
            al == a@.len(),
            al == b@.len(),
            forall|k: int| 0 <= k < i ==> a@[k] == b@[k],
        decreases al - i,
    {
        if a.get_char(i) != b.get_char(i) {
            return false;
        }
        i = i + 1;
    }
    proof {
        assert(a@ =~= b@);
    }
    true
}

} // verus!
