//! Association vectors with a mathematical `Map` image.
//!
//! The registry, the passivation store and the terminal all keep small
//! keyed tables.  Each is a `Vec` of pairs whose keys are distinct, and
//! every contract speaks of the `Map` that the vector denotes.

use vstd::prelude::*;

use crate::oid::Oid;
use crate::oid::OidView;

verus! {

/// The map denoted by an [`Oid`]-keyed association vector; a later entry
/// would win, but the vectors kept here have distinct keys.
pub open spec fn oid_map<V>(s: Seq<(Oid, V)>) -> Map<OidView, V>
    decreases s.len(),
{
    if s.len() == 0 {
        Map::empty()
    } else {
        oid_map(s.drop_last()).insert(s.last().0@, s.last().1)
    }
}

/// No two entries share a key.
pub open spec fn oid_keys_distinct<V>(s: Seq<(Oid, V)>) -> bool {
    forall|i: int, j: int|
        0 <= i < s.len() && 0 <= j < s.len() && i != j ==> (#[trigger] s[i].0@) != (
        #[trigger] s[j].0@)
}

/// The denoted map holds a key exactly when some entry carries it.
pub proof fn lemma_oid_map_contains<V>(s: Seq<(Oid, V)>, k: OidView)
    ensures
        oid_map(s).contains_key(k) <==> exists|i: int| 0 <= i < s.len() && (#[trigger] s[i].0@)
            == k,
    decreases s.len(),
{
    if s.len() > 0 {
        lemma_oid_map_contains(s.drop_last(), k);
        if oid_map(s).contains_key(k) {
            if s.last().0@ != k {
                let i = choose|i: int| 0 <= i < s.drop_last().len() && (#[trigger] s.drop_last()[i].0@) == k;
                assert(s[i].0@ == k);
            } else {
                assert(s[s.len() - 1].0@ == k);
            }
        }
        if exists|i: int| 0 <= i < s.len() && (#[trigger] s[i].0@) == k {
            let i = choose|i: int| 0 <= i < s.len() && (#[trigger] s[i].0@) == k;
            if i < s.len() - 1 {
                assert(s.drop_last()[i].0@ == k);
            }
        }
    }
}

/// With distinct keys, the denoted map sends each entry's key to its
/// value.
pub proof fn lemma_oid_map_index<V>(s: Seq<(Oid, V)>, i: int)
    requires
        oid_keys_distinct(s),
        0 <= i < s.len(),
    ensures
        oid_map(s).contains_key(s[i].0@),
        oid_map(s)[s[i].0@] == s[i].1,
    decreases s.len(),
{
    if i == s.len() - 1 {
        lemma_oid_map_contains(s, s[i].0@);
    } else {
        assert(s[i].0@ != s.last().0@);
        assert forall|j1: int, j2: int|
            0 <= j1 < s.drop_last().len() && 0 <= j2 < s.drop_last().len() && j1 != j2 implies (
        #[trigger] s.drop_last()[j1].0@) != (#[trigger] s.drop_last()[j2].0@) by {
            assert(s[j1].0@ != s[j2].0@);
        }
        lemma_oid_map_index(s.drop_last(), i);
        assert(s.drop_last()[i] == s[i]);
    }
}

/// Removing entry `i` removes exactly its key from the denoted map.
pub proof fn lemma_oid_map_remove<V>(s: Seq<(Oid, V)>, i: int)
    requires
        oid_keys_distinct(s),
        0 <= i < s.len(),
    ensures
        oid_map(s.remove(i)) == oid_map(s).remove(s[i].0@),
        oid_keys_distinct(s.remove(i)),
    decreases s.len(),
{
    let s2 = s.remove(i);
    assert forall|j1: int, j2: int|
        0 <= j1 < s2.len() && 0 <= j2 < s2.len() && j1 != j2 implies (#[trigger] s2[j1].0@) != (
    #[trigger] s2[j2].0@) by {
        let o1 = if j1 < i {
            j1
        } else {
            j1 + 1
        };
        let o2 = if j2 < i {
            j2
        } else {
            j2 + 1
        };
        assert(s2[j1] == s[o1] && s2[j2] == s[o2]);
    }
    if i == s.len() - 1 {
        assert(s2 =~= s.drop_last());
        assert(!oid_map(s.drop_last()).contains_key(s[i].0@)) by {
            lemma_oid_map_contains(s.drop_last(), s[i].0@);
            if exists|j: int|
                0 <= j < s.drop_last().len() && (#[trigger] s.drop_last()[j].0@) == s[i].0@ {
                let j = choose|j: int|
                    0 <= j < s.drop_last().len() && (#[trigger] s.drop_last()[j].0@) == s[i].0@;
                assert(s[j].0@ == s[i].0@);
            }
        }
        assert(oid_map(s.remove(i)) =~= oid_map(s).remove(s[i].0@));
    } else {
        assert forall|j1: int, j2: int|
            0 <= j1 < s.drop_last().len() && 0 <= j2 < s.drop_last().len() && j1 != j2 implies (
        #[trigger] s.drop_last()[j1].0@) != (#[trigger] s.drop_last()[j2].0@) by {
            assert(s[j1].0@ != s[j2].0@);
        }
        lemma_oid_map_remove(s.drop_last(), i);
        assert(s2.drop_last() =~= s.drop_last().remove(i));
        assert(s2.last() == s.last());
        assert(oid_map(s2) == oid_map(s2.drop_last()).insert(s.last().0@, s.last().1));
        assert(s[i].0@ != s.last().0@);
        assert(oid_map(s.remove(i)) =~= oid_map(s).remove(s[i].0@));
    }
}

/// Appending an entry inserts its key into the denoted map.
pub proof fn lemma_oid_map_push<V>(s: Seq<(Oid, V)>, o: Oid, v: V)
    ensures
        oid_map(s.push((o, v))) == oid_map(s).insert(o@, v),
    decreases s.len(),
{
    assert(s.push((o, v)).drop_last() =~= s);
}

/// Looks a key up in an association vector; yields the entry's index.
pub fn oid_find<V>(v: &Vec<(Oid, V)>, oid: &Oid) -> (r: Option<usize>)
    ensures
        r matches Some(i) ==> (i as int) < v@.len() && v@[i as int].0@ == oid@,
        r is None ==> forall|i: int| 0 <= i < v@.len() ==> (#[trigger] v@[i].0@) != oid@,
{
    let mut i: usize = 0;
    while i < v.len()
        invariant
            i <= v@.len(),
            forall|j: int| 0 <= j < i ==> (#[trigger] v@[j].0@) != oid@,
        decreases v@.len() - i,
    {
        if v[i].0 == *oid {
            return Some(i);
        }
        i = i + 1;
    }
    None
}


/// The map denoted by a `String`-keyed association vector.
pub open spec fn str_map<V>(s: Seq<(String, V)>) -> Map<Seq<char>, V>
    decreases s.len(),
{
    if s.len() == 0 {
        Map::empty()
    } else {
        str_map(s.drop_last()).insert(s.last().0@, s.last().1)
    }
}

/// No two entries share a key.
pub open spec fn str_keys_distinct<V>(s: Seq<(String, V)>) -> bool {
    forall|i: int, j: int|
        0 <= i < s.len() && 0 <= j < s.len() && i != j ==> (#[trigger] s[i].0@) != (
        #[trigger] s[j].0@)
}

/// The denoted map holds a key exactly when some entry carries it.
pub proof fn lemma_str_map_contains<V>(s: Seq<(String, V)>, k: Seq<char>)
    ensures
        str_map(s).contains_key(k) <==> exists|i: int| 0 <= i < s.len() && (#[trigger] s[i].0@)
            == k,
    decreases s.len(),
{
    if s.len() > 0 {
        lemma_str_map_contains(s.drop_last(), k);
        if str_map(s).contains_key(k) {
            if s.last().0@ != k {
                let i = choose|i: int| 0 <= i < s.drop_last().len() && (#[trigger] s.drop_last()[i].0@) == k;
                assert(s[i].0@ == k);
            } else {
                assert(s[s.len() - 1].0@ == k);
            }
        }
        if exists|i: int| 0 <= i < s.len() && (#[trigger] s[i].0@) == k {
            let i = choose|i: int| 0 <= i < s.len() && (#[trigger] s[i].0@) == k;
            if i < s.len() - 1 {
                assert(s.drop_last()[i].0@ == k);
            }
        }
    }
}

/// With distinct keys, the denoted map sends each entry's key to its
/// value.
pub proof fn lemma_str_map_index<V>(s: Seq<(String, V)>, i: int)
    requires
        str_keys_distinct(s),
        0 <= i < s.len(),
    ensures
        str_map(s).contains_key(s[i].0@),
        str_map(s)[s[i].0@] == s[i].1,
    decreases s.len(),
{
    if i == s.len() - 1 {
        lemma_str_map_contains(s, s[i].0@);
    } else {
        assert(s[i].0@ != s.last().0@);
        assert forall|j1: int, j2: int|
            0 <= j1 < s.drop_last().len() && 0 <= j2 < s.drop_last().len() && j1 != j2 implies (
        #[trigger] s.drop_last()[j1].0@) != (#[trigger] s.drop_last()[j2].0@) by {
            assert(s[j1].0@ != s[j2].0@);
        }
        lemma_str_map_index(s.drop_last(), i);
        assert(s.drop_last()[i] == s[i]);
    }
}

/// Appending an entry inserts its key into the denoted map.
pub proof fn lemma_str_map_push<V>(s: Seq<(String, V)>, k: String, v: V)
    ensures
        str_map(s.push((k, v))) == str_map(s).insert(k@, v),
{
    assert(s.push((k, v)).drop_last() =~= s);
}


/// Removing entry `i` removes exactly its key from the denoted map.
pub proof fn lemma_str_map_remove<V>(s: Seq<(String, V)>, i: int)
    requires
        str_keys_distinct(s),
        0 <= i < s.len(),
    ensures
        str_map(s.remove(i)) == str_map(s).remove(s[i].0@),
        str_keys_distinct(s.remove(i)),
    decreases s.len(),
{
    let s2 = s.remove(i);
    assert forall|j1: int, j2: int|
        0 <= j1 < s2.len() && 0 <= j2 < s2.len() && j1 != j2 implies (#[trigger] s2[j1].0@) != (
    #[trigger] s2[j2].0@) by {
        let o1 = if j1 < i {
            j1
        } else {
            j1 + 1
        };
        let o2 = if j2 < i {
            j2
        } else {
            j2 + 1
        };
        assert(s2[j1] == s[o1] && s2[j2] == s[o2]);
    }
    if i == s.len() - 1 {
        assert(s2 =~= s.drop_last());
        assert(!str_map(s.drop_last()).contains_key(s[i].0@)) by {
            lemma_str_map_contains(s.drop_last(), s[i].0@);
            if exists|j: int|
                0 <= j < s.drop_last().len() && (#[trigger] s.drop_last()[j].0@) == s[i].0@ {
                let j = choose|j: int|
                    0 <= j < s.drop_last().len() && (#[trigger] s.drop_last()[j].0@) == s[i].0@;
                assert(s[j].0@ == s[i].0@);
            }
        }
        assert(str_map(s.remove(i)) =~= str_map(s).remove(s[i].0@));
    } else {
        assert forall|j1: int, j2: int|
            0 <= j1 < s.drop_last().len() && 0 <= j2 < s.drop_last().len() && j1 != j2 implies (
        #[trigger] s.drop_last()[j1].0@) != (#[trigger] s.drop_last()[j2].0@) by {
            assert(s[j1].0@ != s[j2].0@);
        }
        lemma_str_map_remove(s.drop_last(), i);
        assert(s2.drop_last() =~= s.drop_last().remove(i));
        assert(s2.last() == s.last());
        assert(s[i].0@ != s.last().0@);
        assert(str_map(s.remove(i)) =~= str_map(s).remove(s[i].0@));
    }
}

/// Looks a key up in a `String`-keyed association vector.
pub fn str_find<V>(v: &Vec<(String, V)>, key: &String) -> (r: Option<usize>)
    ensures
        r matches Some(i) ==> (i as int) < v@.len() && v@[i as int].0@ == key@,
        r is None ==> forall|i: int| 0 <= i < v@.len() ==> (#[trigger] v@[i].0@) != key@,
{
    let mut i: usize = 0;
    while i < v.len()
        invariant
            i <= v@.len(),
            forall|j: int| 0 <= j < i ==> (#[trigger] v@[j].0@) != key@,
        decreases v@.len() - i,
    {
        if v[i].0 == *key {
            return Some(i);
        }
        i = i + 1;
    }
    None
}

/// The map denoted by a `u64`-keyed association vector.
pub open spec fn id_map<V>(s: Seq<(u64, V)>) -> Map<u64, V>
    decreases s.len(),
{
    if s.len() == 0 {
        Map::empty()
    } else {
        id_map(s.drop_last()).insert(s.last().0, s.last().1)
    }
}

/// No two entries share a key.
pub open spec fn id_keys_distinct<V>(s: Seq<(u64, V)>) -> bool {
    forall|i: int, j: int|
        0 <= i < s.len() && 0 <= j < s.len() && i != j ==> (#[trigger] s[i].0) != (
        #[trigger] s[j].0)
}

/// The denoted map holds a key exactly when some entry carries it.
pub proof fn lemma_id_map_contains<V>(s: Seq<(u64, V)>, k: u64)
    ensures
        id_map(s).contains_key(k) <==> exists|i: int| 0 <= i < s.len() && (#[trigger] s[i].0) == k,
    decreases s.len(),
{
    if s.len() > 0 {
        lemma_id_map_contains(s.drop_last(), k);
        if id_map(s).contains_key(k) {
            if s.last().0 != k {
                let i = choose|i: int| 0 <= i < s.drop_last().len() && (#[trigger] s.drop_last()[i].0) == k;
                assert(s[i].0 == k);
            } else {
                assert(s[s.len() - 1].0 == k);
            }
        }
        if exists|i: int| 0 <= i < s.len() && (#[trigger] s[i].0) == k {
            let i = choose|i: int| 0 <= i < s.len() && (#[trigger] s[i].0) == k;
            if i < s.len() - 1 {
                assert(s.drop_last()[i].0 == k);
            }
        }
    }
}

/// With distinct keys, the denoted map sends each entry's key to its
/// value.
pub proof fn lemma_id_map_index<V>(s: Seq<(u64, V)>, i: int)
    requires
        id_keys_distinct(s),
        0 <= i < s.len(),
    ensures
        id_map(s).contains_key(s[i].0),
        id_map(s)[s[i].0] == s[i].1,
    decreases s.len(),
{
    if i == s.len() - 1 {
        lemma_id_map_contains(s, s[i].0);
    } else {
        assert(s[i].0 != s.last().0);
        assert forall|j1: int, j2: int|
            0 <= j1 < s.drop_last().len() && 0 <= j2 < s.drop_last().len() && j1 != j2 implies (
        #[trigger] s.drop_last()[j1].0) != (#[trigger] s.drop_last()[j2].0) by {
            assert(s[j1].0 != s[j2].0);
        }
        lemma_id_map_index(s.drop_last(), i);
        assert(s.drop_last()[i] == s[i]);
    }
}

/// Removing entry `i` removes exactly its key from the denoted map.
pub proof fn lemma_id_map_remove<V>(s: Seq<(u64, V)>, i: int)
    requires
        id_keys_distinct(s),
        0 <= i < s.len(),
    ensures
        id_map(s.remove(i)) == id_map(s).remove(s[i].0),
        id_keys_distinct(s.remove(i)),
    decreases s.len(),
{
    let s2 = s.remove(i);
    assert forall|j1: int, j2: int|
        0 <= j1 < s2.len() && 0 <= j2 < s2.len() && j1 != j2 implies (#[trigger] s2[j1].0) != (
    #[trigger] s2[j2].0) by {
        let o1 = if j1 < i {
            j1
        } else {
            j1 + 1
        };
        let o2 = if j2 < i {
            j2
        } else {
            j2 + 1
        };
        assert(s2[j1] == s[o1] && s2[j2] == s[o2]);
    }
    if i == s.len() - 1 {
        assert(s2 =~= s.drop_last());
        assert(!id_map(s.drop_last()).contains_key(s[i].0)) by {
            lemma_id_map_contains(s.drop_last(), s[i].0);
            if exists|j: int| 0 <= j < s.drop_last().len() && (#[trigger] s.drop_last()[j].0)
                == s[i].0 {
                let j = choose|j: int|
                    0 <= j < s.drop_last().len() && (#[trigger] s.drop_last()[j].0) == s[i].0;
                assert(s[j].0 == s[i].0);
            }
        }
        assert(id_map(s.remove(i)) =~= id_map(s).remove(s[i].0));
    } else {
        assert forall|j1: int, j2: int|
            0 <= j1 < s.drop_last().len() && 0 <= j2 < s.drop_last().len() && j1 != j2 implies (
        #[trigger] s.drop_last()[j1].0) != (#[trigger] s.drop_last()[j2].0) by {
            assert(s[j1].0 != s[j2].0);
        }
        lemma_id_map_remove(s.drop_last(), i);
        assert(s2.drop_last() =~= s.drop_last().remove(i));
        assert(s2.last() == s.last());
        assert(s[i].0 != s.last().0);
        assert(id_map(s.remove(i)) =~= id_map(s).remove(s[i].0));
    }
}

/// Appending an entry inserts its key into the denoted map.
pub proof fn lemma_id_map_push<V>(s: Seq<(u64, V)>, k: u64, v: V)
    ensures
        id_map(s.push((k, v))) == id_map(s).insert(k, v),
{
    assert(s.push((k, v)).drop_last() =~= s);
}

/// Looks a key up in a `u64`-keyed association vector.
pub fn id_find<V>(v: &Vec<(u64, V)>, key: u64) -> (r: Option<usize>)
    ensures
        r matches Some(i) ==> (i as int) < v@.len() && v@[i as int].0 == key,
        r is None ==> forall|i: int| 0 <= i < v@.len() ==> (#[trigger] v@[i].0) != key,
{
    let mut i: usize = 0;
    while i < v.len()
        invariant
            i <= v@.len(),
            forall|j: int| 0 <= j < i ==> (#[trigger] v@[j].0) != key,
        decreases v@.len() - i,
    {
        if v[i].0 == key {
            return Some(i);
        }
        i = i + 1;
    }
    None
}

} // verus!