//! Association lists keyed by grid coordinate: the shared representation
//! behind the tile store and the sparse cost grid. Entries are
//! coordinate/value pairs with unique coordinates.

use vstd::prelude::*;

verus! {

/// Every coordinate appears at most once.
pub open spec fn unique_keys<V>(s: Seq<((i32, i32), V)>) -> bool {
    forall|i: int, j: int| 0 <= i < j < s.len() ==> s[i].0 != s[j].0
}

/// Some entry holds `pos`.
pub open spec fn has_key<V>(s: Seq<((i32, i32), V)>, pos: (i32, i32)) -> bool {
    exists|i: int| 0 <= i < s.len() && s[i].0 == pos
}

/// The value stored at `pos`, if any.
pub open spec fn lookup<V>(s: Seq<((i32, i32), V)>, pos: (i32, i32)) -> Option<V> {
    if has_key(s, pos) {
        Some(s[choose|i: int| 0 <= i < s.len() && s[i].0 == pos].1)
    } else {
        None
    }
}

/// With unique keys, lookup at a witness index returns that entry's value.
pub proof fn lemma_lookup_at<V>(s: Seq<((i32, i32), V)>, pos: (i32, i32), i: int)
    requires
        unique_keys(s),
        0 <= i < s.len(),
        s[i].0 == pos,
    ensures
        lookup(s, pos) == Some(s[i].1),
{
    let j = choose|j: int| 0 <= j < s.len() && s[j].0 == pos;
    if i < j {
        assert(s[i].0 != s[j].0);
    } else if j < i {
        assert(s[j].0 != s[i].0);
    }
}

/// Updating the entry that holds `pos` changes lookup only at `pos`.
pub proof fn lemma_update<V>(s: Seq<((i32, i32), V)>, i: int, pos: (i32, i32), v: V)
    requires
        unique_keys(s),
        0 <= i < s.len(),
        s[i].0 == pos,
    ensures
        ({
            let s2 = s.update(i, (pos, v));
            &&& unique_keys(s2)
            &&& lookup(s2, pos) == Some(v)
            &&& forall|q: (i32, i32)| q != pos ==> lookup(s2, q) == lookup(s, q)
        }),
{
    let s2 = s.update(i, (pos, v));
    lemma_lookup_at(s2, pos, i);
    assert forall|q: (i32, i32)| q != pos implies lookup(s2, q) == lookup(s, q) by {
        if has_key(s, q) {
            let a = choose|a: int| 0 <= a < s.len() && s[a].0 == q;
            assert(s2[a] == s[a]);
            lemma_lookup_at(s, q, a);
            lemma_lookup_at(s2, q, a);
        } else {
            assert(forall|a: int| 0 <= a < s2.len() ==> s2[a].0 != q);
        }
    }
}

/// Appending an entry with a fresh coordinate changes lookup only there.
pub proof fn lemma_push<V>(s: Seq<((i32, i32), V)>, pos: (i32, i32), v: V)
    requires
        unique_keys(s),
        !has_key(s, pos),
    ensures
        ({
            let s2 = s.push((pos, v));
            &&& unique_keys(s2)
            &&& lookup(s2, pos) == Some(v)
            &&& forall|q: (i32, i32)| q != pos ==> lookup(s2, q) == lookup(s, q)
        }),
{
    let s2 = s.push((pos, v));
    assert(s2[s.len() as int].0 == pos);
    lemma_lookup_at(s2, pos, s.len() as int);
    assert forall|q: (i32, i32)| q != pos implies lookup(s2, q) == lookup(s, q) by {
        if has_key(s, q) {
            let a = choose|a: int| 0 <= a < s.len() && s[a].0 == q;
            assert(s2[a] == s[a]);
            lemma_lookup_at(s, q, a);
            lemma_lookup_at(s2, q, a);
        } else {
            assert(forall|a: int| 0 <= a < s2.len() ==> s2[a].0 != q);
        }
    }
}

/// The index of the entry holding `pos`, if one exists.
pub fn index_of<V>(entries: &Vec<((i32, i32), V)>, pos: (i32, i32)) -> (r: Option<usize>)
    ensures
        match r {
            Some(i) => i < entries@.len() && entries@[i as int].0 == pos,
            None => !has_key(entries@, pos),
        },
{
    let n = entries.len();
    let mut i: usize = 0;
    while i < n
        invariant
            n == entries@.len(),
            i <= n,
            forall|j: int| 0 <= j < i ==> entries@[j].0 != pos,
        decreases n - i,
    {
        let p = entries[i].0;
        if p.0 == pos.0 && p.1 == pos.1 {
            assert(entries@[i as int].0 == pos);
            return Some(i);
        }
        let ghost iprev = i as int;
        i += 1;
        assert(entries@[iprev].0 != pos);
    }
    None
}

} // verus!
