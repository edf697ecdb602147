//! Integer-keyed association lists and the finite maps they denote; the
//! session registry stores its session table this way, with pairwise-distinct
//! identifiers.

use vstd::prelude::*;

verus! {

/// The map denoted by an association list; a later entry overrides an earlier
/// one with the same key.
pub open spec fn ikv_map<V>(s: Seq<(i32, V)>) -> Map<i32, V>
    decreases s.len(),
{
    if s.len() == 0 {
        Map::empty()
    } else {
        ikv_map(s.drop_last()).insert(s.last().0, s.last().1)
    }
}

/// Keys are pairwise distinct.
pub open spec fn ikv_unique<V>(s: Seq<(i32, V)>) -> bool {
    forall|i: int, j: int| 0 <= i < j < s.len() ==> s[i].0 != s[j].0
}

/// A key is in the denoted map's domain exactly when some entry carries it.
pub proof fn lemma_ikv_dom<V>(s: Seq<(i32, V)>, k: i32)
    ensures
        ikv_map(s).dom().contains(k) <==> exists|i: int| 0 <= i < s.len() && s[i].0 == k,
    decreases s.len(),
{
    if s.len() == 0 {
    } else {
        lemma_ikv_dom(s.drop_last(), k);
        assert(forall|i: int|
            0 <= i < s.len() - 1 ==> s.drop_last()[i] == s[i]);
        if ikv_map(s).dom().contains(k) {
            if s.last().0 == k {
                assert(s[s.len() - 1].0 == k);
            }
        }
        if exists|i: int| 0 <= i < s.len() && s[i].0 == k {
            let i = choose|i: int| 0 <= i < s.len() && s[i].0 == k;
            if i < s.len() - 1 {
                assert(s.drop_last()[i].0 == k);
            }
        }
    }
}

/// With unique keys, the entry at `i` is what the denoted map holds for its key.
pub proof fn lemma_ikv_index<V>(s: Seq<(i32, V)>, i: int)
    requires
        ikv_unique(s),
        0 <= i < s.len(),
    ensures
        ikv_map(s).dom().contains(s[i].0),
        ikv_map(s)[s[i].0] == s[i].1,
    decreases s.len(),
{
    if i == s.len() - 1 {
    } else {
        assert(forall|j: int|
            0 <= j < s.len() - 1 ==> s.drop_last()[j] == s[j]);
        lemma_ikv_index(s.drop_last(), i);
        assert(s[i].0 != s.last().0);
    }
}

/// Index of the entry carrying `k`, if any.
pub fn ikv_find<V>(v: &Vec<(i32, V)>, k: i32) -> (r: Option<usize>)
    ensures
        match r {
            Some(i) => i < v@.len() && v@[i as int].0 == k,
            None => forall|i: int| 0 <= i < v@.len() ==> v@[i].0 != k,
        },
{
    let n = v.len();
    let mut i: usize = 0;
    while i < n
        invariant
            i <= n,
            n == v@.len(),
            forall|j: int| 0 <= j < i ==> v@[j].0 != k,
        decreases n - i,
    {
        if v[i].0 == k {
            return Some(i);
        }
        i += 1;
    }
    None
}

/// The value stored under `k`, if any.
pub fn ikv_get<'a, V>(v: &'a Vec<(i32, V)>, k: i32) -> (r: Option<&'a V>)
    requires
        ikv_unique(v@),
    ensures
        match r {
            Some(val) => ikv_map(v@).dom().contains(k) && *val == ikv_map(v@)[k],
            None => !ikv_map(v@).dom().contains(k),
        },
{
    proof {
        lemma_ikv_dom(v@, k);
    }
    match ikv_find(v, k) {
        Some(i) => {
            proof {
                lemma_ikv_index(v@, i as int);
            }
            Some(&v[i].1)
        },
        None => None,
    }
}

/// Updating the entry at `i` in place updates the denoted map at that key.
proof fn lemma_ikv_update<V>(s: Seq<(i32, V)>, i: int, val: V)
    requires
        ikv_unique(s),
        0 <= i < s.len(),
    ensures
        ikv_map(s.update(i, (s[i].0, val))) =~= ikv_map(s).insert(s[i].0, val),
    decreases s.len(),
{
    let s2 = s.update(i, (s[i].0, val));
    if i == s.len() - 1 {
        assert(s2.drop_last() =~= s.drop_last());
    } else {
        assert(forall|j: int|
            0 <= j < s.len() - 1 ==> s.drop_last()[j] == s[j]);
        lemma_ikv_update(s.drop_last(), i, val);
        assert(s2.drop_last() =~= s.drop_last().update(i, (s[i].0, val)));
        assert(s2.last() == s.last());
        assert(s[i].0 != s.last().0);
    }
}

/// Appending a fresh entry inserts into the denoted map.
proof fn lemma_ikv_push<V>(s: Seq<(i32, V)>, k: i32, val: V)
    ensures
        ikv_map(s.push((k, val))) =~= ikv_map(s).insert(k, val),
{
    assert(s.push((k, val)).drop_last() =~= s);
}

/// Store `val` under `k`, replacing an entry that already carries `k`.
pub fn ikv_set<V>(v: &mut Vec<(i32, V)>, k: i32, val: V)
    requires
        ikv_unique(old(v)@),
    ensures
        ikv_unique(final(v)@),
        ikv_map(final(v)@) =~= ikv_map(old(v)@).insert(k, val),
{
    proof {
        lemma_ikv_dom(v@, k);
    }
    match ikv_find(v, k) {
        Some(i) => {
            let ghost s = v@;
            let ghost ii = i as int;
            proof {
                lemma_ikv_update(v@, ii, val);
            }
            v.set(i, (k, val));
            proof {
                assert(v@ =~= s.update(ii, (s[ii].0, val)));
                assert(forall|a: int, b: int|
                    0 <= a < b < v@.len() ==> v@[a].0 == s[a].0 && v@[b].0 == s[b].0);
            }
        },
        None => {
            proof {
                lemma_ikv_push(v@, k, val);
            }
            v.push((k, val));
        },
    }
}

/// Removing the entry at `i` removes its key from the denoted map.
proof fn lemma_ikv_remove_at<V>(s: Seq<(i32, V)>, i: int)
    requires
        ikv_unique(s),
        0 <= i < s.len(),
    ensures
        ikv_map(s.remove(i)) =~= ikv_map(s).remove(s[i].0),
    decreases s.len(),
{
    let k = s[i].0;
    if i == s.len() - 1 {
        assert(s.remove(i) =~= s.drop_last());
        lemma_ikv_dom(s.drop_last(), k);
        assert(forall|j: int|
            0 <= j < s.len() - 1 ==> s.drop_last()[j] == s[j]);
        assert(!ikv_map(s.drop_last()).dom().contains(k));
        assert(ikv_map(s.drop_last()) =~= ikv_map(s.drop_last()).insert(k, s[i].1).remove(k));
    } else {
        assert(forall|j: int|
            0 <= j < s.len() - 1 ==> s.drop_last()[j] == s[j]);
        lemma_ikv_remove_at(s.drop_last(), i);
        assert(s.remove(i).drop_last() =~= s.drop_last().remove(i));
        assert(s.remove(i).last() == s.last());
        assert(s[i].0 != s.last().0);
    }
}

/// Remove the entry carrying `k`, returning its value; a missing key is a no-op.
pub fn ikv_remove<V>(v: &mut Vec<(i32, V)>, k: i32) -> (r: Option<V>)
    requires
        ikv_unique(old(v)@),
    ensures
        ikv_unique(final(v)@),
        ikv_map(final(v)@) =~= ikv_map(old(v)@).remove(k),
        match r {
            Some(val) => ikv_map(old(v)@).dom().contains(k) && val == ikv_map(old(v)@)[k],
            None => !ikv_map(old(v)@).dom().contains(k) && *final(v) == *old(v),
        },
{
    proof {
        lemma_ikv_dom(v@, k);
    }
    match ikv_find(v, k) {
        Some(i) => {
            proof {
                lemma_ikv_index(v@, i as int);
                lemma_ikv_remove_at(v@, i as int);
            }
            let ghost s = v@;
            let ghost ii = i as int;
            let pair = v.remove(i);
            proof {
                assert(forall|a: int|
                    0 <= a < s.len() - 1 ==> v@[a] == (if a < ii {
                        s[a]
                    } else {
                        s[a + 1]
                    }));
                assert forall|a: int, b: int| 0 <= a < b < v@.len() implies v@[a].0
                    != v@[b].0 by {
                    let a2: int = if a < ii { a } else { a + 1 };
                    let b2: int = if b < ii { b } else { b + 1 };
                    assert(v@[a] == s[a2]);
                    assert(v@[b] == s[b2]);
                }
            }
            Some(pair.1)
        },
        None => {
            proof {
                assert(ikv_map(v@) =~= ikv_map(v@).remove(k));
            }
            None
        },
    }
}

} // verus!
