//! String-keyed association lists and the finite maps they denote.
//!
//! The session registry stores its server table and its tool index as vectors
//! of pairs with pairwise-distinct keys; every contract over them is stated
//! against `skv_map`, the `Map<Seq<char>, V>` a list denotes (later entries
//! win, which is irrelevant once keys are unique).

use crate::strutil::str_eq;
use vstd::prelude::*;

verus! {

/// The map denoted by an association list; a later entry overrides an earlier
/// one with the same key.
pub open spec fn skv_map<V>(s: Seq<(String, V)>) -> Map<Seq<char>, V>
    decreases s.len(),
{
    if s.len() == 0 {
        Map::empty()
    } else {
        skv_map(s.drop_last()).insert(s.last().0@, s.last().1)
    }
}

/// Keys are pairwise distinct.
pub open spec fn skv_unique<V>(s: Seq<(String, V)>) -> bool {
    forall|i: int, j: int| 0 <= i < j < s.len() ==> s[i].0@ != s[j].0@
}

/// A key is in the denoted map's domain exactly when some entry carries it.
pub proof fn lemma_skv_dom<V>(s: Seq<(String, V)>, k: Seq<char>)
    ensures
        skv_map(s).dom().contains(k) <==> exists|i: int| 0 <= i < s.len() && s[i].0@ == k,
    decreases s.len(),
{
    if s.len() == 0 {
    } else {
        lemma_skv_dom(s.drop_last(), k);
        assert(forall|i: int|
            0 <= i < s.len() - 1 ==> s.drop_last()[i] == s[i]);
        if skv_map(s).dom().contains(k) {
            if s.last().0@ == k {
                assert(s[s.len() - 1].0@ == k);
            }
        }
        if exists|i: int| 0 <= i < s.len() && s[i].0@ == k {
            let i = choose|i: int| 0 <= i < s.len() && s[i].0@ == k;
            if i < s.len() - 1 {
                assert(s.drop_last()[i].0@ == k);
            }
        }
    }
}

/// With unique keys, the entry at `i` is what the denoted map holds for its key.
pub proof fn lemma_skv_index<V>(s: Seq<(String, V)>, i: int)
    requires
        skv_unique(s),
        0 <= i < s.len(),
    ensures
        skv_map(s).dom().contains(s[i].0@),
        skv_map(s)[s[i].0@] == s[i].1,
    decreases s.len(),
{
    if i == s.len() - 1 {
    } else {
        assert(forall|j: int|
            0 <= j < s.len() - 1 ==> s.drop_last()[j] == s[j]);
        lemma_skv_index(s.drop_last(), i);
        assert(s[i].0@ != s.last().0@);
    }
}

/// Index of the entry carrying `k`, if any.
pub fn skv_find<V>(v: &Vec<(String, V)>, k: &str) -> (r: Option<usize>)
    ensures
        match r {
            Some(i) => i < v@.len() && v@[i as int].0@ == k@,
            None => forall|i: int| 0 <= i < v@.len() ==> v@[i].0@ != k@,
        },
{
    let n = v.len();
    let mut i: usize = 0;
    while i < n
        invariant
            i <= n,
            n == v@.len(),
            forall|j: int| 0 <= j < i ==> v@[j].0@ != k@,
        decreases n - i,
    {
        if str_eq(v[i].0.as_str(), k) {
            return Some(i);
        }
        i += 1;
    }
    None
}

/// Does the denoted map contain `k`?
pub fn skv_contains<V>(v: &Vec<(String, V)>, k: &str) -> (r: bool)
    ensures
        r == skv_map(v@).dom().contains(k@),
{
    proof {
        lemma_skv_dom(v@, k@);
    }
    match skv_find(v, k) {
        Some(_) => true,
        None => false,
    }
}

/// The value stored under `k`, if any.
pub fn skv_get<'a, V>(v: &'a Vec<(String, V)>, k: &str) -> (r: Option<&'a V>)
    requires
        skv_unique(v@),
    ensures
        match r {
            Some(val) => skv_map(v@).dom().contains(k@) && *val == skv_map(v@)[k@],
            None => !skv_map(v@).dom().contains(k@),
        },
{
    proof {
        lemma_skv_dom(v@, k@);
    }
    match skv_find(v, k) {
        Some(i) => {
            proof {
                lemma_skv_index(v@, i as int);
            }
            Some(&v[i].1)
        },
        None => None,
    }
}

/// Updating the entry at `i` in place, keeping a key with the same view,
/// updates the denoted map at that key.
proof fn lemma_skv_update<V>(s: Seq<(String, V)>, i: int, k: String, val: V)
    requires
        skv_unique(s),
        0 <= i < s.len(),
        s[i].0@ == k@,
    ensures
        skv_map(s.update(i, (k, val))) =~= skv_map(s).insert(k@, val),
    decreases s.len(),
{
    let s2 = s.update(i, (k, val));
    if i == s.len() - 1 {
        assert(s2.drop_last() =~= s.drop_last());
    } else {
        assert(forall|j: int|
            0 <= j < s.len() - 1 ==> s.drop_last()[j] == s[j]);
        lemma_skv_update(s.drop_last(), i, k, val);
        assert(s2.drop_last() =~= s.drop_last().update(i, (k, val)));
        assert(s2.last() == s.last());
        assert(s[i].0@ != s.last().0@);
    }
}

/// Appending a fresh entry inserts into the denoted map.
proof fn lemma_skv_push<V>(s: Seq<(String, V)>, k: String, val: V)
    ensures
        skv_map(s.push((k, val))) =~= skv_map(s).insert(k@, val),
{
    assert(s.push((k, val)).drop_last() =~= s);
}

/// Store `val` under `k`, replacing an entry that already carries `k`.
pub fn skv_set<V>(v: &mut Vec<(String, V)>, k: String, val: V)
    requires
        skv_unique(old(v)@),
    ensures
        skv_unique(final(v)@),
        skv_map(final(v)@) =~= skv_map(old(v)@).insert(k@, val),
{
    proof {
        lemma_skv_dom(v@, k@);
    }
    match skv_find(v, k.as_str()) {
        Some(i) => {
            let ghost s = v@;
            let ghost ii = i as int;
            proof {
                lemma_skv_update(v@, ii, k, val);
            }
            v.set(i, (k, val));
            proof {
                assert(v@[ii].0@ == s[ii].0@);
                assert(forall|a: int, b: int|
                    0 <= a < b < v@.len() ==> v@[a].0@ == s[a].0@ && v@[b].0@ == s[b].0@);
            }
        },
        None => {
            proof {
                lemma_skv_push(v@, k, val);
            }
            v.push((k, val));
        },
    }
}

/// Removing the entry at `i` removes its key from the denoted map.
proof fn lemma_skv_remove_at<V>(s: Seq<(String, V)>, i: int)
    requires
        skv_unique(s),
        0 <= i < s.len(),
    ensures
        skv_map(s.remove(i)) =~= skv_map(s).remove(s[i].0@),
    decreases s.len(),
{
    let k = s[i].0@;
    if i == s.len() - 1 {
        assert(s.remove(i) =~= s.drop_last());
        lemma_skv_dom(s.drop_last(), k);
        assert(forall|j: int|
            0 <= j < s.len() - 1 ==> s.drop_last()[j] == s[j]);
        assert(!skv_map(s.drop_last()).dom().contains(k));
        assert(skv_map(s.drop_last()) =~= skv_map(s.drop_last()).insert(k, s[i].1).remove(k));
    } else {
        assert(forall|j: int|
            0 <= j < s.len() - 1 ==> s.drop_last()[j] == s[j]);
        lemma_skv_remove_at(s.drop_last(), i);
        assert(s.remove(i).drop_last() =~= s.drop_last().remove(i));
        assert(s.remove(i).last() == s.last());
        assert(s[i].0@ != s.last().0@);
    }
}

/// Remove the entry carrying `k`, returning its value; a missing key is a no-op.
pub fn skv_remove<V>(v: &mut Vec<(String, V)>, k: &str) -> (r: Option<V>)
    requires
        skv_unique(old(v)@),
    ensures
        skv_unique(final(v)@),
        skv_map(final(v)@) =~= skv_map(old(v)@).remove(k@),
        match r {
            Some(val) => skv_map(old(v)@).dom().contains(k@) && val == skv_map(old(v)@)[k@],
            None => !skv_map(old(v)@).dom().contains(k@) && *final(v) == *old(v),
        },
{
    proof {
        lemma_skv_dom(v@, k@);
    }
    match skv_find(v, k) {
        Some(i) => {
            proof {
                lemma_skv_index(v@, i as int);
                lemma_skv_remove_at(v@, i as int);
            }
            let ghost s = v@;
            let ghost ii = i as int;
            let pair = v.remove(i);
            proof {
                assert(forall|a: int|
                    0 <= a < s.len() - 1 ==> v@[a] == (if a < ii {
                        s[a]
                    } else {
                        s[a + 1]
                    }));
                assert forall|a: int, b: int| 0 <= a < b < v@.len() implies v@[a].0@
                    != v@[b].0@ by {
                    let a2: int = if a < ii { a } else { a + 1 };
                    let b2: int = if b < ii { b } else { b + 1 };
                    assert(v@[a] == s[a2]);
                    assert(v@[b] == s[b2]);
                }
            }
            Some(pair.1)
        },
        None => {
            proof {
                assert(skv_map(v@) =~= skv_map(v@).remove(k@));
            }
            None
        },
    }
}

/// `m` with every entry whose value reads `name` taken out.
pub open spec fn skv_purge_values(m: Map<Seq<char>, String>, name: Seq<char>) -> Map<
    Seq<char>,
    String,
> {
    Map::new(|t: Seq<char>| m.dom().contains(t) && m[t]@ != name, |t: Seq<char>| m[t])
}

/// `m` with every value that reads `old_name` replaced by `new_val`.
pub open spec fn skv_rename_values(
    m: Map<Seq<char>, String>,
    old_name: Seq<char>,
    new_val: String,
) -> Map<Seq<char>, String> {
    Map::new(
        |t: Seq<char>| m.dom().contains(t),
        |t: Seq<char>|
            if m[t]@ == old_name {
                new_val
            } else {
                m[t]
            },
    )
}

/// Drop every entry whose value reads `name`.
pub fn skv_purge_value(v: &mut Vec<(String, String)>, name: &str)
    requires
        skv_unique(old(v)@),
    ensures
        skv_unique(final(v)@),
        skv_map(final(v)@) =~= skv_purge_values(skv_map(old(v)@), name@),
{
    let ghost s = old(v)@;
    let mut out: Vec<(String, String)> = Vec::new();
    let n = v.len();
    let mut i: usize = 0;
    proof {
        assert(s.subrange(0, 0) =~= Seq::<(String, String)>::empty());
    }
    while i < n
        invariant
            i <= n,
            n == s.len(),
            v@ == s,
            skv_unique(s),
            skv_unique(out@),
            skv_map(out@) =~= skv_purge_values(skv_map(s.subrange(0, i as int)), name@),
            forall|a: int|
                0 <= a < out@.len() ==> exists|b: int|
                    0 <= b < i && (#[trigger] out@[a]).0@ == s[b].0@,
        decreases n - i,
    {
        let ghost prefix = s.subrange(0, i as int);
        proof {
            assert(s.subrange(0, i + 1).drop_last() =~= prefix);
            assert(s.subrange(0, i + 1).last() == s[i as int]);
            lemma_skv_dom(prefix, s[i as int].0@);
        }
        if !str_eq(v[i].1.as_str(), name) {
            let pair = (v[i].0.clone(), v[i].1.clone());
            proof {
                lemma_skv_push(out@, pair.0, pair.1);
            }
            out.push(pair);
            proof {
                assert(skv_map(out@) =~= skv_purge_values(
                    skv_map(s.subrange(0, i + 1)),
                    name@,
                ));
            }
        } else {
            proof {
                assert(skv_map(out@) =~= skv_purge_values(
                    skv_map(s.subrange(0, i + 1)),
                    name@,
                ));
            }
        }
        i += 1;
    }
    proof {
        assert(s.subrange(0, n as int) =~= s);
    }
    *v = out;
}

/// The elementwise value rewrite realises `skv_rename_values` on the denoted map.
proof fn lemma_skv_map_rename(
    s: Seq<(String, String)>,
    s2: Seq<(String, String)>,
    old_name: Seq<char>,
    new_val: String,
)
    requires
        s2.len() == s.len(),
        forall|j: int| 0 <= j < s.len() ==> (#[trigger] s2[j]).0 == s[j].0,
        forall|j: int|
            0 <= j < s.len() ==> (#[trigger] s2[j]).1 == (if s[j].1@ == old_name {
                new_val
            } else {
                s[j].1
            }),
    ensures
        skv_map(s2) =~= skv_rename_values(skv_map(s), old_name, new_val),
    decreases s.len(),
{
    if s.len() == 0 {
    } else {
        assert(forall|j: int|
            0 <= j < s.len() - 1 ==> s.drop_last()[j] == s[j] && s2.drop_last()[j] == s2[j]);
        lemma_skv_map_rename(s.drop_last(), s2.drop_last(), old_name, new_val);
    }
}

/// Rewrite every value that reads `old_name` to `new_val`, keeping keys.
pub fn skv_rename_value(v: &mut Vec<(String, String)>, old_name: &str, new_val: &String)
    requires
        skv_unique(old(v)@),
    ensures
        skv_unique(final(v)@),
        skv_map(final(v)@) =~= skv_rename_values(skv_map(old(v)@), old_name@, *new_val),
{
    let ghost s = old(v)@;
    let n = v.len();
    let mut i: usize = 0;
    while i < n
        invariant
            i <= n,
            n == s.len(),
            v@.len() == s.len(),
            forall|j: int| 0 <= j < s.len() ==> (#[trigger] v@[j]).0 == s[j].0,
            forall|j: int| i <= j < s.len() ==> (#[trigger] v@[j]).1 == s[j].1,
            forall|j: int|
                0 <= j < i ==> (#[trigger] v@[j]).1 == (if s[j].1@ == old_name@ {
                    *new_val
                } else {
                    s[j].1
                }),
        decreases n - i,
    {
        if str_eq(v[i].1.as_str(), old_name) {
            let key = v[i].0.clone();
            v.set(i, (key, new_val.clone()));
        }
        i += 1;
    }
    proof {
        assert(skv_unique(v@)) by {
            assert(forall|a: int, b: int|
                0 <= a < b < v@.len() ==> v@[a].0@ == s[a].0@ && v@[b].0@ == s[b].0@);
        }
        lemma_skv_map_rename(s, v@, old_name@, *new_val);
    }
}

} // verus!
