//! Small string-keyed tables kept as vectors of pairs, and string sets kept
//! as vectors. A key may occur more than once in the vector; the pair that
//! stands last for a key is the one that counts, so the tables behave as
//! maps whatever their history.
use vstd::prelude::*;
use crate::text::str_eq;

verus! {

/// The value the table holds for `k`: the one of the last pair with that key.
pub open spec fn lookup<V>(s: Seq<(String, V)>, k: Seq<char>) -> Option<V>
    decreases s.len(),
{
    if s.len() == 0 {
        None
    } else if s.last().0@ == k {
        Some(s.last().1)
    } else {
        lookup(s.drop_last(), k)
    }
}

/// Whether some element of the vector spells `k`.
pub open spec fn contains_str(s: Seq<String>, k: Seq<char>) -> bool {
    exists|i: int| 0 <= i < s.len() && (#[trigger] s[i])@ == k
}

/// A table whose pair at `i` is replaced keeps every other key's value and
/// answers the new value for the key of the replaced pair, provided that pair
/// was the one that counted.
proof fn lemma_lookup_update<V>(s: Seq<(String, V)>, i: int, p: (String, V), q: Seq<char>)
    requires
        0 <= i < s.len(),
        p.0@ == s[i].0@,
        forall|j: int| i < j < s.len() ==> s[j].0@ != s[i].0@,
    ensures
        lookup(s.update(i, p), q) == if q == p.0@ { Some(p.1) } else { lookup(s, q) },
    decreases s.len(),
{
    let t = s.update(i, p);
    if i == s.len() - 1 {
        assert(t.drop_last() =~= s.drop_last());
    } else {
        assert(t.drop_last() =~= s.drop_last().update(i, p));
        lemma_lookup_update(s.drop_last(), i, p, q);
    }
}

/// The last index whose key spells `k`, if any.
pub fn kv_find<V>(v: &Vec<(String, V)>, k: &str) -> (r: Option<usize>)
    ensures
        match r {
            Some(i) => i < v.len() && v@[i as int].0@ == k@ && lookup(v@, k@) == Some(v@[i as int].1)
                && forall|j: int| i < j < v.len() ==> v@[j].0@ != k@,
            None => lookup(v@, k@) is None,
        },
{
    let mut i: usize = v.len();
    assert(v@.subrange(0, i as int) =~= v@);
    while i > 0
        invariant
            i <= v.len(),
            forall|j: int| i <= j < v.len() ==> v@[j].0@ != k@,
            lookup(v@, k@) == lookup(v@.subrange(0, i as int), k@),
        decreases i,
    {
        let ghost pre = v@.subrange(0, i as int);
        if str_eq(v[i - 1].0.as_str(), k) {
            return Some(i - 1);
        }
        assert(pre.drop_last() =~= v@.subrange(0, i - 1));
        i = i - 1;
    }
    None
}

/// Reads the value the table holds for `k`.
pub fn kv_get<'a, V>(v: &'a Vec<(String, V)>, k: &str) -> (r: Option<&'a V>)
    ensures
        match r {
            Some(x) => lookup(v@, k@) == Some(*x),
            None => lookup(v@, k@) is None,
        },
{
    match kv_find(v, k) {
        Some(i) => Some(&v[i].1),
        None => None,
    }
}

/// Makes the table answer `val` for `k`, leaving every other key alone.
pub fn kv_put<V>(v: &mut Vec<(String, V)>, k: String, val: V)
    ensures
        forall|q: Seq<char>| #[trigger] lookup(final(v)@, q) == if q == k@ { Some(val) } else { lookup(old(v)@, q) },
        final(v)@.len() == old(v)@.len() + if lookup(old(v)@, k@) is Some { 0int } else { 1int },
{
    match kv_find(v, k.as_str()) {
        Some(i) => {
            let ghost s = v@;
            let ghost kk = k@;
            v.set(i, (k, val));
            assert forall|q: Seq<char>| #[trigger] lookup(v@, q) == if q == kk { Some(val) } else { lookup(s, q) } by {
                lemma_lookup_update(s, i as int, v@[i as int], q);
            }
        },
        None => {
            let ghost s = v@;
            v.push((k, val));
            assert(v@.drop_last() =~= s);
        },
    }
}

/// The keys a table holds a value for: finitely many, and no more of them
/// than the table has pairs.
pub proof fn lemma_lookup_domain<V>(s: Seq<(String, V)>)
    ensures
        Set::new(|k: Seq<char>| lookup(s, k) is Some).finite(),
        Set::new(|k: Seq<char>| lookup(s, k) is Some).len() <= s.len(),
    decreases s.len(),
{
    let d = Set::new(|k: Seq<char>| lookup(s, k) is Some);
    if s.len() == 0 {
        assert(d =~= Set::<Seq<char>>::empty());
    } else {
        let rest = s.drop_last();
        lemma_lookup_domain(rest);
        let dr = Set::new(|k: Seq<char>| lookup(rest, k) is Some);
        assert(d =~= dr.insert(s.last().0@));
    }
}

/// Taking out a pair whose key is not `q` leaves the answer for `q` alone.
proof fn lemma_lookup_remove<V>(s: Seq<(String, V)>, i: int, q: Seq<char>)
    requires
        0 <= i < s.len(),
        s[i].0@ != q,
    ensures
        lookup(s.remove(i), q) == lookup(s, q),
    decreases s.len(),
{
    if i == s.len() - 1 {
        assert(s.remove(i) =~= s.drop_last());
    } else {
        assert(s.remove(i).drop_last() =~= s.drop_last().remove(i));
        assert(s.remove(i).last() == s.last());
        lemma_lookup_remove(s.drop_last(), i, q);
    }
}

/// A key that no pair carries has no value.
proof fn lemma_lookup_absent<V>(s: Seq<(String, V)>, k: Seq<char>)
    requires
        forall|j: int| 0 <= j < s.len() ==> s[j].0@ != k,
    ensures
        lookup(s, k) is None,
    decreases s.len(),
{
    if s.len() > 0 {
        lemma_lookup_absent(s.drop_last(), k);
    }
}

/// Makes the table hold nothing for `k`, leaving every other key alone.
pub fn kv_remove<V>(v: &mut Vec<(String, V)>, k: &str)
    ensures
        forall|q: Seq<char>| #[trigger] lookup(final(v)@, q) == if q == k@ { None } else { lookup(old(v)@, q) },
{
    let ghost s = v@;
    let mut i: usize = 0;
    while i < v.len()
        invariant
            i <= v.len(),
            forall|j: int| 0 <= j < i ==> v@[j].0@ != k@,
            forall|q: Seq<char>| q != k@ ==> #[trigger] lookup(v@, q) == lookup(s, q),
        decreases v.len() - i,
    {
        if str_eq(v[i].0.as_str(), k) {
            let ghost before = v@;
            let _ = v.remove(i);
            assert forall|q: Seq<char>| q != k@ implies #[trigger] lookup(v@, q) == lookup(s, q) by {
                lemma_lookup_remove(before, i as int, q);
            }
        } else {
            i = i + 1;
        }
    }
    proof {
        lemma_lookup_absent(v@, k@);
    }
}

/// Adds `k` to the set unless it is already there.
pub fn set_insert(v: &mut Vec<String>, k: String)
    ensures
        forall|q: Seq<char>| #[trigger] contains_str(final(v)@, q) == (q == k@ || contains_str(old(v)@, q)),
{
    if !set_contains(v, k.as_str()) {
        let ghost s = v@;
        v.push(k);
        assert forall|q: Seq<char>| #[trigger] contains_str(v@, q) == (q == v@.last()@ || contains_str(s, q)) by {
            if contains_str(s, q) {
                let i = choose|i: int| 0 <= i < s.len() && (#[trigger] s[i])@ == q;
                assert(v@[i] == s[i]);
            }
            if contains_str(v@, q) && q != v@.last()@ {
                let i = choose|i: int| 0 <= i < v@.len() && (#[trigger] v@[i])@ == q;
                assert(s[i] == v@[i]);
            }
        }
    }
}

/// Whether the set holds `k`.
pub fn set_contains(v: &Vec<String>, k: &str) -> (r: bool)
    ensures
        r == contains_str(v@, k@),
{
    let mut i: usize = 0;
    while i < v.len()
        invariant
            i <= v.len(),
            forall|j: int| 0 <= j < i ==> v@[j]@ != k@,
        decreases v.len() - i,
    {
        if str_eq(v[i].as_str(), k) {
            return true;
        }
        i = i + 1;
    }
    false
}

/// Takes `k` out of the set; tells whether it was there.
pub fn set_remove(v: &mut Vec<String>, k: &str) -> (r: bool)
    ensures
        r == contains_str(old(v)@, k@),
        forall|q: Seq<char>| #[trigger] contains_str(final(v)@, q) == (q != k@ && contains_str(old(v)@, q)),
{
    let ghost s = v@;
    let mut kept: Vec<String> = Vec::new();
    let mut found = false;
    let mut i: usize = 0;
    while i < v.len()
        invariant
            v@ == s,
            i <= s.len(),
            found == exists|j: int| 0 <= j < i && (#[trigger] s[j])@ == k@,
            forall|q: Seq<char>| #[trigger] contains_str(kept@, q) == (q != k@ && exists|j: int| 0 <= j < i && (#[trigger] s[j])@ == q),
        decreases s.len() - i,
    {
        let ghost before = kept@;
        if str_eq(v[i].as_str(), k) {
            found = true;
        } else {
            kept.push(v[i].clone());
            assert forall|q: Seq<char>| #[trigger] contains_str(kept@, q) == (q != k@ && exists|j: int| 0 <= j < i + 1 && (#[trigger] s[j])@ == q) by {
                if contains_str(kept@, q) {
                    let m = choose|m: int| 0 <= m < kept@.len() && (#[trigger] kept@[m])@ == q;
                    if m < before.len() {
                        assert(before[m] == kept@[m]);
                        assert(contains_str(before, q));
                    }
                }
                if q != k@ && exists|j: int| 0 <= j < i + 1 && (#[trigger] s[j])@ == q {
                    let j = choose|j: int| 0 <= j < i + 1 && (#[trigger] s[j])@ == q;
                    if j < i {
                        assert(contains_str(before, q));
                        let m = choose|m: int| 0 <= m < before.len() && (#[trigger] before[m])@ == q;
                        assert(kept@[m] == before[m]);
                    } else {
                        assert(kept@[before.len() as int] == v@[i as int]);
                    }
                }
            }
        }
        i = i + 1;
    }
    *v = kept;
    found
}

} // verus!
