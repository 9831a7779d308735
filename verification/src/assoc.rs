//! Small string-keyed tables held as lists of `(key, value)` pairs: the
//! lookup tables of the interner, of shapes and of resolved rows.
use vstd::prelude::*;
use crate::text::str_eq;

verus! {

/// The pairs of a table, keys as character sequences.
pub open spec fn entries_v<V>(e: Seq<(String, V)>) -> Seq<(Seq<char>, V)> {
    e.map_values(|p: (String, V)| (p.0@, p.1))
}

/// No key occurs twice.
pub open spec fn distinct_keys<V>(e: Seq<(Seq<char>, V)>) -> bool {
    forall|i: int, j: int| 0 <= i < j < e.len() ==> (#[trigger] e[i]).0 != (#[trigger] e[j]).0
}

/// The value stored under `k`, if any.
pub open spec fn lookup<V>(e: Seq<(Seq<char>, V)>, k: Seq<char>) -> Option<V>
    decreases e.len(),
{
    if e.len() == 0 {
        None
    } else if e[0].0 == k {
        Some(e[0].1)
    } else {
        lookup(e.drop_first(), k)
    }
}

/// The table with `k` bound to `v`: an existing binding is replaced in
/// place, a new one goes at the end.
pub open spec fn put<V>(e: Seq<(Seq<char>, V)>, k: Seq<char>, v: V) -> Seq<(Seq<char>, V)>
    decreases e.len(),
{
    if e.len() == 0 {
        seq![(k, v)]
    } else if e[0].0 == k {
        seq![(k, v)] + e.drop_first()
    } else {
        seq![e[0]] + put(e.drop_first(), k, v)
    }
}

pub proof fn lemma_lookup_found<V>(e: Seq<(Seq<char>, V)>, k: Seq<char>, i: int)
    requires
        0 <= i < e.len(),
        e[i].0 == k,
        forall|j: int| 0 <= j < i ==> (#[trigger] e[j]).0 != k,
    ensures
        lookup(e, k) == Some(e[i].1),
    decreases i,
{
    if i > 0 {
        assert forall|j: int| 0 <= j < i - 1 implies (#[trigger] e.drop_first()[j]).0 != k by {
            assert(e.drop_first()[j] == e[j + 1]);
        }
        lemma_lookup_found(e.drop_first(), k, i - 1);
    }
}

pub proof fn lemma_lookup_absent<V>(e: Seq<(Seq<char>, V)>, k: Seq<char>)
    requires
        forall|j: int| 0 <= j < e.len() ==> (#[trigger] e[j]).0 != k,
    ensures
        lookup(e, k) is None,
    decreases e.len(),
{
    if e.len() > 0 {
        assert forall|j: int| 0 <= j < e.len() - 1 implies (#[trigger] e.drop_first()[j]).0 != k by {
            assert(e.drop_first()[j] == e[j + 1]);
        }
        lemma_lookup_absent(e.drop_first(), k);
    }
}

pub proof fn lemma_lookup_some<V>(e: Seq<(Seq<char>, V)>, k: Seq<char>)
    requires
        lookup(e, k) is Some,
    ensures
        exists|i: int| 0 <= i < e.len() && (#[trigger] e[i]).0 == k && e[i].1 == lookup(e, k)->0,
    decreases e.len(),
{
    if e[0].0 != k {
        lemma_lookup_some(e.drop_first(), k);
        let i = choose|i: int| 0 <= i < e.drop_first().len() && (#[trigger] e.drop_first()[i]).0 == k && e.drop_first()[i].1 == lookup(e.drop_first(), k)->0;
        assert(e[i + 1] == e.drop_first()[i]);
    } else {
        assert(e[0].0 == k);
    }
}

pub proof fn lemma_put_update<V>(e: Seq<(Seq<char>, V)>, k: Seq<char>, v: V, i: int)
    requires
        0 <= i < e.len(),
        e[i].0 == k,
        forall|j: int| 0 <= j < i ==> (#[trigger] e[j]).0 != k,
    ensures
        put(e, k, v) == e.update(i, (k, v)),
    decreases i,
{
    if i > 0 {
        assert forall|j: int| 0 <= j < i - 1 implies (#[trigger] e.drop_first()[j]).0 != k by {
            assert(e.drop_first()[j] == e[j + 1]);
        }
        lemma_put_update(e.drop_first(), k, v, i - 1);
        assert(seq![e[0]] + e.drop_first().update(i - 1, (k, v)) =~= e.update(i, (k, v)));
    } else {
        assert(seq![(k, v)] + e.drop_first() =~= e.update(0, (k, v)));
    }
}

pub proof fn lemma_put_push<V>(e: Seq<(Seq<char>, V)>, k: Seq<char>, v: V)
    requires
        forall|j: int| 0 <= j < e.len() ==> (#[trigger] e[j]).0 != k,
    ensures
        put(e, k, v) == e.push((k, v)),
    decreases e.len(),
{
    if e.len() > 0 {
        assert forall|j: int| 0 <= j < e.len() - 1 implies (#[trigger] e.drop_first()[j]).0 != k by {
            assert(e.drop_first()[j] == e[j + 1]);
        }
        lemma_put_push(e.drop_first(), k, v);
        assert(seq![e[0]] + e.drop_first().push((k, v)) =~= e.push((k, v)));
    } else {
        assert(seq![(k, v)] =~= e.push((k, v)));
    }
}

/// A read gives back what the last write under the same key wrote, and
/// writes under other keys leave it alone.
pub proof fn lemma_lookup_put<V>(e: Seq<(Seq<char>, V)>, k: Seq<char>, v: V, k2: Seq<char>)
    ensures
        lookup(put(e, k, v), k2) == if k2 == k {
            Some(v)
        } else {
            lookup(e, k2)
        },
    decreases e.len(),
{
    let p = put(e, k, v);
    if e.len() > 0 {
        if e[0].0 == k {
            assert(p == seq![(k, v)] + e.drop_first());
            assert(p[0] == (k, v));
            assert(p.drop_first() =~= e.drop_first());
            if k2 != k {
                assert(lookup(p, k2) == lookup(p.drop_first(), k2));
                assert(lookup(e, k2) == lookup(e.drop_first(), k2));
            }
        } else {
            lemma_lookup_put(e.drop_first(), k, v, k2);
            assert(p == seq![e[0]] + put(e.drop_first(), k, v));
            assert(p[0] == e[0]);
            assert(p.drop_first() =~= put(e.drop_first(), k, v));
            if e[0].0 != k2 {
                assert(lookup(p, k2) == lookup(p.drop_first(), k2));
                assert(lookup(e, k2) == lookup(e.drop_first(), k2));
            }
        }
    } else {
        assert(p == seq![(k, v)]);
        assert(p[0] == (k, v));
        assert(p.drop_first() =~= Seq::<(Seq<char>, V)>::empty());
        if k2 != k {
            assert(lookup(p, k2) == lookup(p.drop_first(), k2));
        }
    }
}

/// Every pair of `put(e, k, v)` is the new binding or a pair of `e`.
pub proof fn lemma_put_entries<V>(e: Seq<(Seq<char>, V)>, k: Seq<char>, v: V, i: int)
    requires
        0 <= i < put(e, k, v).len(),
    ensures
        put(e, k, v)[i] == (k, v) || exists|j: int| 0 <= j < e.len() && e[j] == put(e, k, v)[i],
    decreases e.len(),
{
    let p = put(e, k, v);
    if e.len() > 0 {
        if e[0].0 == k {
            assert(p == seq![(k, v)] + e.drop_first());
            if i > 0 {
                assert(p[i] == e[i]);
            }
        } else {
            assert(p == seq![e[0]] + put(e.drop_first(), k, v));
            if i > 0 {
                lemma_put_entries(e.drop_first(), k, v, i - 1);
                assert(p[i] == put(e.drop_first(), k, v)[i - 1]);
                if put(e.drop_first(), k, v)[i - 1] != (k, v) {
                    let j = choose|j: int| 0 <= j < e.drop_first().len() && e.drop_first()[j] == put(e.drop_first(), k, v)[i - 1];
                    assert(e[j + 1] == p[i]);
                }
            } else {
                assert(e[0] == p[0]);
            }
        }
    } else {
        assert(p == seq![(k, v)]);
    }
}

/// `put` keeps the keys distinct.
pub proof fn lemma_put_distinct<V>(e: Seq<(Seq<char>, V)>, k: Seq<char>, v: V)
    requires
        distinct_keys(e),
    ensures
        distinct_keys(put(e, k, v)),
{
    if exists|i: int| 0 <= i < e.len() && (#[trigger] e[i]).0 == k {
        let i = choose|i: int| 0 <= i < e.len() && (#[trigger] e[i]).0 == k;
        assert forall|j: int| 0 <= j < i implies (#[trigger] e[j]).0 != k by {
            assert(e[j].0 != e[i].0);
        }
        lemma_put_update(e, k, v, i);
    } else {
        lemma_put_push(e, k, v);
    }
}

/// Every value of the table is below `n`.
pub open spec fn values_below(e: Seq<(Seq<char>, u32)>, n: int) -> bool {
    forall|i: int| 0 <= i < e.len() ==> ((#[trigger] e[i]).1 as int) < n
}

pub proof fn lemma_put_below(e: Seq<(Seq<char>, u32)>, k: Seq<char>, v: u32, n: int)
    requires
        values_below(e, n),
        (v as int) < n,
    ensures
        values_below(put(e, k, v), n),
    decreases e.len(),
{
    let p = put(e, k, v);
    if e.len() > 0 {
        if e[0].0 == k {
            assert(p == seq![(k, v)] + e.drop_first());
            assert forall|i: int| 0 <= i < p.len() implies ((#[trigger] p[i]).1 as int) < n by {
                if i > 0 {
                    assert(p[i] == e[i]);
                }
            }
        } else {
            lemma_put_below(e.drop_first(), k, v, n);
            assert(p == seq![e[0]] + put(e.drop_first(), k, v));
            assert forall|i: int| 0 <= i < p.len() implies ((#[trigger] p[i]).1 as int) < n by {
                if i > 0 {
                    assert(p[i] == put(e.drop_first(), k, v)[i - 1]);
                }
            }
        }
    } else {
        assert(p == seq![(k, v)]);
    }
}

pub proof fn lemma_lookup_below(e: Seq<(Seq<char>, u32)>, k: Seq<char>, n: int)
    requires
        values_below(e, n),
        lookup(e, k) is Some,
    ensures
        (lookup(e, k)->0 as int) < n,
{
    lemma_lookup_some(e, k);
}

/// The position of key `k` in `e`, if it occurs.
pub fn find_key<V: Copy>(e: &Vec<(String, V)>, k: &str) -> (r: Option<usize>)
    ensures
        match r {
            Some(i) => i < e@.len() && e@[i as int].0@ == k@ && forall|j: int|
                0 <= j < i ==> (#[trigger] e@[j]).0@ != k@,
            None => forall|j: int| 0 <= j < e@.len() ==> (#[trigger] e@[j]).0@ != k@,
        },
        match r {
            Some(i) => lookup(entries_v(e@), k@) == Some(e@[i as int].1),
            None => lookup(entries_v(e@), k@) is None,
        },
{
    let mut i: usize = 0;
    while i < e.len()
        invariant
            i <= e@.len(),
            forall|j: int| 0 <= j < i ==> (#[trigger] e@[j]).0@ != k@,
        decreases e.len() - i,
    {
        if str_eq(e[i].0.as_str(), k) {
            proof {
                assert forall|j: int| 0 <= j < i implies (#[trigger] entries_v(e@)[j]).0 != k@ by {
                    assert(entries_v(e@)[j].0 == e@[j].0@);
                }
                lemma_lookup_found(entries_v(e@), k@, i as int);
            }
            return Some(i);
        }
        i = i + 1;
    }
    proof {
        assert forall|j: int| 0 <= j < e@.len() implies (#[trigger] entries_v(e@)[j]).0 != k@ by {
            assert(entries_v(e@)[j].0 == e@[j].0@);
        }
        lemma_lookup_absent(entries_v(e@), k@);
    }
    None
}

/// The value under `k`.
pub fn get<V: Copy>(e: &Vec<(String, V)>, k: &str) -> (r: Option<V>)
    ensures
        r == lookup(entries_v(e@), k@),
{
    match find_key(e, k) {
        Some(i) => Some(e[i].1),
        None => None,
    }
}

/// Binds `k` to `v` (see `put`).
pub fn insert<V: Copy>(e: &mut Vec<(String, V)>, k: &str, v: V)
    ensures
        entries_v(final(e)@) == put(entries_v(old(e)@), k@, v),
{
    let ghost ev = entries_v(e@);
    match find_key(e, k) {
        Some(i) => {
            proof {
                assert forall|j: int| 0 <= j < i implies (#[trigger] ev[j]).0 != k@ by {
                    assert(ev[j].0 == e@[j].0@);
                }
                lemma_put_update(ev, k@, v, i as int);
            }
            e.set(i, (k.to_owned(), v));
            assert(entries_v(e@) =~= ev.update(i as int, (k@, v)));
        },
        None => {
            proof {
                assert forall|j: int| 0 <= j < ev.len() implies (#[trigger] ev[j]).0 != k@ by {
                    assert(ev[j].0 == e@[j].0@);
                }
                lemma_put_push(ev, k@, v);
            }
            e.push((k.to_owned(), v));
            assert(entries_v(e@) =~= ev.push((k@, v)));
        },
    }
}

/// A copy of a table.
pub fn clone_entries<V: Copy>(e: &Vec<(String, V)>) -> (r: Vec<(String, V)>)
    ensures
        entries_v(r@) == entries_v(e@),
{
    let mut r: Vec<(String, V)> = Vec::new();
    let mut i: usize = 0;
    while i < e.len()
        invariant
            i <= e@.len(),
            entries_v(r@) == entries_v(e@).take(i as int),
        decreases e.len() - i,
    {
        let ghost r0 = r@;
        let key = e[i].0.clone();
        r.push((key, e[i].1));
        assert(entries_v(e@).take(i + 1) =~= entries_v(e@).take(i as int).push((e@[i as int].0@, e@[i as int].1)));
        assert(entries_v(r@) =~= entries_v(r0).push((e@[i as int].0@, e@[i as int].1)));
        i = i + 1;
    }
    assert(entries_v(e@).take(i as int) =~= entries_v(e@));
    r
}

} // verus!
