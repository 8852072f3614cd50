//! Association lists keyed by strings: `(key, value)` pairs in insertion
//! order with no key twice. They stand for the `HashMap<String, _>` values of
//! the icon resolver.
use vstd::prelude::*;

verus! {

/// The value stored under `k`.
pub open spec fn lookup<V>(es: Seq<(Seq<char>, V)>, k: Seq<char>) -> Option<V>
    decreases es.len(),
{
    if es.len() == 0 {
        None
    } else if es.last().0 == k {
        Some(es.last().1)
    } else {
        lookup(es.drop_last(), k)
    }
}

/// `HashMap::entry(k).or_insert(v)` for a non-empty key; empty keys are skipped.
pub open spec fn or_insert<V>(es: Seq<(Seq<char>, V)>, k: Seq<char>, v: V) -> Seq<(Seq<char>, V)> {
    if k.len() == 0 || lookup(es, k) is Some {
        es
    } else {
        es.push((k, v))
    }
}

/// `HashMap::insert(k, v)`: replaces the icon of an existing key.
pub open spec fn put<V>(es: Seq<(Seq<char>, V)>, k: Seq<char>, v: V) -> Seq<(Seq<char>, V)> {
    match key_pos(es, k) {
        Some(i) => es.update(i as int, (k, v)),
        None => es.push((k, v)),
    }
}

pub open spec fn key_pos<V>(es: Seq<(Seq<char>, V)>, k: Seq<char>) -> Option<nat>
    decreases es.len(),
{
    if es.len() == 0 {
        None
    } else if es.last().0 == k {
        Some((es.len() - 1) as nat)
    } else {
        key_pos(es.drop_last(), k)
    }
}

pub open spec fn distinct_keys<V>(es: Seq<(Seq<char>, V)>) -> bool {
    forall|i: int, j: int| 0 <= i < j < es.len() ==> es[i].0 != es[j].0
}

pub proof fn lemma_key_pos<V>(es: Seq<(Seq<char>, V)>, k: Seq<char>)
    ensures
        key_pos(es, k) is Some <==> lookup(es, k) is Some,
        key_pos(es, k) is Some ==> key_pos(es, k).unwrap() < es.len() && es[key_pos(es, k).unwrap() as int].0 == k
            && lookup(es, k) == Some(es[key_pos(es, k).unwrap() as int].1),
        key_pos(es, k) is None ==> forall|i: int| 0 <= i < es.len() ==> #[trigger] es[i].0 != k,
    decreases es.len(),
{
    if es.len() > 0 && es.last().0 != k {
        lemma_key_pos(es.drop_last(), k);
        assert forall|i: int| 0 <= i < es.len() && key_pos(es, k) is None implies #[trigger] es[i].0 != k by {
            if i < es.len() - 1 {
                assert(es[i] == es.drop_last()[i]);
            }
        }
    }
}


/// A write is read back: after `put(es, k, v)`, `k` maps to `v` and every
/// other key keeps its value.
pub proof fn lemma_put_lookup<V>(es: Seq<(Seq<char>, V)>, k: Seq<char>, v: V, other: Seq<char>)
    requires
        distinct_keys(es),
    ensures
        lookup(put(es, k, v), k) == Some(v),
        other != k ==> lookup(put(es, k, v), other) == lookup(es, other),
        distinct_keys(put(es, k, v)),
{
    lemma_key_pos(es, k);
    match key_pos(es, k) {
        Some(i) => {
            let e2 = es.update(i as int, (k, v));
            assert(distinct_keys(e2)) by {
                assert forall|a: int, b: int| 0 <= a < b < e2.len() implies e2[a].0 != e2[b].0 by {
                    assert(e2[a].0 == es[a].0 && e2[b].0 == es[b].0);
                }
            }
            lemma_lookup_at(e2, i as int);
            if other != k {
                if exists|j: int| 0 <= j < es.len() && es[j].0 == other {
                    let j = choose|j: int| 0 <= j < es.len() && es[j].0 == other;
                    lemma_lookup_at(es, j);
                    assert(e2[j] == es[j]);
                    lemma_lookup_at(e2, j);
                } else {
                    lemma_lookup_absent(es, other);
                    assert forall|j: int| 0 <= j < e2.len() implies e2[j].0 != other by {
                        if j != i {
                            assert(e2[j] == es[j]);
                        }
                    }
                    lemma_lookup_absent(e2, other);
                }
            }
        },
        None => {
            let e2 = es.push((k, v));
            assert(e2.drop_last() =~= es);
            assert(distinct_keys(e2)) by {
                assert forall|a: int, b: int| 0 <= a < b < e2.len() implies e2[a].0 != e2[b].0 by {
                    if b == e2.len() - 1 {
                        assert(es[a].0 != k);
                    } else {
                        assert(e2[a] == es[a] && e2[b] == es[b]);
                    }
                }
            }
        },
    }
}

/// With no key twice, the value under the key of entry `i` is entry `i`'s.
pub proof fn lemma_lookup_at<V>(es: Seq<(Seq<char>, V)>, i: int)
    requires
        distinct_keys(es),
        0 <= i < es.len(),
    ensures
        lookup(es, es[i].0) == Some(es[i].1),
    decreases es.len(),
{
    if i < es.len() - 1 {
        let d = es.drop_last();
        assert(d[i] == es[i]);
        assert(distinct_keys(d)) by {
            assert forall|a: int, b: int| 0 <= a < b < d.len() implies d[a].0 != d[b].0 by {
                assert(d[a] == es[a] && d[b] == es[b]);
            }
        }
        lemma_lookup_at(d, i);
    }
}

/// A key that no entry holds has no value.
pub proof fn lemma_lookup_absent<V>(es: Seq<(Seq<char>, V)>, k: Seq<char>)
    requires
        forall|j: int| 0 <= j < es.len() ==> es[j].0 != k,
    ensures
        lookup(es, k) is None,
    decreases es.len(),
{
    if es.len() > 0 {
        let d = es.drop_last();
        assert forall|j: int| 0 <= j < d.len() implies d[j].0 != k by {
            assert(d[j] == es[j]);
        }
        lemma_lookup_absent(d, k);
    }
}

} // verus!
