//! A stable sort by precomputed keys.
//!
//! A key is a number and a text, compared number first and then text in the
//! order of `str`. Ascending puts smaller keys first, descending larger ones;
//! items whose keys are equal keep their order (as `slice::sort_by` does).
use vstd::prelude::*;
use crate::order::{
    lemma_lex_asymmetric, lemma_lex_irreflexive, lemma_lex_total, lemma_lex_transitive, lex_lt,
    lex_order,
};

verus! {

/// A sort key as the contracts see it.
pub type KeyView = (int, Seq<char>);

pub open spec fn key_view(k: (u64, Vec<char>)) -> KeyView {
    (k.0 as int, k.1@)
}

pub open spec fn keys_view(ks: Seq<(u64, Vec<char>)>) -> Seq<KeyView> {
    ks.map_values(|k: (u64, Vec<char>)| key_view(k))
}

/// `a < b`: by number, then by text.
pub open spec fn key_lt(a: KeyView, b: KeyView) -> bool {
    a.0 < b.0 || (a.0 == b.0 && lex_lt(a.1, b.1))
}

/// Whether `a` goes strictly before `b` in the chosen direction.
pub open spec fn goes_before(a: KeyView, b: KeyView, desc: bool) -> bool {
    if desc {
        key_lt(b, a)
    } else {
        key_lt(a, b)
    }
}

/// `p` lists distinct positions below `n`, each once: a permutation of `0..n`.
pub open spec fn is_perm(p: Seq<int>, n: nat) -> bool {
    &&& p.len() == n
    &&& forall|i: int| 0 <= i < n ==> 0 <= #[trigger] p[i] < n
    &&& forall|i: int, j: int| 0 <= i < j < n ==> p[i] != p[j]
}

/// `out` is `items` reordered by `p`, in key order, equal keys in their
/// original order.
pub open spec fn sorted_by_perm<T>(
    p: Seq<int>,
    items: Seq<T>,
    ks: Seq<KeyView>,
    desc: bool,
    out: Seq<T>,
) -> bool {
    &&& ks.len() == items.len()
    &&& out.len() == items.len()
    &&& is_perm(p, items.len())
    &&& forall|i: int| 0 <= i < out.len() ==> #[trigger] out[i] == items[p[i]]
    &&& forall|i: int, j: int|
        0 <= i < j < out.len() ==> !goes_before(ks[p[j]], ks[p[i]], desc)
    &&& forall|i: int, j: int|
        0 <= i < j < out.len() && ks[p[i]] == ks[p[j]] ==> p[i] < p[j]
}

/// The result of the stable sort of `items` by `ks`.
pub open spec fn is_stable_sort<T>(items: Seq<T>, ks: Seq<KeyView>, desc: bool, out: Seq<T>) -> bool {
    exists|p: Seq<int>| sorted_by_perm(p, items, ks, desc, out)
}

/// Whether `x` is one of `items`.
pub open spec fn is_item<T>(items: Seq<T>, x: T) -> bool {
    exists|j: int| 0 <= j < items.len() && items[j] == x
}

/// Every item of a sorted result is an item of the input.
pub proof fn lemma_sorted_items<T>(items: Seq<T>, ks: Seq<KeyView>, desc: bool, out: Seq<T>)
    requires
        is_stable_sort(items, ks, desc, out),
    ensures
        out.len() == items.len(),
        forall|i: int| 0 <= i < out.len() ==> is_item(items, #[trigger] out[i]),
{
    let p = choose|p: Seq<int>| sorted_by_perm(p, items, ks, desc, out);
    assert forall|i: int| 0 <= i < out.len() implies is_item(items, #[trigger] out[i]) by {
        assert(0 <= p[i] < items.len());
        assert(out[i] == items[p[i]]);
    }
}

pub proof fn lemma_key_order(a: KeyView, b: KeyView, c: KeyView)
    ensures
        !key_lt(a, a),
        key_lt(a, b) ==> !key_lt(b, a),
        a != b ==> key_lt(a, b) || key_lt(b, a),
        key_lt(a, b) && key_lt(b, c) ==> key_lt(a, c),
{
    lemma_lex_irreflexive(a.1);
    lemma_lex_asymmetric(a.1, b.1);
    lemma_lex_total(a.1, b.1);
    lemma_lex_transitive(a.1, b.1, c.1);
    if a != b && a.0 == b.0 {
        assert(a.1 != b.1);
    }
}

/// Whether `a` goes strictly before `b` in the chosen direction.
pub fn key_before(a: &(u64, Vec<char>), b: &(u64, Vec<char>), desc: bool) -> (r: bool)
    ensures
        r == goes_before(key_view(*a), key_view(*b), desc),
{
    let (x, y) = if desc {
        (b, a)
    } else {
        (a, b)
    };
    if x.0 < y.0 {
        true
    } else if x.0 > y.0 {
        false
    } else {
        lex_order(&x.1, &y.1) == -1
    }
}

/// Sorts `items` by `keys` (one key per item), stably.
pub fn stable_sort<T>(items: Vec<T>, keys: Vec<(u64, Vec<char>)>, desc: bool) -> (r: Vec<T>)
    requires
        keys@.len() == items@.len(),
    ensures
        is_stable_sort(items@, keys_view(keys@), desc, r@),
{
    let ghost items0 = items@;
    let ghost ks0 = keys_view(keys@);
    let mut rest = items;
    let mut rest_keys = keys;
    let mut out: Vec<T> = Vec::new();
    let mut out_keys: Vec<(u64, Vec<char>)> = Vec::new();
    let ghost mut p: Seq<int> = Seq::empty();
    let n = rest.len();
    let mut i: usize = 0;
    while i < n
        invariant
            n == items0.len() == ks0.len(),
            i <= n,
            rest@ == items0.skip(i as int),
            keys_view(rest_keys@) == ks0.skip(i as int),
            rest_keys@.len() == n - i,
            out@.len() == i,
            out_keys@.len() == i,
            is_perm(p, i as nat),
            forall|k: int| 0 <= k < i ==> #[trigger] out@[k] == items0[p[k]],
            forall|k: int| 0 <= k < i ==> key_view(#[trigger] out_keys@[k]) == ks0[p[k]],
            forall|a: int, b: int| 0 <= a < b < i ==> !goes_before(ks0[p[b]], ks0[p[a]], desc),
            forall|a: int, b: int| 0 <= a < b < i && ks0[p[a]] == ks0[p[b]] ==> p[a] < p[b],
        decreases n - i,
    {
        let ghost old_rk = rest_keys@;
        let x = rest.remove(0);
        let kx = rest_keys.remove(0);
        proof {
            assert(items0.skip(i as int)[0] == items0[i as int]);
            assert(keys_view(old_rk)[0] == key_view(kx));
            assert(ks0.skip(i as int)[0] == ks0[i as int]);
            assert(rest@ =~= items0.skip(i + 1));
            assert(rest_keys@ =~= old_rk.subrange(1, old_rk.len() as int));
            assert forall|k: int| 0 <= k < n - i - 1 implies keys_view(rest_keys@)[k] == ks0.skip(
                i + 1,
            )[k] by {
                assert(keys_view(old_rk)[k + 1] == ks0.skip(i as int)[k + 1]);
            }
            assert(keys_view(rest_keys@) =~= ks0.skip(i + 1));
        }
        let ghost kv = ks0[i as int];
        assert(key_view(kx) == kv);
        let mut pos: usize = 0;
        while pos < out_keys.len() && !key_before(&kx, &out_keys[pos], desc)
            invariant
                pos <= out_keys@.len() == i,
                key_view(kx) == kv,
                forall|k: int| 0 <= k < pos ==> !goes_before(kv, key_view(#[trigger] out_keys@[k]), desc),
            decreases out_keys.len() - pos,
        {
            pos += 1;
        }
        proof {
            assert forall|a: int, b: int| 0 <= a < b < i + 1 implies !goes_before(
                ks0[p.insert(pos as int, i as int)[b]],
                ks0[p.insert(pos as int, i as int)[a]],
                desc,
            ) by {
                let q = p.insert(pos as int, i as int);
                if a < pos && b == pos {
                    assert(q[b] == i);
                    assert(q[a] == p[a]);
                    assert(key_view(out_keys@[a]) == ks0[p[a]]);
                } else if a == pos && b > pos {
                    assert(q[a] == i);
                    assert(q[b] == p[b - 1]);
                    assert(goes_before(kv, key_view(out_keys@[pos as int]), desc));
                    assert(key_view(out_keys@[pos as int]) == ks0[p[pos as int]]);
                    if pos as int != b - 1 {
                        assert(!goes_before(ks0[p[b - 1]], ks0[p[pos as int]], desc));
                    }
                    lemma_key_order(ks0[p[b - 1]], kv, ks0[p[pos as int]]);
                    lemma_key_order(ks0[p[pos as int]], kv, ks0[p[b - 1]]);
                    lemma_key_order(kv, ks0[p[pos as int]], ks0[p[b - 1]]);
                    lemma_key_order(ks0[p[pos as int]], ks0[p[b - 1]], kv);
                } else if b < pos {
                    assert(q[a] == p[a] && q[b] == p[b]);
                } else if a < pos && b > pos {
                    assert(q[a] == p[a] && q[b] == p[b - 1]);
                } else {
                    assert(a > pos);
                    assert(q[a] == p[a - 1] && q[b] == p[b - 1]);
                }
            }
            assert forall|a: int, b: int|
                0 <= a < b < i + 1 && ks0[p.insert(pos as int, i as int)[a]] == ks0[p.insert(
                    pos as int,
                    i as int,
                )[b]] implies p.insert(pos as int, i as int)[a] < p.insert(pos as int, i as int)[b] by {
                let q = p.insert(pos as int, i as int);
                if a < pos && b == pos {
                    assert(q[b] == i);
                    assert(q[a] == p[a]);
                } else if a == pos && b > pos {
                    assert(q[a] == i);
                    assert(q[b] == p[b - 1]);
                    assert(goes_before(kv, key_view(out_keys@[pos as int]), desc));
                    assert(key_view(out_keys@[pos as int]) == ks0[p[pos as int]]);
                    if pos as int != b - 1 {
                        assert(!goes_before(ks0[p[b - 1]], ks0[p[pos as int]], desc));
                    }
                    lemma_key_order(kv, kv, kv);
                    lemma_key_order(ks0[p[pos as int]], kv, ks0[p[b - 1]]);
                    lemma_key_order(kv, ks0[p[pos as int]], ks0[p[b - 1]]);
                } else if b < pos {
                    assert(q[a] == p[a] && q[b] == p[b]);
                } else if a < pos && b > pos {
                    assert(q[a] == p[a] && q[b] == p[b - 1]);
                } else {
                    assert(q[a] == p[a - 1] && q[b] == p[b - 1]);
                }
            }
        }
        out.insert(pos, x);
        out_keys.insert(pos, kx);
        proof {
            let q = p.insert(pos as int, i as int);
            assert forall|k: int| 0 <= k < i + 1 implies 0 <= #[trigger] q[k] < i + 1 by {
                if k < pos {
                    assert(q[k] == p[k]);
                } else if k > pos {
                    assert(q[k] == p[k - 1]);
                }
            }
            assert forall|a: int, b: int| 0 <= a < b < i + 1 implies q[a] != q[b] by {
                if a < pos && b == pos {
                    assert(q[a] == p[a]);
                } else if a == pos {
                    assert(q[b] == p[b - 1]);
                } else if b < pos {
                    assert(q[a] == p[a] && q[b] == p[b]);
                } else if a < pos {
                    assert(q[a] == p[a] && q[b] == p[b - 1]);
                } else {
                    assert(q[a] == p[a - 1] && q[b] == p[b - 1]);
                }
            }
            assert forall|k: int| 0 <= k < i + 1 implies #[trigger] out@[k] == items0[q[k]] by {
                if k < pos {
                    assert(q[k] == p[k]);
                } else if k > pos {
                    assert(q[k] == p[k - 1]);
                }
            }
            assert forall|k: int| 0 <= k < i + 1 implies key_view(#[trigger] out_keys@[k])
                == ks0[q[k]] by {
                if k < pos {
                    assert(q[k] == p[k]);
                } else if k > pos {
                    assert(q[k] == p[k - 1]);
                }
            }
            p = q;
        }
        i += 1;
    }
    proof {
        assert(sorted_by_perm(p, items0, ks0, desc, out@));
    }
    out
}

} // verus!
