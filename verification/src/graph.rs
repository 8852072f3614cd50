//! The plotted history as exactly `SLOTS` values, oldest first and anchored
//! at the right: a longer history keeps its newest `SLOTS` values, a shorter
//! one is padded on the left with its oldest value (or `fill` when empty).
use vstd::prelude::*;

verus! {

pub const SLOTS: usize = 60;

pub open spec fn padded<T>(v: Seq<T>, fill: T) -> Seq<T> {
    if v.len() > SLOTS {
        v.skip(v.len() - SLOTS)
    } else {
        let lead = if v.len() > 0 {
            v[0]
        } else {
            fill
        };
        Seq::new((SLOTS - v.len()) as nat, |i: int| lead) + v
    }
}

pub fn pad<T: Copy>(v: Vec<T>, fill: T) -> (r: Vec<T>)
    ensures
        r@ == padded(v@, fill),
        r@.len() == SLOTS,
{
    let n = v.len();
    if n > SLOTS {
        let mut out: Vec<T> = Vec::new();
        let mut i = n - SLOTS;
        while i < n
            invariant
                n == v@.len(),
                n > SLOTS,
                n - SLOTS <= i <= n,
                out@ == v@.subrange(n - SLOTS, i as int),
            decreases n - i,
        {
            out.push(v[i]);
            proof {
                assert(v@.subrange(n - SLOTS, i + 1) =~= v@.subrange(n - SLOTS, i as int).push(v@[i as int]));
            }
            i += 1;
        }
        proof {
            assert(v@.subrange(n - SLOTS, n as int) =~= v@.skip(n - SLOTS));
        }
        out
    } else {
        let lead = if n > 0 {
            v[0]
        } else {
            fill
        };
        let mut out: Vec<T> = Vec::new();
        let mut k: usize = 0;
        while k < SLOTS - n
            invariant
                n == v@.len(),
                n <= SLOTS,
                k <= SLOTS - n,
                out@ == Seq::new(k as nat, |i: int| lead),
            decreases SLOTS - n - k,
        {
            out.push(lead);
            proof {
                assert(out@ =~= Seq::new((k + 1) as nat, |i: int| lead));
            }
            k += 1;
        }
        let ghost head = out@;
        let mut i: usize = 0;
        while i < n
            invariant
                n == v@.len(),
                i <= n,
                out@ == head + v@.take(i as int),
            decreases n - i,
        {
            out.push(v[i]);
            proof {
                assert(v@.take(i + 1) =~= v@.take(i as int).push(v@[i as int]));
            }
            i += 1;
        }
        proof {
            assert(v@.take(n as int) =~= v@);
        }
        out
    }
}

} // verus!
