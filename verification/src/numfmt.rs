//! Fixed-point decimal text of binary floating-point values, computed exactly
//! with integers.
//!
//! The display code formats `f64` values with `{:.N}`. Such a value is an
//! integer, or the nearest double to an integer ratio, and `{:.N}` prints the
//! exact binary value rounded to `N` decimals, ties to even. Both roundings
//! are modelled here: a double is `m / 2^s` (or `m * 2^-s`) with a 53-bit
//! `m`, and the printed digits are `m * 10^N / 2^s` rounded half to even.
use vstd::prelude::*;
use vstd::arithmetic::power2::{pow2, lemma_pow2_pos, lemma_pow2_adds, lemma_pow2_strictly_increases, lemma_pow2_unfold, lemma2_to64, lemma2_to64_rest};
use crate::text::{dec, dec2, dec_u64, digit, digit_char};

verus! {

/// `10^e`.
pub open spec fn p10(e: nat) -> nat
    decreases e,
{
    if e == 0 {
        1
    } else {
        10 * p10((e - 1) as nat)
    }
}

/// `n / d` rounded to the nearest integer, ties to the even one.
pub open spec fn rhe(n: nat, d: nat) -> nat
    recommends
        d > 0,
{
    let q = n / d;
    let r = n % d;
    if 2 * r > d || (2 * r == d && q % 2 == 1) {
        q + 1
    } else {
        q
    }
}

/// `floor(log2(n))` for `n >= 1` (0 for 0).
pub open spec fn log2_floor(n: nat) -> nat
    decreases n,
{
    if n < 2 {
        0
    } else {
        1 + log2_floor(n / 2)
    }
}

/// The nearest double to `num / den` for `num >= den > 0`, as `(m, s)`
/// meaning `m / 2^s` when `s >= 0` and `m * 2^-s` otherwise: 53 significant
/// bits, ties to even.
pub open spec fn nearest_double(num: nat, den: nat) -> (nat, int) {
    let e = log2_floor(num / den);
    if e <= 52 {
        let s = (52 - e) as nat;
        (rhe(num * pow2(s), den), s as int)
    } else {
        let t = (e - 52) as nat;
        (rhe(num, den * pow2(t)), -(t as int))
    }
}

/// The double nearest to the integer `n` (`n as f64`), itself an integer.
pub open spec fn f64_of_nat(n: nat) -> nat {
    if n == 0 {
        0
    } else {
        let (m, s) = nearest_double(n, 1);
        if s >= 0 {
            m / pow2(s as nat)
        } else {
            m * pow2((-s) as nat)
        }
    }
}

/// The digits of `m * 2^-s` printed with `p` decimals, as one integer
/// (`{:.p}` without the point).
pub open spec fn fixed_digits(m: nat, s: int, p: nat) -> nat {
    if s >= 0 {
        rhe(m * p10(p), pow2(s as nat))
    } else {
        m * pow2((-s) as nat) * p10(p)
    }
}

/// An integer of tenths printed with one decimal: `12` -> `"1.2"`.
pub open spec fn tenths_text(n: nat) -> Seq<char> {
    dec(n / 10) + seq!['.', digit(n % 10)]
}

/// An integer of hundredths printed with two decimals: `1235` -> `"12.35"`.
pub open spec fn hundredths_text(n: nat) -> Seq<char> {
    dec(n / 100) + seq!['.'] + dec2(n % 100)
}

// ---------------------------------------------------------------------------
// Lemmas.
// ---------------------------------------------------------------------------

pub proof fn lemma_log2_bounds(n: nat)
    requires
        n >= 1,
    ensures
        pow2(log2_floor(n)) <= n < pow2(log2_floor(n) + 1),
    decreases n,
{
    lemma_pow2_unfold(log2_floor(n) + 1);
    if n >= 2 {
        lemma_log2_bounds(n / 2);
        lemma_pow2_unfold(log2_floor(n));
        lemma_pow2_unfold(log2_floor(n / 2) + 1);
    } else {
        lemma2_to64();
    }
}

pub proof fn lemma_log2_below(n: nat, k: nat)
    requires
        1 <= n < pow2(k),
    ensures
        log2_floor(n) < k,
{
    lemma_log2_bounds(n);
    if log2_floor(n) >= k {
        if log2_floor(n) > k {
            lemma_pow2_strictly_increases(k, log2_floor(n));
        }
    }
}

/// The scaled numerator of `nearest_double` fits in 64 bits and its mantissa
/// in 53 bits (plus one for a carry).
pub proof fn lemma_nearest_double_bounds(num: nat, den: nat)
    requires
        1 <= den <= 1024,
        den <= num,
    ensures
        log2_floor(num / den) <= 52 ==> num * pow2((52 - log2_floor(num / den)) as nat) < pow2(
            63,
        ),
        log2_floor(num / den) <= 52 ==> num * pow2((52 - log2_floor(num / den)) as nat) / den < pow2(53),
        log2_floor(num / den) > 52 ==> num / (den * pow2((log2_floor(num / den) - 52) as nat))
            < pow2(53),
        nearest_double(num, den).0 <= pow2(53),
{
    let q = num / den;
    assert(q >= 1) by (nonlinear_arith)
        requires
            den <= num,
            den >= 1,
            q == num / den,
    ;
    let e = log2_floor(q);
    lemma_log2_bounds(q);
    assert(num < den * (q + 1)) by (nonlinear_arith)
        requires
            q == num / den,
            den >= 1,
    ;
    assert(num < den * pow2(e + 1)) by (nonlinear_arith)
        requires
            num < den * (q + 1),
            q + 1 <= pow2(e + 1),
            den >= 1,
    ;
    lemma2_to64();
    lemma_pow2_adds(10, 53);
    if e <= 52 {
        let s = (52 - e) as nat;
        lemma_pow2_adds(e + 1, s);
        assert(e + 1 + s == 53);
        let f = pow2(s);
        lemma_pow2_pos(s);
        assert(num * f < den * pow2(53)) by (nonlinear_arith)
            requires
                num < den * pow2(e + 1),
                pow2(e + 1) * f == pow2(53),
                f >= 1,
        ;
        lemma_pow2_strictly_increases(10, 63);
        assert(den * pow2(53) <= pow2(63)) by (nonlinear_arith)
            requires
                den <= 1024,
                pow2(10) == 1024,
                pow2(10) * pow2(53) == pow2(63),
        ;
        assert(num * f / den < pow2(53)) by (nonlinear_arith)
            requires
                num * f < den * pow2(53),
                den >= 1,
        ;
        assert(rhe(num * f, den) <= pow2(53));
    } else {
        let t = (e - 52) as nat;
        lemma_pow2_adds(t, 53);
        assert(t + 53 == e + 1);
        lemma_pow2_pos(t);
        assert(num / (den * pow2(t)) < pow2(53)) by (nonlinear_arith)
            requires
                num < den * pow2(e + 1),
                pow2(t) * pow2(53) == pow2(e + 1),
                den >= 1,
                pow2(t) >= 1,
        ;
        assert(den * pow2(t) >= 1) by (nonlinear_arith)
            requires
                den >= 1,
                pow2(t) >= 1,
        ;
        assert(rhe(num, den * pow2(t)) <= pow2(53));
    }
}

/// A rounded quotient is at most one more than the truncated one, and for a
/// divisor of at least 2 at most the dividend.
pub proof fn lemma_rhe_bound(n: nat, d: nat)
    requires
        d >= 1,
    ensures
        n / d <= rhe(n, d) <= n / d + 1,
        d >= 2 ==> rhe(n, d) <= n,
{
    if d >= 2 {
        assert(n / d <= n / 2) by (nonlinear_arith)
            requires
                d >= 2,
        ;
        if n >= 1 {
            assert(n / 2 + 1 <= n);
        } else {
            assert(n % d == 0 && n / d == 0) by (nonlinear_arith)
                requires
                    n == 0,
                    d >= 2,
            ;
        }
    }
}

/// For a duration below a minute printed in seconds, the tenths or
/// hundredths stay small.
pub proof fn lemma_fixed_small(m: nat, s: int, ms: nat)
    requires
        1000 <= ms < 60000,
        (m, s) == nearest_double(ms, 1000),
    ensures
        fixed_digits(m, s, 1) <= 1000,
        fixed_digits(m, s, 2) <= 10000,
        s >= 0,
{
    let q = ms / 1000;
    assert(1 <= q < 64);
    lemma2_to64();
    lemma_log2_below(q, 6);
    let e = log2_floor(q);
    let sn = (52 - e) as nat;
    assert(s == sn);
    let f = pow2(sn);
    lemma_pow2_strictly_increases(10, sn);
    lemma_rhe_bound(ms * f, 1000);
    assert(m == rhe(ms * f, 1000));
    assert(m * 1000 <= ms * f + 1000) by (nonlinear_arith)
        requires
            m <= (ms * f) / 1000 + 1,
    ;
    assert(m * 10 <= 601 * f) by (nonlinear_arith)
        requires
            m * 1000 <= ms * f + 1000,
            ms < 60000,
            f >= 1024,
    ;
    assert(m * 100 <= 6001 * f) by (nonlinear_arith)
        requires
            m * 1000 <= ms * f + 1000,
            ms < 60000,
            f >= 1024,
    ;
    assert((m * 10) / f <= 601) by (nonlinear_arith)
        requires
            m * 10 <= 601 * f,
            f >= 1024,
    ;
    assert((m * 100) / f <= 6001) by (nonlinear_arith)
        requires
            m * 100 <= 6001 * f,
            f >= 1024,
    ;
    lemma_rhe_bound(m * 10, f);
    lemma_rhe_bound(m * 100, f);
    assert(p10(1) == 10 && p10(2) == 100) by {
        reveal_with_fuel(p10, 3);
    }
}

/// `n as f64` of an integer of at least 1000 is at least 1000.
pub proof fn lemma_f64_of_nat_ge(n: nat)
    requires
        1000 <= n <= u64::MAX,
    ensures
        f64_of_nat(n) >= 1000,
{
    lemma2_to64();
    lemma2_to64_rest();
    let e = log2_floor(n);
    assert(n / 1 == n);
    lemma_log2_below(n, 64);
    lemma_log2_bounds(n);
    if e <= 52 {
        let sn = (52 - e) as nat;
        let f = pow2(sn);
        lemma_pow2_pos(sn);
        assert((n * f) / 1 == n * f && (n * f) % 1 == 0);
        assert(rhe(n * f, 1) == n * f);
        assert((n * f) / f == n) by (nonlinear_arith)
            requires
                f >= 1,
        ;
    } else {
        let t = (e - 52) as nat;
        let f = pow2(t);
        lemma_pow2_pos(t);
        if t < 11 {
            lemma_pow2_strictly_increases(t, 11);
        }
        if e > 53 {
            lemma_pow2_strictly_increases(53, e);
        }
        assert(n >= pow2(53));
        assert(1 * f == f);
        lemma_rhe_bound(n, f);
        let m = rhe(n, 1 * f);
        assert(m >= n / f);
        assert(m * f >= n - f) by (nonlinear_arith)
            requires
                m >= n / f,
                f >= 1,
        ;
    }
}

/// The tenths printed for a duration in seconds computed from whole
/// milliseconds fit comfortably in 64 bits.
pub proof fn lemma_tenths_fit(v: nat, m: nat, s: int)
    requires
        1000 <= v <= 0x1_0000_0000_0000_0000,
        (m, s) == nearest_double(v, 1000),
        m <= pow2(53),
        -11 <= s <= 52,
    ensures
        fixed_digits(m, s, 1) <= 0x4000_0000_0000_0000,
{
    lemma2_to64();
    lemma2_to64_rest();
    assert(p10(1) == 10) by {
        reveal_with_fuel(p10, 2);
    }
    if s >= 0 {
        let f = pow2(s as nat);
        lemma_pow2_pos(s as nat);
        lemma_rhe_bound(m * 10, f);
        if f == 1 {
            assert((m * 10) / 1 == m * 10 && (m * 10) % 1 == 0);
        }
        assert(m * 10 <= pow2(53) * 10);
    } else {
        let t = (-s) as nat;
        let f = pow2(t);
        lemma_pow2_pos(t);
        if t < 11 {
            lemma_pow2_strictly_increases(t, 11);
        }
        let q = log2_floor(v / 1000);
        assert(t == q - 52);
        lemma_rhe_bound(v, 1000 * f);
        assert(1000 * f >= 1);
        assert(m <= v / (1000 * f) + 1);
        assert(m * (1000 * f) <= v + 1000 * f) by (nonlinear_arith)
            requires
                m <= v / (1000 * f) + 1,
                f >= 1,
        ;
        assert(m * f * 10 <= 0x4000_0000_0000_0000) by (nonlinear_arith)
            requires
                m * (1000 * f) <= v + 1000 * f,
                v <= 0x1_0000_0000_0000_0000,
                f <= 2048,
        ;
    }
}

// ---------------------------------------------------------------------------
// Executable counterparts.
// ---------------------------------------------------------------------------

pub fn pow2_u64(e: u32) -> (r: u64)
    requires
        e <= 63,
    ensures
        r == pow2(e as nat),
{
    let mut r: u64 = 1;
    let mut i: u32 = 0;
    proof {
        lemma2_to64();
    }
    while i < e
        invariant
            i <= e <= 63,
            r == pow2(i as nat),
        decreases e - i,
    {
        proof {
            lemma_pow2_unfold((i + 1) as nat);
            lemma2_to64();
            if i + 1 < 64 {
                lemma_pow2_strictly_increases((i + 1) as nat, 64);
            }
        }
        r = r * 2;
        i += 1;
    }
    r
}

pub fn rhe_u128(n: u128, d: u128) -> (r: u128)
    requires
        d > 0,
        n < 0xffff_ffff_ffff_ffff_ffff_ffff_ffff_ffff,
    ensures
        r == rhe(n as nat, d as nat),
{
    let q = n / d;
    let rem = n % d;
    proof {
        assert(q <= n) by (nonlinear_arith)
            requires
                q == n / d,
                d > 0,
        ;
    }
    let above = rem > d - rem;
    let tie = rem == d - rem;
    if above || (tie && q % 2 == 1) {
        q + 1
    } else {
        q
    }
}

pub fn log2_floor_u64(n: u64) -> (r: u32)
    ensures
        r == log2_floor(n as nat),
        r < 64,
{
    let mut x = n;
    let mut e: u32 = 0;
    proof {
        lemma2_to64();
        if n >= 1 {
            lemma_log2_below(n as nat, 64);
        }
    }
    while x >= 2
        invariant
            log2_floor(n as nat) == e + log2_floor(x as nat),
            log2_floor(n as nat) < 64,
        decreases x,
    {
        x = x / 2;
        e += 1;
    }
    e
}

/// `nearest_double(num, den)`.
pub fn nearest_double_exec(num: u128, den: u128) -> (r: (u128, i32))
    requires
        1 <= den <= 1024,
        den <= num,
        num / den <= 0xffff_ffff_ffff_ffff,
    ensures
        r.0 == nearest_double(num as nat, den as nat).0,
        r.1 == nearest_double(num as nat, den as nat).1,
        r.0 <= pow2(53),
        -11 <= r.1 <= 52,
{
    let q = (num / den) as u64;
    let e = log2_floor_u64(q);
    proof {
        lemma_nearest_double_bounds(num as nat, den as nat);
        lemma2_to64();
        lemma2_to64_rest();
        assert(num < den * (num / den + 1)) by (nonlinear_arith)
            requires
                den >= 1,
        ;
        assert(num < 0x1_0000_0000_0000_0000_0000) by (nonlinear_arith)
            requires
                num < den * (num / den + 1),
                den <= 1024,
                num / den <= 0xffff_ffff_ffff_ffff,
        ;
    }
    if e <= 52 {
        let s = 52 - e;
        let f = pow2_u64(s) as u128;
        proof {
            assert(pow2(63) < 0xffff_ffff_ffff_ffff_ffff_ffff_ffff_ffff) by {
                lemma_pow2_strictly_increases(63, 64);
            }
        }
        let m = rhe_u128(num * f, den);
        (m, s as i32)
    } else {
        let t = e - 52;
        let f = pow2_u64(t) as u128;
        proof {
            lemma_pow2_strictly_increases(t as nat, 12);
            lemma_pow2_pos(t as nat);
            assert(1 <= den * f <= 1024 * 4096) by (nonlinear_arith)
                requires
                    1 <= den <= 1024,
                    1 <= f <= 4096,
            ;
        }
        let m = rhe_u128(num, den * f);
        (m, -(t as i32))
    }
}

/// `fixed_digits(m, s, p)` for a mantissa from `nearest_double`.
pub fn fixed_digits_exec(m: u128, s: i32, p: u32) -> (r: u128)
    requires
        m <= pow2(53),
        -11 <= s <= 52,
        p <= 2,
    ensures
        r == fixed_digits(m as nat, s as int, p as nat),
{
    let scale: u128 = if p == 0 {
        1
    } else if p == 1 {
        10
    } else {
        100
    };
    proof {
        assert(scale == p10(p as nat)) by {
            reveal_with_fuel(p10, 3);
        }
        lemma2_to64();
        lemma2_to64_rest();
        assert(m * scale <= pow2(53) * 100) by (nonlinear_arith)
            requires
                m <= pow2(53),
                scale <= 100,
        ;
    }
    if s >= 0 {
        let d = pow2_u64(s as u32) as u128;
        proof {
            lemma_pow2_pos(s as nat);
        }
        rhe_u128(m * scale, d)
    } else {
        let f = pow2_u64((-s) as u32) as u128;
        proof {
            lemma_pow2_strictly_increases((-s) as nat, 12);
            assert(m * f * scale <= pow2(53) * 4096 * 100) by (nonlinear_arith)
                requires
                    m <= pow2(53),
                    f <= 4096,
                    scale <= 100,
            ;
        }
        m * f * scale
    }
}

/// `n as f64`, as the integer it is.
pub fn f64_of_u64(n: u64) -> (r: u128)
    ensures
        r == f64_of_nat(n as nat),
        r <= 0x1_0000_0000_0000_0000,
{
    if n == 0 {
        return 0;
    }
    let (m, s) = nearest_double_exec(n as u128, 1);
    proof {
        lemma2_to64();
        lemma2_to64_rest();
    }
    if s >= 0 {
        let d = pow2_u64(s as u32) as u128;
        proof {
            lemma_pow2_pos(s as nat);
            assert(m / d <= m) by (nonlinear_arith)
                requires
                    d >= 1,
            ;
        }
        m / d
    } else {
        let f = pow2_u64((-s) as u32) as u128;
        proof {
            if (-s) < 11 {
                lemma_pow2_strictly_increases((-s) as nat, 11);
            }
            assert(m * f <= pow2(53) * 2048) by (nonlinear_arith)
                requires
                    m <= pow2(53),
                    f <= 2048,
            ;
        }
        m * f
    }
}

/// `n` printed as tenths: `"{n/10}.{n%10}"`.
pub fn tenths(n: u64) -> (r: Vec<char>)
    ensures
        r@ == tenths_text(n as nat),
{
    let mut out = dec_u64(n / 10);
    out.push('.');
    out.push(digit_char(n % 10));
    proof {
        assert(out@ =~= dec((n / 10) as nat) + seq!['.', digit((n % 10) as nat)]);
    }
    out
}

/// `n` printed as hundredths: `"{n/100}.{n%100:02}"`.
pub fn hundredths(n: u64) -> (r: Vec<char>)
    ensures
        r@ == hundredths_text(n as nat),
{
    let mut out = dec_u64(n / 100);
    out.push('.');
    let low = n % 100;
    if low < 10 {
        out.push('0');
        out.push(digit_char(low));
        proof {
            assert(out@ =~= dec((n / 100) as nat) + seq!['.'] + dec2((n % 100) as nat));
        }
    } else {
        let ghost before = out@;
        let d = dec_u64(low);
        let mut i: usize = 0;
        while i < d.len()
            invariant
                i <= d.len(),
                out@ == before + d@.take(i as int),
            decreases d.len() - i,
        {
            out.push(d[i]);
            proof {
                assert(d@.take(i + 1) =~= d@.take(i as int).push(d@[i as int]));
            }
            i += 1;
        }
        proof {
            assert(d@.take(d.len() as int) =~= d@);
            assert(out@ =~= dec((n / 100) as nat) + seq!['.'] + dec2((n % 100) as nat));
        }
    }
    out
}

} // verus!
