//! The settings page's wording of the sampling interval.
use vstd::prelude::*;
use vstd::arithmetic::power2::{lemma2_to64, lemma2_to64_rest};
use crate::numfmt::{
    f64_of_nat, f64_of_u64, fixed_digits, fixed_digits_exec, lemma_f64_of_nat_ge, lemma_tenths_fit,
    nearest_double, nearest_double_exec, tenths, tenths_text,
};
use crate::text::{dec, dec_u64, push_chars, push_lit};

verus! {

/// An interval in milliseconds as the settings page words it: milliseconds
/// below a second, whole seconds when exact, else seconds with one decimal
/// (of `ms as f64 / 1000.0`).
pub open spec fn ms_text(ms: nat) -> Seq<char> {
    if ms < 1000 {
        dec(ms) + " ms"@
    } else if ms % 1000 == 0 {
        dec(ms / 1000) + " s"@
    } else {
        let (m, s) = nearest_double(f64_of_nat(ms), 1000);
        tenths_text(fixed_digits(m, s, 1)) + " s"@
    }
}

pub fn format_ms(ms: u64) -> (r: String)
    ensures
        r@ == ms_text(ms as nat),
{
    let mut out = String::new();
    if ms < 1000 {
        push_chars(&mut out, &dec_u64(ms));
        push_lit(&mut out, " ms");
    } else if ms % 1000 == 0 {
        push_chars(&mut out, &dec_u64(ms / 1000));
        push_lit(&mut out, " s");
    } else {
        let v = f64_of_u64(ms);
        proof {
            lemma_f64_of_nat_ge(ms as nat);
            lemma2_to64();
            lemma2_to64_rest();
        }
        let (m, s) = nearest_double_exec(v, 1000);
        let n = fixed_digits_exec(m, s, 1);
        proof {
            lemma_tenths_fit(v as nat, m as nat, s as int);
        }
        push_chars(&mut out, &tenths(n as u64));
        push_lit(&mut out, " s");
    }
    out
}

} // verus!
