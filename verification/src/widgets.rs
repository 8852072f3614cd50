//! Formatting and plot-mapping helpers shared by the view builders.
use vstd::prelude::*;
use vstd::arithmetic::power2::{pow2, lemma2_to64, lemma2_to64_rest};
use crate::numfmt::{
    lemma_rhe_bound,
    f64_of_nat, f64_of_u64, fixed_digits, fixed_digits_exec, nearest_double, nearest_double_exec,
    rhe, rhe_u128, tenths, tenths_text,
};
use crate::text::{dec, dec2, dec_int, dec_u64, push_chars, push_lit};

verus! {

/// Number of samples in the rolling history window.
pub const HISTORY_LEN: usize = 60;

/// What a path field opens in the file manager.
#[derive(Clone, Copy, Debug, PartialEq, Eq, Structural)]
pub enum OpenTarget {
    /// The path itself (directories).
    Self_,
    /// Its parent (files), so the file manager lands on the folder.
    Parent,
}

// ---------------------------------------------------------------------------
// Byte counts.
// ---------------------------------------------------------------------------

/// `{:.1}` of `b / 2^k` for an exact `b`: tenths, rounded half to even.
pub open spec fn tenths_of(v: nat, k: nat) -> Seq<char> {
    tenths_text(rhe(v * 10, pow2(k)))
}

/// A byte count in the largest binary unit it reaches: TB, GB and MB with
/// one decimal, KB with none, bytes as an integer. The TB figure is computed
/// from `b as f64`, which rounds counts above 2^53.
pub open spec fn bytes_text(b: nat) -> Seq<char> {
    if b >= pow2(40) {
        tenths_of(f64_of_nat(b), 40) + " TB"@
    } else if b >= pow2(30) {
        tenths_of(b, 30) + " GB"@
    } else if b >= pow2(20) {
        tenths_of(b, 20) + " MB"@
    } else if b >= 1024 {
        dec(rhe(b, 1024)) + " KB"@
    } else {
        dec(b) + " B"@
    }
}

pub fn format_bytes(b: u64) -> (r: String)
    ensures
        r@ == bytes_text(b as nat),
{
    proof {
        lemma2_to64();
        lemma2_to64_rest();
    }
    let mut out = String::new();
    if b >= 1_099_511_627_776 {
        let v = f64_of_u64(b);
        let n = rhe_u128(v * 10, 1_099_511_627_776);
        proof {
            lemma_rhe_bound((v * 10) as nat, 1_099_511_627_776);
            assert((v * 10) as nat / 1_099_511_627_776 <= 0x1000_0000) by (nonlinear_arith)
                requires
                    v <= 0x1_0000_0000_0000_0000,
            ;
        }
        let n = tenths_small(n);
        push_chars(&mut out, &n);
        push_lit(&mut out, " TB");
    } else if b >= 1_073_741_824 {
        let n = rhe_u128(b as u128 * 10, 1_073_741_824);
        proof {
            lemma_rhe_bound((b * 10) as nat, 1_073_741_824);
        }
        let n = tenths_small(n);
        push_chars(&mut out, &n);
        push_lit(&mut out, " GB");
    } else if b >= 1_048_576 {
        let n = rhe_u128(b as u128 * 10, 1_048_576);
        proof {
            lemma_rhe_bound((b * 10) as nat, 1_048_576);
        }
        let n = tenths_small(n);
        push_chars(&mut out, &n);
        push_lit(&mut out, " MB");
    } else if b >= 1024 {
        let n = rhe_u128(b as u128, 1024);
        proof {
            lemma_rhe_bound(b as nat, 1024);
        }
        let d = dec_u64(small(n));
        push_chars(&mut out, &d);
        push_lit(&mut out, " KB");
    } else {
        let d = dec_u64(b);
        push_chars(&mut out, &d);
        push_lit(&mut out, " B");
    }
    out
}

/// A rounded quotient that fits 64 bits, narrowed.
fn small(n: u128) -> (r: u64)
    requires
        n <= 0xffff_ffff_ffff_ffff,
    ensures
        r == n,
{
    n as u64
}

fn tenths_small(n: u128) -> (r: Vec<char>)
    requires
        n <= 0xffff_ffff_ffff_ffff,
    ensures
        r@ == tenths_text(n as nat),
{
    tenths(n as u64)
}

// ---------------------------------------------------------------------------
// Durations.
// ---------------------------------------------------------------------------

/// An uptime in the largest units present: days-hours-minutes when there is
/// at least a day, hours-minutes-seconds when at least an hour,
/// minutes-seconds when at least a minute, else seconds.
pub open spec fn duration_text(secs: nat) -> Seq<char> {
    let d = secs / 86400;
    let h = (secs % 86400) / 3600;
    let m = (secs % 3600) / 60;
    let s = secs % 60;
    if d > 0 {
        dec(d) + "d "@ + dec(h) + "h "@ + dec(m) + "m"@
    } else if h > 0 {
        dec(h) + "h "@ + dec(m) + "m "@ + dec(s) + "s"@
    } else if m > 0 {
        dec(m) + "m "@ + dec(s) + "s"@
    } else {
        dec(s) + "s"@
    }
}

pub fn format_duration(secs: u64) -> (r: String)
    ensures
        r@ == duration_text(secs as nat),
{
    let d = secs / 86400;
    let h = (secs % 86400) / 3600;
    let m = (secs % 3600) / 60;
    let s = secs % 60;
    let mut out = String::new();
    if d > 0 {
        push_chars(&mut out, &dec_u64(d));
        push_lit(&mut out, "d ");
        push_chars(&mut out, &dec_u64(h));
        push_lit(&mut out, "h ");
        push_chars(&mut out, &dec_u64(m));
        push_lit(&mut out, "m");
    } else if h > 0 {
        push_chars(&mut out, &dec_u64(h));
        push_lit(&mut out, "h ");
        push_chars(&mut out, &dec_u64(m));
        push_lit(&mut out, "m ");
        push_chars(&mut out, &dec_u64(s));
        push_lit(&mut out, "s");
    } else if m > 0 {
        push_chars(&mut out, &dec_u64(m));
        push_lit(&mut out, "m ");
        push_chars(&mut out, &dec_u64(s));
        push_lit(&mut out, "s");
    } else {
        push_chars(&mut out, &dec_u64(s));
        push_lit(&mut out, "s");
    }
    proof {
        assert(out@ =~= duration_text(secs as nat));
    }
    out
}

/// `x as i64` for a `u64`: values above `i64::MAX` wrap to negatives.
pub open spec fn wrap_i64(x: nat) -> int {
    if x <= i64::MAX {
        x as int
    } else {
        x - 0x1_0000_0000_0000_0000
    }
}

/// The sampling interval as the signed factor the label uses: at least 1 ms.
pub open spec fn interval_factor(sample_interval_ms: nat) -> int {
    wrap_i64(if sample_interval_ms == 0 {
        1
    } else {
        sample_interval_ms
    })
}

/// How long ago a sample was taken, `samples_ago` samples back at
/// `sample_interval_ms` per sample: `now` for the newest, then milliseconds,
/// then seconds (one decimal when samples come faster than once a second),
/// then minutes and zero-padded seconds.
pub open spec fn time_ago_text(samples_ago: int, sample_interval_ms: nat) -> Seq<char> {
    if samples_ago <= 0 {
        "now"@
    } else {
        let iv = interval_factor(sample_interval_ms);
        let ms = samples_ago * iv;
        if ms < 1000 {
            "-"@ + dec_int(ms) + " ms"@
        } else if ms < 60000 {
            if iv < 1000 {
                let (m, s) = nearest_double(ms as nat, 1000);
                "-"@ + tenths_text(fixed_digits(m, s, 1)) + " s"@
            } else {
                "-"@ + dec((ms / 1000) as nat) + " s"@
            }
        } else {
            "-"@ + dec((ms / 60000) as nat) + "m "@ + dec2(((ms % 60000) / 1000) as nat) + "s"@
        }
    }
}

pub fn format_time_ago(samples_ago: i64, sample_interval_ms: u64) -> (r: String)
    requires
        samples_ago <= 0 || (i64::MIN <= samples_ago * interval_factor(sample_interval_ms as nat)
            <= i64::MAX),
    ensures
        r@ == time_ago_text(samples_ago as int, sample_interval_ms as nat),
{
    let mut out = String::new();
    if samples_ago <= 0 {
        push_lit(&mut out, "now");
        proof {
            assert(out@ =~= "now"@);
        }
        return out;
    }
    let raw = if sample_interval_ms == 0 {
        1
    } else {
        sample_interval_ms
    };
    let interval: i64 = if raw <= 0x7fff_ffff_ffff_ffff {
        raw as i64
    } else {
        let back = raw - 0x8000_0000_0000_0000;
        (back as i64) - 0x7fff_ffff_ffff_ffff - 1
    };
    assert(interval == interval_factor(sample_interval_ms as nat));
    let ms = samples_ago * interval;
    let ghost iv = interval_factor(sample_interval_ms as nat);
    let ghost msi = samples_ago * iv;
    assert(ms == msi);
    push_lit(&mut out, "-");
    let ghost head = out@;
    if ms < 1000 {
        let d = dec_i64(ms);
        push_chars(&mut out, &d);
        push_lit(&mut out, " ms");
        proof {
            assert(out@ =~= "-"@ + dec_int(msi) + " ms"@);
        }
    } else if ms < 60000 {
        if interval < 1000 {
            let (m, s) = nearest_double_exec(ms as u128, 1000);
            let n = fixed_digits_exec(m, s, 1);
            proof {
                lemma2_to64();
                lemma2_to64_rest();
                crate::numfmt::lemma_fixed_small(m as nat, s as int, ms as nat);
            }
            let t = tenths(n as u64);
            push_chars(&mut out, &t);
            push_lit(&mut out, " s");
            proof {
                let (mm, ss) = nearest_double(msi as nat, 1000);
                assert(mm == m && ss == s);
                assert(out@ =~= "-"@ + tenths_text(fixed_digits(mm, ss, 1)) + " s"@);
            }
        } else {
            let d = dec_u64((ms / 1000) as u64);
            push_chars(&mut out, &d);
            push_lit(&mut out, " s");
            proof {
                assert(out@ =~= "-"@ + dec((msi / 1000) as nat) + " s"@);
            }
        }
    } else {
        let d = dec_u64((ms / 60000) as u64);
        push_chars(&mut out, &d);
        push_lit(&mut out, "m ");
        let secs = ((ms % 60000) / 1000) as u64;
        let ghost mid = out@;
        if secs < 10 {
            push_lit(&mut out, "0");
            let c = dec_u64(secs);
            push_chars(&mut out, &c);
            proof {
                reveal_strlit("0");
                assert(dec(secs as nat) =~= seq![crate::text::digit(secs as nat)]);
                assert(out@ =~= mid + dec2(secs as nat));
            }
        } else {
            let c = dec_u64(secs);
            push_chars(&mut out, &c);
            proof {
                assert(out@ =~= mid + dec2(secs as nat));
            }
        }
        push_lit(&mut out, "s");
        proof {
            assert(out@ =~= "-"@ + dec((msi / 60000) as nat) + "m "@ + dec2(
                ((msi % 60000) / 1000) as nat,
            ) + "s"@);
        }
    }
    out
}

/// The decimal text of an `i64`, with a `-` when negative.
pub fn dec_i64(n: i64) -> (r: Vec<char>)
    ensures
        r@ == dec_int(n as int),
{
    if n < 0 {
        let mag: u64 = if n == i64::MIN {
            0x8000_0000_0000_0000
        } else {
            (-n) as u64
        };
        let mut out: Vec<char> = Vec::new();
        out.push('-');
        let d = dec_u64(mag);
        let mut i: usize = 0;
        while i < d.len()
            invariant
                i <= d.len(),
                out@ == seq!['-'] + d@.take(i as int),
            decreases d.len() - i,
        {
            out.push(d[i]);
            proof {
                assert(d@.take(i + 1) =~= d@.take(i as int).push(d@[i as int]));
            }
            i += 1;
        }
        proof {
            assert(d@.take(d.len() as int) =~= d@);
        }
        out
    } else {
        dec_u64(n as u64)
    }
}

// ---------------------------------------------------------------------------
// Plot positions.
// ---------------------------------------------------------------------------

/// Where sample `sample_idx` (0 = oldest kept) of `data_len` samples sits on
/// the plot: the newest at the right edge, `HISTORY_LEN - 1`.
pub open spec fn slot_of(sample_idx: nat, data_len: nat) -> int {
    (if data_len >= HISTORY_LEN {
        0
    } else {
        HISTORY_LEN - data_len
    }) + sample_idx
}

/// The sample under plot position `x` (already rounded), or `None` left of
/// the data line or past it.
pub open spec fn sample_at(x: int, data_len: nat) -> Option<nat> {
    if data_len == 0 {
        None
    } else {
        let idx = x - (HISTORY_LEN - data_len);
        if idx < 0 || idx >= data_len {
            None
        } else {
            Some(idx as nat)
        }
    }
}

pub fn plot_x_for_sample(sample_idx: usize, data_len: usize) -> (r: usize)
    requires
        slot_of(sample_idx as nat, data_len as nat) <= usize::MAX,
    ensures
        r == slot_of(sample_idx as nat, data_len as nat),
{
    HISTORY_LEN.saturating_sub(data_len) + sample_idx
}

pub fn sample_for_plot_x(plot_x: i64, data_len: usize) -> (r: Option<usize>)
    requires
        data_len <= i64::MAX,
        i64::MIN <= plot_x - (HISTORY_LEN - data_len) <= i64::MAX,
    ensures
        match r {
            Some(i) => sample_at(plot_x as int, data_len as nat) == Some(i as nat),
            None => sample_at(plot_x as int, data_len as nat) is None,
        },
{
    if data_len == 0 {
        return None;
    }
    let offset = 60i64 - data_len as i64;
    let idx = plot_x - offset;
    if idx < 0 || (idx as u64) >= (data_len as u64) {
        None
    } else {
        Some(idx as usize)
    }
}

/// Reading back the sample at a sample's plot position gives that sample,
/// while the history is not longer than the plot.
pub proof fn lemma_plot_roundtrip(sample_idx: nat, data_len: nat)
    requires
        sample_idx < data_len <= HISTORY_LEN,
    ensures
        sample_at(slot_of(sample_idx, data_len), data_len) == Some(sample_idx),
{
}

} // verus!
