//! How a process's share of a resource is worded under the hovered graph.
use vstd::prelude::*;
use crate::widgets::{bytes_text, format_bytes, sample_at, sample_for_plot_x};
use crate::text::push_lit;

verus! {

/// The resource a share belongs to.
#[derive(Clone, Copy, Debug, PartialEq, Eq, Structural)]
pub enum Kind {
    Cpu,
    Ram,
    Disk,
    Gpu,
    Battery,
}

/// The share's wording, given the texts of its value as a percentage, as a
/// byte rate and as watts: percentages for CPU and GPU; memory as bytes with
/// the percentage in brackets; disk as a rate; battery as estimated watts.
pub open spec fn value_text(
    kind: Kind,
    bytes: u64,
    pct: Seq<char>,
    bps: Seq<char>,
    watts: Seq<char>,
) -> Seq<char> {
    match kind {
        Kind::Cpu | Kind::Gpu => pct,
        Kind::Ram => bytes_text(bytes as nat) + " ("@ + pct + ")"@,
        Kind::Disk => bps,
        Kind::Battery => "~"@ + watts + " W"@,
    }
}

pub fn format_value(kind: Kind, bytes: u64, pct: &str, bps: &str, watts: &str) -> (r: String)
    ensures
        r@ == value_text(kind, bytes, pct@, bps@, watts@),
{
    let mut out = String::new();
    match kind {
        Kind::Cpu | Kind::Gpu => {
            push_lit(&mut out, pct);
        },
        Kind::Ram => {
            let b = format_bytes(bytes);
            push_lit(&mut out, b.as_str());
            push_lit(&mut out, " (");
            push_lit(&mut out, pct);
            push_lit(&mut out, ")");
        },
        Kind::Disk => {
            push_lit(&mut out, bps);
        },
        Kind::Battery => {
            push_lit(&mut out, "~");
            push_lit(&mut out, watts);
            push_lit(&mut out, " W");
        },
    }
    out
}

/// One sample of the per-process attribution history: the shares of each
/// resource at that moment.
pub struct Attribution<T> {
    pub cpu: Vec<T>,
    pub ram: Vec<T>,
    pub disk: Vec<T>,
    pub gpu: Vec<T>,
    pub battery: Vec<T>,
}

/// The shares a sample holds for `kind`.
pub open spec fn shares_of<T>(a: Attribution<T>, kind: Kind) -> Seq<T> {
    match kind {
        Kind::Cpu => a.cpu@,
        Kind::Ram => a.ram@,
        Kind::Disk => a.disk@,
        Kind::Gpu => a.gpu@,
        Kind::Battery => a.battery@,
    }
}

/// The shares for `kind` at the sample under the hovered plot position, or
/// `None` when nothing is hovered or the position lies off the history.
pub fn shares_at<T>(history: &Vec<Attribution<T>>, kind: Kind, snapped_x: Option<i64>) -> (r: Option<&Vec<T>>)
    requires
        history@.len() <= i64::MAX,
    ensures
        match snapped_x {
            None => r is None,
            Some(x) => match sample_at(x as int, history@.len()) {
                Some(i) => r matches Some(v) && v@ == shares_of(history@[i as int], kind),
                None => r is None,
            },
        },
{
    let x = match snapped_x {
        Some(x) => x,
        None => return None,
    };
    if x < i64::MIN + 60 || x > 59 {
        return None;
    }
    match sample_for_plot_x(x, history.len()) {
        Some(idx) => {
            let a = &history[idx];
            let v = match kind {
                Kind::Cpu => &a.cpu,
                Kind::Ram => &a.ram,
                Kind::Disk => &a.disk,
                Kind::Gpu => &a.gpu,
                Kind::Battery => &a.battery,
            };
            Some(v)
        },
        None => None,
    }
}

/// Each kind reads its own list of the hovered sample: the result of
/// `shares_at` for CPU is the sample's `cpu` shares, for memory its `ram`
/// shares, for disk its `disk`, for GPU its `gpu`, for battery its
/// `battery` shares.
pub proof fn lemma_shares_at_field<T>(history: Seq<Attribution<T>>, kind: Kind, x: int, v: Seq<T>)
    requires
        sample_at(x, history.len()) is Some,
        v == shares_of(history[sample_at(x, history.len())->0 as int], kind),
    ensures
        ({
            let a = history[sample_at(x, history.len())->0 as int];
            &&& kind == Kind::Cpu ==> v == a.cpu@
            &&& kind == Kind::Ram ==> v == a.ram@
            &&& kind == Kind::Disk ==> v == a.disk@
            &&& kind == Kind::Gpu ==> v == a.gpu@
            &&& kind == Kind::Battery ==> v == a.battery@
        }),
{
}

} // verus!
