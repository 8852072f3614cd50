//! The performance view: which section a card selects, how network
//! interfaces and disks are labelled, and the detail panel's stat lines.
use vstd::prelude::*;
use crate::text::{
    lemma_dec_injective, chars_eq_lit, chars_of, dec, dec_u64, has_prefix, push_chars, push_lit, slice_chars,
    starts_with_lit, string_of,
};

verus! {

/// The section the detail panel shows.
#[derive(Clone, Copy, Debug, PartialEq, Eq, Structural)]
pub enum Section {
    Cpu,
    Memory,
    Disk(usize),
    Network(usize),
    Gpu(usize),
    Battery,
}

impl Default for Section {
    fn default() -> (r: Self)
        ensures
            r == Section::Cpu,
    {
        Section::Cpu
    }
}

// ---------------------------------------------------------------------------
// Card ids.
// ---------------------------------------------------------------------------

pub open spec fn is_digit(c: char) -> bool {
    '0' <= c <= '9'
}

pub open spec fn digits_value(s: Seq<char>) -> nat
    decreases s.len(),
{
    if s.len() == 0 {
        0
    } else {
        (digits_value(s.drop_last()) * 10 + (s.last() as int - '0' as int)) as nat
    }
}

pub open spec fn all_digits(d: Seq<char>) -> bool {
    forall|k: int| 0 <= k < d.len() ==> is_digit(#[trigger] d[k])
}

/// `str::parse` for an unsigned type whose largest value is `max`: an
/// optional `+`, then one or more ASCII digits, whose value is at most `max`.
pub open spec fn parse_uint(s: Seq<char>, max: nat) -> Option<nat> {
    let d = if s.len() > 0 && s[0] == '+' {
        s.skip(1)
    } else {
        s
    };
    if d.len() > 0 && all_digits(d) && digits_value(d) <= max {
        Some(digits_value(d))
    } else {
        None
    }
}

/// `str::parse::<usize>`.
pub open spec fn parse_usize(s: Seq<char>) -> Option<nat> {
    parse_uint(s, usize::MAX as nat)
}

/// The number after a card's prefix, or 0 when it is not one.
pub open spec fn index_or_zero(s: Seq<char>) -> nat {
    match parse_usize(s) {
        Some(v) => v,
        None => 0,
    }
}

/// The section a card id selects: `cpu`, `mem`, `battery`, or `gpu<n>`,
/// `disk<n>`, `net<n>` (a missing or bad number means 0); anything else
/// means the CPU.
pub open spec fn section_of(id: Seq<char>) -> Section {
    if id == "cpu"@ {
        Section::Cpu
    } else if id == "mem"@ {
        Section::Memory
    } else if id == "battery"@ {
        Section::Battery
    } else if has_prefix(id, "gpu"@) {
        Section::Gpu(index_or_zero(id.skip(3)) as usize)
    } else if has_prefix(id, "disk"@) {
        Section::Disk(index_or_zero(id.skip(4)) as usize)
    } else if has_prefix(id, "net"@) {
        Section::Network(index_or_zero(id.skip(3)) as usize)
    } else {
        Section::Cpu
    }
}

/// Parses a `u64` as `str::parse` does.
pub fn parse_u64_chars(s: &Vec<char>) -> (r: Option<u64>)
    ensures
        match r {
            Some(v) => parse_uint(s@, u64::MAX as nat) == Some(v as nat),
            None => parse_uint(s@, u64::MAX as nat) is None,
        },
{
    let start: usize = if s.len() > 0 && s[0] == '+' {
        1
    } else {
        0
    };
    let ghost d = if s@.len() > 0 && s@[0] == '+' {
        s@.skip(1)
    } else {
        s@
    };
    proof {
        assert(d =~= s@.skip(start as int));
    }
    if start == s.len() {
        return None;
    }
    let mut v: u64 = 0;
    let mut i = start;
    proof {
        assert(s@.subrange(start as int, start as int) =~= Seq::<char>::empty());
    }
    while i < s.len()
        invariant
            start <= i <= s@.len(),
            d =~= s@.skip(start as int),
            d == (if s@.len() > 0 && s@[0] == '+' {
                s@.skip(1)
            } else {
                s@
            }),
            forall|k: int| start <= k < i ==> is_digit(#[trigger] s@[k]),
            v == digits_value(s@.subrange(start as int, i as int)),
        decreases s.len() - i,
    {
        let c = s[i];
        if !('0' <= c && c <= '9') {
            proof {
                assert(d[i - start] == c);
                assert(!is_digit(d[(i - start) as int]));
                assert(!all_digits(d));
                assert(parse_uint(s@, u64::MAX as nat) is None);
            }
            return None;
        }
        let digit = (c as u32 - '0' as u32) as u64;
        proof {
            assert(s@.subrange(start as int, i + 1).drop_last() =~= s@.subrange(start as int, i as int));
        }
        if v > (u64::MAX - digit) / 10 {
            proof {
                assert(v * 10 + digit > u64::MAX) by (nonlinear_arith)
                    requires
                        v > (u64::MAX - digit) / 10,
                        digit <= 9,
                ;
                assert(d.take(i + 1 - start) =~= s@.subrange(start as int, i + 1));
                assert(s@.subrange(start as int, i + 1).last() == c);
                assert(digits_value(s@.subrange(start as int, i + 1)) == v * 10 + digit);
                if all_digits(d) {
                    lemma_digits_mono(d, (i + 1 - start) as nat, d.len());
                    assert(d.take(d.len() as int) =~= d);
                }
                assert(parse_uint(s@, u64::MAX as nat) is None);
            }
            return None;
        }
        proof {
            assert(v * 10 + digit <= u64::MAX) by (nonlinear_arith)
                requires
                    v <= (u64::MAX - digit) / 10,
                    digit <= 9,
            ;
        }
        v = v * 10 + digit;
        i += 1;
    }
    proof {
        assert(s@.subrange(start as int, s@.len() as int) =~= d);
    }
    Some(v)
}

/// Parses a `usize` as `str::parse` does.
pub fn parse_usize_chars(s: &Vec<char>) -> (r: Option<usize>)
    ensures
        match r {
            Some(v) => parse_usize(s@) == Some(v as nat),
            None => parse_usize(s@) is None,
        },
{
    match parse_u64_chars(s) {
        Some(v) => {
            if v as u128 <= usize::MAX as u128 {
                Some(v as usize)
            } else {
                None
            }
        },
        None => {
            proof {
                assert(usize::MAX <= u64::MAX);
            }
            None
        },
    }
}

/// A longer run of digits is worth at least as much as its prefix.
proof fn lemma_digits_mono(d: Seq<char>, j: nat, n: nat)
    requires
        j <= n <= d.len(),
        forall|k: int| 0 <= k < n ==> is_digit(#[trigger] d[k]),
    ensures
        digits_value(d.take(j as int)) <= digits_value(d.take(n as int)),
    decreases n - j,
{
    if n > j {
        lemma_digits_mono(d, j, (n - 1) as nat);
        assert(d.take(n as int).drop_last() =~= d.take(n - 1));
        assert(d.take(n as int).last() == d[n - 1]);
    }
}

pub fn section_for_id(id: &str) -> (r: Section)
    ensures
        r == section_of(id@),
{
    let s = chars_of(id);
    if chars_eq_lit(&s, "cpu") {
        Section::Cpu
    } else if chars_eq_lit(&s, "mem") {
        Section::Memory
    } else if chars_eq_lit(&s, "battery") {
        Section::Battery
    } else {
        proof {
            reveal_strlit("gpu");
            reveal_strlit("disk");
            reveal_strlit("net");
        }
        if starts_with_lit(&s, "gpu") {
            let rest = slice_chars(&s, 3, s.len());
            proof {
                assert(rest@ =~= s@.skip(3));
            }
            Section::Gpu(parse_usize_chars(&rest).unwrap_or(0))
        } else if starts_with_lit(&s, "disk") {
            let rest = slice_chars(&s, 4, s.len());
            proof {
                assert(rest@ =~= s@.skip(4));
            }
            Section::Disk(parse_usize_chars(&rest).unwrap_or(0))
        } else if starts_with_lit(&s, "net") {
            let rest = slice_chars(&s, 3, s.len());
            proof {
                assert(rest@ =~= s@.skip(3));
            }
            Section::Network(parse_usize_chars(&rest).unwrap_or(0))
        } else {
            Section::Cpu
        }
    }
}

/// What the performance view keeps between frames: the section shown,
/// whether the detail panel is collapsed, and the snapped plot position the
/// pointer hovers over (0 to 59), if any.
pub struct State {
    pub section: Section,
    pub detail_collapsed: bool,
    pub hover: Option<i64>,
}

impl Default for State {
    fn default() -> (r: Self)
        ensures
            r.section == Section::Cpu,
            !r.detail_collapsed,
            r.hover is None,
    {
        State { section: Section::Cpu, detail_collapsed: false, hover: None }
    }
}

impl State {
    /// Shows the section of the clicked card. Another section's samples are
    /// not the hovered ones, so the hover is dropped.
    pub fn select(&mut self, id: &str)
        ensures
            final(self).section == section_of(id@),
            final(self).hover is None,
            final(self).detail_collapsed == old(self).detail_collapsed,
    {
        self.section = section_for_id(id);
        self.hover = None;
    }
}

// ---------------------------------------------------------------------------
// Interfaces and disks.
// ---------------------------------------------------------------------------

/// A network interface as the labels read it.
pub struct NetInfo {
    pub name: String,
}

/// The kind of a network interface, from its name's prefix.
pub open spec fn kind_of(name: Seq<char>) -> Seq<char> {
    if has_prefix(name, "wl"@) {
        "Wi-Fi"@
    } else if has_prefix(name, "ww"@) || has_prefix(name, "wwan"@) {
        "Mobile broadband"@
    } else if has_prefix(name, "usb"@) || has_prefix(name, "rndis"@) {
        "USB tethering"@
    } else if has_prefix(name, "en"@) || has_prefix(name, "eth"@) {
        "Ethernet"@
    } else {
        "Network"@
    }
}

pub fn iface_kind(name: &str) -> (r: &'static str)
    ensures
        r@ == kind_of(name@),
{
    let n = chars_of(name);
    if starts_with_lit(&n, "wl") {
        "Wi-Fi"
    } else if starts_with_lit(&n, "ww") || starts_with_lit(&n, "wwan") {
        "Mobile broadband"
    } else if starts_with_lit(&n, "usb") || starts_with_lit(&n, "rndis") {
        "USB tethering"
    } else if starts_with_lit(&n, "en") || starts_with_lit(&n, "eth") {
        "Ethernet"
    } else {
        "Network"
    }
}

/// How many of the first `n` interfaces are of this kind.
pub open spec fn kind_count(nets: Seq<NetInfo>, kind: Seq<char>, n: int) -> nat
    decreases n,
{
    if n <= 0 {
        0
    } else {
        kind_count(nets, kind, n - 1) + if kind_of(nets[n - 1].name@) == kind {
            1nat
        } else {
            0nat
        }
    }
}

/// An interface's label: its kind, numbered by its rank among interfaces of
/// the same kind when there are several; a generic label past the end.
pub open spec fn label_of(nets: Seq<NetInfo>, idx: int) -> Seq<char> {
    if !(0 <= idx < nets.len()) {
        "Network"@
    } else {
        let kind = kind_of(nets[idx].name@);
        if kind_count(nets, kind, nets.len() as int) <= 1 {
            kind
        } else {
            kind + " "@ + dec(kind_count(nets, kind, idx) + 1)
        }
    }
}

proof fn lemma_kind_count_mono(nets: Seq<NetInfo>, kind: Seq<char>, a: int, b: int)
    requires
        0 <= a <= b,
    ensures
        kind_count(nets, kind, a) <= kind_count(nets, kind, b),
    decreases b - a,
{
    if a < b {
        lemma_kind_count_mono(nets, kind, a, b - 1);
    }
}

/// Two different interfaces get different labels.
pub proof fn lemma_labels_distinct(nets: Seq<NetInfo>, i: int, j: int)
    requires
        0 <= i < j < nets.len(),
    ensures
        label_of(nets, i) != label_of(nets, j),
{
    let ki = kind_of(nets[i].name@);
    let kj = kind_of(nets[j].name@);
    reveal_strlit("Wi-Fi");
    reveal_strlit("Mobile broadband");
    reveal_strlit("USB tethering");
    reveal_strlit("Ethernet");
    reveal_strlit("Network");
    reveal_strlit(" ");
    let li = label_of(nets, i);
    let lj = label_of(nets, j);
    if ki != kj {
        assert(li[0] == ki[0]);
        assert(lj[0] == kj[0]);
    } else {
        let k = ki;
        let n = nets.len() as int;
        lemma_kind_count_mono(nets, k, i + 1, j);
        lemma_kind_count_mono(nets, k, j + 1, n);
        let ci = kind_count(nets, k, i);
        let cj = kind_count(nets, k, j);
        assert(kind_count(nets, k, i + 1) == ci + 1);
        assert(kind_count(nets, k, j + 1) == cj + 1);
        assert(kind_count(nets, k, n) >= 2);
        assert(li == k + " "@ + dec(ci + 1));
        assert(lj == k + " "@ + dec(cj + 1));
        if li == lj {
            let off = k.len() as int + 1;
            assert(li.subrange(off, li.len() as int) =~= dec(ci + 1));
            assert(lj.subrange(off, lj.len() as int) =~= dec(cj + 1));
            lemma_dec_injective(ci + 1, cj + 1);
        }
    }
}

pub fn iface_label(nets: &[NetInfo], idx: usize) -> (r: String)
    ensures
        r@ == label_of(nets@, idx as int),
{
    let mut out = String::new();
    if idx >= nets.len() {
        push_lit(&mut out, "Network");
        return out;
    }
    let kind = iface_kind(nets[idx].name.as_str());
    let kind_chars = chars_of(kind);
    let mut total: usize = 0;
    let mut before: usize = 0;
    let mut i: usize = 0;
    while i < nets.len()
        invariant
            i <= nets@.len(),
            idx < nets@.len(),
            kind_chars@ == kind@,
            kind@ == kind_of(nets@[idx as int].name@),
            total == kind_count(nets@, kind@, i as int),
            total <= i,
            before <= idx,
            before == kind_count(nets@, kind@, if i < idx {
                i as int
            } else {
                idx as int
            }),
        decreases nets.len() - i,
    {
        let k = iface_kind(nets[i].name.as_str());
        if crate::text::chars_eq(&chars_of(k), &kind_chars) {
            total += 1;
            if i < idx {
                before += 1;
            }
        }
        i += 1;
    }
    push_lit(&mut out, kind);
    if total > 1 {
        push_lit(&mut out, " ");
        push_chars(&mut out, &dec_u64(before as u64 + 1));
    }
    out
}

pub open spec fn short_disk(n: Seq<char>) -> Seq<char> {
    if has_prefix(n, "/dev/"@) {
        n.skip(5)
    } else {
        n
    }
}

/// A disk's device path without its `/dev/` prefix.
pub fn short_disk_name(n: &str) -> (r: String)
    ensures
        r@ == short_disk(n@),
{
    let s = chars_of(n);
    proof {
        reveal_strlit("/dev/");
    }
    if starts_with_lit(&s, "/dev/") {
        let rest = slice_chars(&s, 5, s.len());
        proof {
            assert(rest@ =~= s@.skip(5));
        }
        string_of(&rest)
    } else {
        string_of(&s)
    }
}

// ---------------------------------------------------------------------------
// Stat lines.
// ---------------------------------------------------------------------------

/// A line of the detail panel: a label and its value, or a separator.
#[derive(Debug, PartialEq)]
pub struct StatLine {
    pub label: String,
    pub value: String,
    pub separator: bool,
}

pub fn stat(label: &str, value: &str) -> (r: StatLine)
    ensures
        r.label@ == label@,
        r.value@ == value@,
        !r.separator,
{
    let mut l = String::new();
    push_lit(&mut l, label);
    let mut v = String::new();
    push_lit(&mut v, value);
    StatLine { label: l, value: v, separator: false }
}

pub fn separator() -> (r: StatLine)
    ensures
        r.label@ == Seq::<char>::empty(),
        r.value@ == Seq::<char>::empty(),
        r.separator,
{
    StatLine { label: String::new(), value: String::new(), separator: true }
}

} // verus!
