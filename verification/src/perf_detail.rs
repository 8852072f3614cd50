//! The performance view's detail panel and cards: titles, subtitles and the
//! stat lines of each section, in order. Readings that are floating point
//! arrive already worded (`*_text` parameters); sizes, counts and names are
//! worded here.
use vstd::prelude::*;
use crate::performance::{
    label_of, iface_label, Section, short_disk, short_disk_name, separator, stat, NetInfo, StatLine,
};
use crate::text::{dec, dec_u64, eq_ignore_ascii_case, eq_ignore_ascii_case_lit, chars_of, push_chars, push_lit};
use crate::widgets::{bytes_text, duration_text, format_bytes, format_duration};

verus! {

pub type StatView = (Seq<char>, Seq<char>, bool);

pub open spec fn stat_view(s: StatLine) -> StatView {
    (s.label@, s.value@, s.separator)
}

pub open spec fn stats_view(v: Seq<StatLine>) -> Seq<StatView> {
    v.map_values(|s: StatLine| stat_view(s))
}

pub open spec fn line(label: Seq<char>, value: Seq<char>) -> StatView {
    (label, value, false)
}

pub open spec fn sep_line() -> StatView {
    (Seq::empty(), Seq::empty(), true)
}

/// A section's heading and stat lines.
#[derive(Debug)]
pub struct Detail {
    pub title: String,
    pub subtitle: String,
    pub stats: Vec<StatLine>,
}

fn push_stat(v: &mut Vec<StatLine>, label: &str, value: &str)
    ensures
        stats_view(final(v)@) == stats_view(old(v)@).push(line(label@, value@)),
{
    let s = stat(label, value);
    let ghost before = v@;
    v.push(s);
    proof {
        assert(stats_view(v@) =~= stats_view(before).push(line(label@, value@)));
    }
}

fn push_sep(v: &mut Vec<StatLine>)
    ensures
        stats_view(final(v)@) == stats_view(old(v)@).push(sep_line()),
{
    let s = separator();
    let ghost before = v@;
    v.push(s);
    proof {
        assert(stats_view(v@) =~= stats_view(before).push(sep_line()));
    }
}

fn text1(p0: &str) -> (r: String)
    ensures
        r@ == p0@,
{
    let mut out = String::new();
    push_lit(&mut out, p0);
    proof {
        assert(out@ =~= p0@);
    }
    out
}

fn text2(p0: &str, p1: &str) -> (r: String)
    ensures
        r@ == p0@ + p1@,
{
    let mut out = String::new();
    push_lit(&mut out, p0);
    push_lit(&mut out, p1);
    proof {
        assert(out@ =~= p0@ + p1@);
    }
    out
}

fn text3(p0: &str, p1: &str, p2: &str) -> (r: String)
    ensures
        r@ == p0@ + p1@ + p2@,
{
    let mut out = String::new();
    push_lit(&mut out, p0);
    push_lit(&mut out, p1);
    push_lit(&mut out, p2);
    proof {
        assert(out@ =~= p0@ + p1@ + p2@);
    }
    out
}

fn text4(p0: &str, p1: &str, p2: &str, p3: &str) -> (r: String)
    ensures
        r@ == p0@ + p1@ + p2@ + p3@,
{
    let mut out = String::new();
    push_lit(&mut out, p0);
    push_lit(&mut out, p1);
    push_lit(&mut out, p2);
    push_lit(&mut out, p3);
    proof {
        assert(out@ =~= p0@ + p1@ + p2@ + p3@);
    }
    out
}

fn text5(p0: &str, p1: &str, p2: &str, p3: &str, p4: &str) -> (r: String)
    ensures
        r@ == p0@ + p1@ + p2@ + p3@ + p4@,
{
    let mut out = String::new();
    push_lit(&mut out, p0);
    push_lit(&mut out, p1);
    push_lit(&mut out, p2);
    push_lit(&mut out, p3);
    push_lit(&mut out, p4);
    proof {
        assert(out@ =~= p0@ + p1@ + p2@ + p3@ + p4@);
    }
    out
}

fn text6(p0: &str, p1: &str, p2: &str, p3: &str, p4: &str, p5: &str) -> (r: String)
    ensures
        r@ == p0@ + p1@ + p2@ + p3@ + p4@ + p5@,
{
    let mut out = String::new();
    push_lit(&mut out, p0);
    push_lit(&mut out, p1);
    push_lit(&mut out, p2);
    push_lit(&mut out, p3);
    push_lit(&mut out, p4);
    push_lit(&mut out, p5);
    proof {
        assert(out@ =~= p0@ + p1@ + p2@ + p3@ + p4@ + p5@);
    }
    out
}

fn dec_string(n: u64) -> (r: String)
    ensures
        r@ == dec(n as nat),
{
    let mut s = String::new();
    push_chars(&mut s, &dec_u64(n));
    s
}

// ---------------------------------------------------------------------------
// CPU and memory.
// ---------------------------------------------------------------------------

pub fn cpu_detail(
    brand: &str,
    physical_cores: u64,
    logical_cores: u64,
    freq_mhz: u64,
    current_text: &str,
    uptime_secs: u64,
) -> (r: Detail)
    ensures
        r.title@ == "CPU: "@ + brand@,
        r.subtitle@ == dec(physical_cores as nat) + " cores ("@ + dec(logical_cores as nat)
            + " logical) · "@ + dec(freq_mhz as nat) + " MHz"@,
        stats_view(r.stats@) == seq![
            line("Current"@, current_text@),
            line("Uptime"@, duration_text(uptime_secs as nat)),
        ],
{
    let title = text2("CPU: ", brand);
    let p = dec_string(physical_cores);
    let l = dec_string(logical_cores);
    let f = dec_string(freq_mhz);
    let subtitle = text6(p.as_str(), " cores (", l.as_str(), " logical) · ", f.as_str(), " MHz");
    let mut stats: Vec<StatLine> = Vec::new();
    push_stat(&mut stats, "Current", current_text);
    let up = format_duration(uptime_secs);
    push_stat(&mut stats, "Uptime", up.as_str());
    proof {
        assert(stats_view(stats@) =~= seq![
            line("Current"@, current_text@),
            line("Uptime"@, duration_text(uptime_secs as nat)),
        ]);
    }
    Detail { title, subtitle, stats }
}

/// The label of core `i` in the per-core grid.
pub fn core_label(i: u64) -> (r: String)
    ensures
        r@ == "Core "@ + dec(i as nat),
{
    let n = dec_string(i);
    text2("Core ", n.as_str())
}

pub fn memory_detail(
    ram_total: u64,
    ram_used: u64,
    used_pct_text: &str,
    swap_total: u64,
    swap_used: u64,
) -> (r: Detail)
    ensures
        r.title@ == "Memory"@,
        r.subtitle@ == bytes_text(ram_total as nat) + " total"@,
        stats_view(r.stats@) == seq![
            line("Used"@, bytes_text(ram_used as nat) + " ("@ + used_pct_text@ + ")"@),
            line("Available"@, bytes_text(if ram_used <= ram_total { (ram_total - ram_used) as nat } else { 0 })),
            sep_line(),
            line("Swap total"@, bytes_text(swap_total as nat)),
            line("Swap used"@, bytes_text(swap_used as nat)),
        ],
{
    let title = text1("Memory");
    let total = format_bytes(ram_total);
    let subtitle = text2(total.as_str(), " total");
    let used = format_bytes(ram_used);
    let used_line = text4(used.as_str(), " (", used_pct_text, ")");
    let avail = format_bytes(ram_total.saturating_sub(ram_used));
    let st = format_bytes(swap_total);
    let su = format_bytes(swap_used);
    let mut stats: Vec<StatLine> = Vec::new();
    push_stat(&mut stats, "Used", used_line.as_str());
    push_stat(&mut stats, "Available", avail.as_str());
    push_sep(&mut stats);
    push_stat(&mut stats, "Swap total", st.as_str());
    push_stat(&mut stats, "Swap used", su.as_str());
    proof {
        assert(stats_view(stats@) =~= seq![
            line("Used"@, bytes_text(ram_used as nat) + " ("@ + used_pct_text@ + ")"@),
            line("Available"@, bytes_text(if ram_used <= ram_total { (ram_total - ram_used) as nat } else { 0 })),
            sep_line(),
            line("Swap total"@, bytes_text(swap_total as nat)),
            line("Swap used"@, bytes_text(swap_used as nat)),
        ]);
    }
    Detail { title, subtitle, stats }
}

/// The memory card's reading: `"<used> / <total>"`.
pub fn ram_value(used: u64, total: u64) -> (r: String)
    ensures
        r@ == bytes_text(used as nat) + " / "@ + bytes_text(total as nat),
{
    let u = format_bytes(used);
    let t = format_bytes(total);
    text3(u.as_str(), " / ", t.as_str())
}

// ---------------------------------------------------------------------------
// Disks.
// ---------------------------------------------------------------------------

/// A disk as the detail panel reads it.
pub struct DiskInfo {
    pub name: String,
    pub fs: String,
    pub partitions: u64,
    pub total: u64,
    pub used: u64,
    pub mounts: Vec<String>,
}

pub open spec fn mount_lines(ms: Seq<String>) -> Seq<StatView>
    decreases ms.len(),
{
    if ms.len() == 0 {
        Seq::empty()
    } else {
        mount_lines(ms.drop_last()).push(line("Mount"@, ms.last()@))
    }
}

/// The disk section: its short name, file system and partition count, read
/// and write rates, size and use, then its mount points if any. Without the
/// disk only the title says so.
pub fn disk_detail(d: Option<&DiskInfo>, read_text: &str, write_text: &str) -> (r: Detail)
    ensures
        match d {
            Some(d) => {
                &&& r.title@ == "Disk: "@ + short_disk(d.name@)
                &&& r.subtitle@ == d.fs@ + " · "@ + dec(d.partitions as nat) + " "@ + if d.partitions > 1 {
                    "partitions"@
                } else {
                    "partition"@
                }
                &&& stats_view(r.stats@) == seq![
                    line("Read"@, read_text@),
                    line("Write"@, write_text@),
                    sep_line(),
                    line("Total"@, bytes_text(d.total as nat)),
                    line("Used"@, bytes_text(d.used as nat)),
                ] + if d.mounts@.len() > 0 {
                    seq![sep_line()] + mount_lines(d.mounts@)
                } else {
                    Seq::empty()
                }
            },
            None => r.title@ == "No disk"@ && r.subtitle@ == Seq::<char>::empty() && r.stats@.len() == 0,
        },
{
    match d {
        None => Detail { title: text1("No disk"), subtitle: String::new(), stats: Vec::new() },
        Some(d) => {
            let short = short_disk_name(d.name.as_str());
            let title = text2("Disk: ", short.as_str());
            let parts = dec_string(d.partitions);
            let word = if d.partitions > 1 {
                "partitions"
            } else {
                "partition"
            };
            let subtitle = text5(d.fs.as_str(), " · ", parts.as_str(), " ", word);
            let mut stats: Vec<StatLine> = Vec::new();
            push_stat(&mut stats, "Read", read_text);
            push_stat(&mut stats, "Write", write_text);
            push_sep(&mut stats);
            let t = format_bytes(d.total);
            let u = format_bytes(d.used);
            push_stat(&mut stats, "Total", t.as_str());
            push_stat(&mut stats, "Used", u.as_str());
            let ghost head = stats_view(stats@);
            proof {
                assert(head =~= seq![
                    line("Read"@, read_text@),
                    line("Write"@, write_text@),
                    sep_line(),
                    line("Total"@, bytes_text(d.total as nat)),
                    line("Used"@, bytes_text(d.used as nat)),
                ]);
            }
            if d.mounts.len() > 0 {
                push_sep(&mut stats);
                let ghost mid = stats_view(stats@);
                let mut i: usize = 0;
                proof {
                    assert(d.mounts@.take(0) =~= Seq::<String>::empty());
                    assert(mid =~= head + seq![sep_line()] + mount_lines(Seq::<String>::empty()));
                }
                while i < d.mounts.len()
                    invariant
                        i <= d.mounts@.len(),
                        stats_view(stats@) == head + seq![sep_line()] + mount_lines(d.mounts@.take(i as int)),
                    decreases d.mounts.len() - i,
                {
                    push_stat(&mut stats, "Mount", d.mounts[i].as_str());
                    proof {
                        assert(d.mounts@.take(i + 1).drop_last() =~= d.mounts@.take(i as int));
                    }
                    i += 1;
                }
                proof {
                    assert(d.mounts@.take(d.mounts@.len() as int) =~= d.mounts@);
                }
            } else {
                proof {
                    assert(stats_view(stats@) =~= head + Seq::<StatView>::empty());
                }
            }
            Detail { title, subtitle, stats }
        },
    }
}

// ---------------------------------------------------------------------------
// Network interfaces.
// ---------------------------------------------------------------------------

/// Wi-Fi readings, worded: quality, level and link quality.
pub struct WifiText {
    pub quality: String,
    pub level: String,
    pub link: String,
}

/// The network section: the interface's label, its name and MAC, the rates
/// and totals, then the Wi-Fi readings when there are any.
pub fn network_detail(
    nets: &[NetInfo],
    idx: usize,
    mac: &str,
    rx_text: &str,
    tx_text: &str,
    rx_total: u64,
    tx_total: u64,
    wifi: Option<&WifiText>,
) -> (r: Detail)
    ensures
        idx < nets@.len() ==> {
            &&& r.title@ == label_of(nets@, idx as int)
            &&& r.subtitle@ == nets@[idx as int].name@ + " · MAC "@ + mac@
            &&& stats_view(r.stats@) == seq![
                line("Receive"@, rx_text@),
                line("Send"@, tx_text@),
                sep_line(),
                line("Total received"@, bytes_text(rx_total as nat)),
                line("Total sent"@, bytes_text(tx_total as nat)),
            ] + match wifi {
                Some(w) => seq![
                    sep_line(),
                    line("Signal quality"@, w.quality@),
                    line("Signal level"@, w.level@),
                    line("Link quality"@, w.link@),
                ],
                None => Seq::empty(),
            }
        },
        idx >= nets@.len() ==> r.title@ == "No interface"@ && r.subtitle@ == Seq::<char>::empty()
            && r.stats@.len() == 0,
{
    if idx >= nets.len() {
        return Detail { title: text1("No interface"), subtitle: String::new(), stats: Vec::new() };
    }
    let title = iface_label(nets, idx);
    let subtitle = text3(nets[idx].name.as_str(), " · MAC ", mac);
    let mut stats: Vec<StatLine> = Vec::new();
    push_stat(&mut stats, "Receive", rx_text);
    push_stat(&mut stats, "Send", tx_text);
    push_sep(&mut stats);
    let a = format_bytes(rx_total);
    let b = format_bytes(tx_total);
    push_stat(&mut stats, "Total received", a.as_str());
    push_stat(&mut stats, "Total sent", b.as_str());
    let ghost head = stats_view(stats@);
    match wifi {
        Some(w) => {
            push_sep(&mut stats);
            push_stat(&mut stats, "Signal quality", w.quality.as_str());
            push_stat(&mut stats, "Signal level", w.level.as_str());
            push_stat(&mut stats, "Link quality", w.link.as_str());
        },
        None => {},
    }
    proof {
        assert(stats_view(stats@) =~= seq![
            line("Receive"@, rx_text@),
            line("Send"@, tx_text@),
            sep_line(),
            line("Total received"@, bytes_text(rx_total as nat)),
            line("Total sent"@, bytes_text(tx_total as nat)),
        ] + match wifi {
            Some(w) => seq![
                sep_line(),
                line("Signal quality"@, w.quality@),
                line("Signal level"@, w.level@),
                line("Link quality"@, w.link@),
            ],
            None => Seq::<StatView>::empty(),
        });
    }
    Detail { title, subtitle, stats }
}

/// The title over the network section's second graph.
pub fn network_aux_title(has_wifi: bool) -> (r: &'static str)
    ensures
        r@ == if has_wifi {
            "Signal quality (last 60s)"@
        } else {
            Seq::<char>::empty()
        },
{
    proof {
        reveal_strlit("");
    }
    if has_wifi {
        "Signal quality (last 60s)"
    } else {
        ""
    }
}

// ---------------------------------------------------------------------------
// GPUs.
// ---------------------------------------------------------------------------

/// A GPU as the detail panel reads it; readings that are floating point
/// come worded, or `None` where the panel leaves them out.
pub struct GpuText {
    pub name: String,
    pub vendor: String,
    pub driver: String,
    pub util_known: bool,
    pub util_text: String,
    pub mem_used: u64,
    pub mem_total: u64,
    pub mem_shared: bool,
    pub mem_pct_text: String,
    pub temp_text: Option<String>,
    pub power_text: Option<String>,
    pub clock_mhz: u64,
    pub mem_clock_mhz: u64,
}

pub open spec fn opt_line(label: Seq<char>, v: Option<String>) -> Seq<StatView> {
    match v {
        Some(t) => seq![line(label, t@)],
        None => Seq::empty(),
    }
}

pub open spec fn mhz_line(label: Seq<char>, mhz: u64) -> Seq<StatView> {
    if mhz > 0 {
        seq![line(label, dec(mhz as nat) + " MHz"@)]
    } else {
        Seq::empty()
    }
}

pub open spec fn gpu_stats(g: GpuText) -> Seq<StatView> {
    seq![line("Utilization"@, if g.util_known { g.util_text@ } else { "N/A"@ })] + (if g.mem_total > 0 {
        seq![
            line(
                if g.mem_shared {
                    "Memory (shared)"@
                } else {
                    "VRAM"@
                },
                bytes_text(g.mem_used as nat) + " / "@ + bytes_text(g.mem_total as nat) + " ("@
                    + g.mem_pct_text@ + ")"@,
            ),
        ]
    } else {
        Seq::empty()
    }) + opt_line("Temperature"@, g.temp_text) + opt_line("Power"@, g.power_text) + mhz_line(
        "Core clock"@,
        g.clock_mhz,
    ) + mhz_line("Memory clock"@, g.mem_clock_mhz)
}

/// What the panel says when a GPU's utilization counter cannot be read.
pub open spec fn gpu_warning_text(g: GpuText) -> Seq<char> {
    if g.util_known {
        Seq::empty()
    } else if eq_ignore_ascii_case(g.vendor@, "Intel"@) {
        "rproc could not open the Intel i915/xe perf PMU. The kernel requires CAP_PERFMON, or kernel.perf_event_paranoid ≤ 2, to read GPU engine counters."@
    } else {
        "rproc could not read this GPU's utilization counter. The kernel requires elevated permissions to access the perf PMU."@
    }
}

fn push_opt(v: &mut Vec<StatLine>, label: &str, t: &Option<String>)
    ensures
        stats_view(final(v)@) == stats_view(old(v)@) + opt_line(label@, *t),
{
    match t {
        Some(s) => {
            push_stat(v, label, s.as_str());
            proof {
                assert(stats_view(v@) =~= stats_view(old(v)@) + opt_line(label@, *t));
            }
        },
        None => {
            proof {
                assert(stats_view(v@) =~= stats_view(old(v)@) + opt_line(label@, *t));
            }
        },
    }
}

fn push_mhz(v: &mut Vec<StatLine>, label: &str, mhz: u64)
    ensures
        stats_view(final(v)@) == stats_view(old(v)@) + mhz_line(label@, mhz),
{
    if mhz > 0 {
        let n = dec_string(mhz);
        let t = text2(n.as_str(), " MHz");
        push_stat(v, label, t.as_str());
        proof {
            assert(stats_view(v@) =~= stats_view(old(v)@) + mhz_line(label@, mhz));
        }
    } else {
        proof {
            assert(stats_view(v@) =~= stats_view(old(v)@) + mhz_line(label@, mhz));
        }
    }
}

/// The GPU section: its name, vendor and driver, the warning when its
/// utilization cannot be read, and its stat lines (see `gpu_stats`).
pub fn gpu_detail(g: Option<&GpuText>) -> (r: (Detail, String))
    ensures
        match g {
            Some(g) => {
                &&& r.0.title@ == "GPU: "@ + g.name@
                &&& r.0.subtitle@ == g.vendor@ + " · driver "@ + g.driver@
                &&& stats_view(r.0.stats@) == gpu_stats(*g)
                &&& r.1@ == gpu_warning_text(*g)
            },
            None => r.0.title@ == "No GPU"@ && r.0.subtitle@ == Seq::<char>::empty() && r.0.stats@.len()
                == 0 && r.1@ == Seq::<char>::empty(),
        },
{
    match g {
        None => (Detail { title: text1("No GPU"), subtitle: String::new(), stats: Vec::new() }, String::new()),
        Some(g) => {
            let title = text2("GPU: ", g.name.as_str());
            let subtitle = text3(g.vendor.as_str(), " · driver ", g.driver.as_str());
            let warning = if g.util_known {
                String::new()
            } else if eq_ignore_ascii_case_lit(&chars_of(g.vendor.as_str()), "Intel") {
                text1("rproc could not open the Intel i915/xe perf PMU. The kernel requires CAP_PERFMON, or kernel.perf_event_paranoid ≤ 2, to read GPU engine counters.")
            } else {
                text1("rproc could not read this GPU's utilization counter. The kernel requires elevated permissions to access the perf PMU.")
            };
            let mut stats: Vec<StatLine> = Vec::new();
            if g.util_known {
                push_stat(&mut stats, "Utilization", g.util_text.as_str());
            } else {
                push_stat(&mut stats, "Utilization", "N/A");
            }
            let ghost s1 = stats_view(stats@);
            if g.mem_total > 0 {
                let u = format_bytes(g.mem_used);
                let t = format_bytes(g.mem_total);
                let v = text6(u.as_str(), " / ", t.as_str(), " (", g.mem_pct_text.as_str(), ")");
                let label = if g.mem_shared {
                    "Memory (shared)"
                } else {
                    "VRAM"
                };
                push_stat(&mut stats, label, v.as_str());
            }
            let ghost s2 = stats_view(stats@);
            push_opt(&mut stats, "Temperature", &g.temp_text);
            push_opt(&mut stats, "Power", &g.power_text);
            push_mhz(&mut stats, "Core clock", g.clock_mhz);
            push_mhz(&mut stats, "Memory clock", g.mem_clock_mhz);
            proof {
                assert(s2 =~= s1 + (if g.mem_total > 0 {
                    seq![
                        line(
                            if g.mem_shared {
                                "Memory (shared)"@
                            } else {
                                "VRAM"@
                            },
                            bytes_text(g.mem_used as nat) + " / "@ + bytes_text(g.mem_total as nat) + " ("@
                                + g.mem_pct_text@ + ")"@,
                        ),
                    ]
                } else {
                    Seq::<StatView>::empty()
                }));
                assert(stats_view(stats@) =~= gpu_stats(*g));
            }
            (Detail { title, subtitle, stats }, warning)
        },
    }
}

/// The title over the GPU section's memory graph, when it has memory.
pub fn gpu_aux_title(mem_total: u64, mem_shared: bool) -> (r: &'static str)
    ensures
        r@ == if mem_total == 0 {
            Seq::<char>::empty()
        } else if mem_shared {
            "Memory, shared (last 60s)"@
        } else {
            "VRAM (last 60s)"@
        },
{
    proof {
        reveal_strlit("");
    }
    if mem_total == 0 {
        ""
    } else if mem_shared {
        "Memory, shared (last 60s)"
    } else {
        "VRAM (last 60s)"
    }
}

// ---------------------------------------------------------------------------
// The battery.
// ---------------------------------------------------------------------------

/// The battery as the detail panel reads it; readings that are floating
/// point come worded, or `None` where the panel leaves them out.
pub struct BatteryText {
    pub model: String,
    pub technology: String,
    pub full: bool,
    pub charging: bool,
    pub ac_online: bool,
    pub status_label: String,
    pub charge_text: String,
    pub power_text: Option<String>,
    pub time_left_secs: Option<u64>,
    pub energy_text: Option<String>,
    pub health_text: Option<String>,
    pub cycle_count: u64,
}

/// The non-empty parts joined with `" · "`.
pub open spec fn battery_subtitle(b: BatteryText) -> Seq<char> {
    if b.model@.len() > 0 && b.technology@.len() > 0 {
        b.model@ + " · "@ + b.technology@
    } else if b.model@.len() > 0 {
        b.model@
    } else {
        b.technology@
    }
}

pub open spec fn battery_stats(b: BatteryText) -> Seq<StatView> {
    battery_top(b) + battery_bottom(b)
}

pub open spec fn battery_top(b: BatteryText) -> Seq<StatView> {
    seq![
        line("Charge"@, b.charge_text@),
        line("Status"@, if b.ac_online && !b.charging {
            b.status_label@ + " (AC connected)"@
        } else {
            b.status_label@
        }),
    ] + opt_line("Power"@, b.power_text) + match b.time_left_secs {
        Some(s) => seq![line(if b.charging { "Time to full"@ } else { "Time remaining"@ }, duration_text(s as nat))],
        None => Seq::empty(),
    }
}

pub open spec fn battery_bottom(b: BatteryText) -> Seq<StatView> {
    (if b.energy_text is Some || b.health_text is Some || b.cycle_count > 0 {
        seq![sep_line()]
    } else {
        Seq::empty()
    }) + opt_line("Energy"@, b.energy_text) + opt_line("Health"@, b.health_text) + if b.cycle_count
        > 0 {
        seq![line("Cycle count"@, dec(b.cycle_count as nat))]
    } else {
        Seq::empty()
    }
}

fn battery_top_lines(stats: &mut Vec<StatLine>, b: &BatteryText)
    ensures
        stats_view(final(stats)@) == stats_view(old(stats)@) + battery_top(*b),
{
    let ghost s0 = stats_view(stats@);
    push_stat(stats, "Charge", b.charge_text.as_str());
    if b.ac_online && !b.charging {
        let s = text2(b.status_label.as_str(), " (AC connected)");
        push_stat(stats, "Status", s.as_str());
    } else {
        push_stat(stats, "Status", b.status_label.as_str());
    }
    push_opt(stats, "Power", &b.power_text);
    let ghost s2 = stats_view(stats@);
    match b.time_left_secs {
        Some(secs) => {
            let d = format_duration(secs);
            let label = if b.charging {
                "Time to full"
            } else {
                "Time remaining"
            };
            push_stat(stats, label, d.as_str());
        },
        None => {},
    }
    proof {
        assert(stats_view(stats@) =~= s2 + match b.time_left_secs {
            Some(s) => seq![line(if b.charging { "Time to full"@ } else { "Time remaining"@ }, duration_text(s as nat))],
            None => Seq::<StatView>::empty(),
        });
        assert(stats_view(stats@) =~= s0 + battery_top(*b));
    }
}

fn battery_bottom_lines(stats: &mut Vec<StatLine>, b: &BatteryText)
    ensures
        stats_view(final(stats)@) == stats_view(old(stats)@) + battery_bottom(*b),
{
    let ghost s0 = stats_view(stats@);
    if b.energy_text.is_some() || b.health_text.is_some() || b.cycle_count > 0 {
        push_sep(stats);
    }
    let ghost s1 = stats_view(stats@);
    push_opt(stats, "Energy", &b.energy_text);
    push_opt(stats, "Health", &b.health_text);
    let ghost s3 = stats_view(stats@);
    if b.cycle_count > 0 {
        let c = dec_string(b.cycle_count);
        push_stat(stats, "Cycle count", c.as_str());
    }
    proof {
        assert(s1 =~= s0 + (if b.energy_text is Some || b.health_text is Some || b.cycle_count > 0 {
            seq![sep_line()]
        } else {
            Seq::<StatView>::empty()
        }));
        assert(stats_view(stats@) =~= s3 + if b.cycle_count > 0 {
            seq![line("Cycle count"@, dec(b.cycle_count as nat))]
        } else {
            Seq::<StatView>::empty()
        });
        assert(stats_view(stats@) =~= s0 + battery_bottom(*b));
    }
}

fn battery_lines(b: &BatteryText) -> (r: Vec<StatLine>)
    ensures
        stats_view(r@) == battery_stats(*b),
{
    let mut stats: Vec<StatLine> = Vec::new();
    battery_top_lines(&mut stats, b);
    battery_bottom_lines(&mut stats, b);
    proof {
        assert(stats_view(stats@) =~= battery_stats(*b));
    }
    stats
}

/// The battery section: its model and technology, the graph it shows (the
/// charge when full, else the power draw), and its stat lines (see
/// `battery_stats`).
pub fn battery_detail(b: Option<&BatteryText>) -> (r: (Detail, &'static str))
    ensures
        match b {
            Some(b) => {
                &&& r.0.title@ == "Battery"@
                &&& r.0.subtitle@ == battery_subtitle(*b)
                &&& stats_view(r.0.stats@) == battery_stats(*b)
                &&& r.1@ == if b.full {
                    "Charge (last 60s)"@
                } else {
                    "Power (last 60s)"@
                }
            },
            None => r.0.title@ == "No battery"@ && r.0.subtitle@ == Seq::<char>::empty() && r.0.stats@.len()
                == 0 && r.1@ == "Usage (last 60s)"@,
        },
{
    match b {
        None => (
            Detail { title: text1("No battery"), subtitle: String::new(), stats: Vec::new() },
            "Usage (last 60s)",
        ),
        Some(b) => {
            let title = text1("Battery");
            let subtitle = if !b.model.as_str().is_empty() && !b.technology.as_str().is_empty() {
                text3(b.model.as_str(), " · ", b.technology.as_str())
            } else if !b.model.as_str().is_empty() {
                text1(b.model.as_str())
            } else {
                text1(b.technology.as_str())
            };
            let graph = if b.full {
                "Charge (last 60s)"
            } else {
                "Power (last 60s)"
            };
            let stats = battery_lines(b);
            (Detail { title, subtitle, stats }, graph)
        },
    }
}

// ---------------------------------------------------------------------------
// Cards.
// ---------------------------------------------------------------------------

/// A card's id: the section's prefix and the device's position.
pub fn card_id(prefix: &str, i: u64) -> (r: String)
    ensures
        r@ == prefix@ + dec(i as nat),
{
    let n = dec_string(i);
    text2(prefix, n.as_str())
}

/// A GPU card's title: `"GPU <i> (<vendor>)"`.
pub fn gpu_card_title(i: u64, vendor: &str) -> (r: String)
    ensures
        r@ == "GPU "@ + dec(i as nat) + " ("@ + vendor@ + ")"@,
{
    let n = dec_string(i);
    text5("GPU ", n.as_str(), " (", vendor, ")")
}

/// A disk card's title: `"Disk <short name>"`.
pub fn disk_card_title(name: &str) -> (r: String)
    ensures
        r@ == "Disk "@ + short_disk(name@),
{
    let s = short_disk_name(name);
    text2("Disk ", s.as_str())
}

/// The head of a card in the left-hand list: its id, title and subtitle, and
/// whether its section is the one shown. The reading and the sparkline are
/// floating point and are drawn by the caller.
pub struct CardHead {
    pub id: String,
    pub title: String,
    pub subtitle: String,
    pub selected: bool,
}

pub type HeadView = (Seq<char>, Seq<char>, Seq<char>, bool);

pub open spec fn head_view(h: CardHead) -> HeadView {
    (h.id@, h.title@, h.subtitle@, h.selected)
}

pub open spec fn heads_view(v: Seq<CardHead>) -> Seq<HeadView> {
    v.map_values(|h: CardHead| head_view(h))
}

/// A GPU's card, from its vendor and name.
pub open spec fn gpu_head(section: Section, i: int, g: (String, String)) -> HeadView {
    (
        "gpu"@ + dec(i as nat),
        "GPU "@ + dec(i as nat) + " ("@ + g.0@ + ")"@,
        g.1@,
        section == Section::Gpu(i as usize),
    )
}

/// A disk's card, from its device name.
pub open spec fn disk_head(section: Section, i: int, name: String) -> HeadView {
    ("disk"@ + dec(i as nat), "Disk "@ + short_disk(name@), Seq::empty(), section == Section::Disk(i as usize))
}

/// An interface's card.
pub open spec fn net_head(section: Section, nets: Seq<NetInfo>, i: int) -> HeadView {
    ("net"@ + dec(i as nat), label_of(nets, i), Seq::empty(), section == Section::Network(i as usize))
}

/// The cards in order: CPU, memory, each GPU, each disk, each interface, and
/// the battery when there is one (`battery` holds its status label).
pub open spec fn card_heads_spec(
    section: Section,
    cpu_brand: Seq<char>,
    ram_value: Seq<char>,
    gpus: Seq<(String, String)>,
    disks: Seq<String>,
    nets: Seq<NetInfo>,
    battery: Option<Seq<char>>,
) -> Seq<HeadView> {
    seq![
        ("cpu"@, "CPU"@, cpu_brand, section == Section::Cpu),
        ("mem"@, "Memory"@, ram_value, section == Section::Memory),
    ] + Seq::new(gpus.len(), |i: int| gpu_head(section, i, gpus[i])) + Seq::new(
        disks.len(),
        |i: int| disk_head(section, i, disks[i]),
    ) + Seq::new(nets.len(), |i: int| net_head(section, nets, i)) + match battery {
        Some(status) => seq![("battery"@, "Battery"@, status, section == Section::Battery)],
        None => Seq::empty(),
    }
}

/// Which section the card at position `j` of the list stands for.
pub open spec fn card_section(g: nat, d: nat, n: nat, j: int) -> Section {
    if j == 0 {
        Section::Cpu
    } else if j == 1 {
        Section::Memory
    } else if j < 2 + g {
        Section::Gpu((j - 2) as usize)
    } else if j < 2 + g + d {
        Section::Disk((j - 2 - g) as usize)
    } else if j < 2 + g + d + n {
        Section::Network((j - 2 - g - d) as usize)
    } else {
        Section::Battery
    }
}

/// Each card is selected exactly when the shown section is its own, and no
/// two cards stand for the same section: at most one card is selected.
pub proof fn lemma_one_card_selected(
    section: Section,
    cpu_brand: Seq<char>,
    ram_value: Seq<char>,
    gpus: Seq<(String, String)>,
    disks: Seq<String>,
    nets: Seq<NetInfo>,
    battery: Option<Seq<char>>,
    j: int,
    k: int,
)
    requires
        gpus.len() <= usize::MAX,
        disks.len() <= usize::MAX,
        nets.len() <= usize::MAX,
        0 <= j < card_heads_spec(section, cpu_brand, ram_value, gpus, disks, nets, battery).len(),
        0 <= k < card_heads_spec(section, cpu_brand, ram_value, gpus, disks, nets, battery).len(),
    ensures
        card_heads_spec(section, cpu_brand, ram_value, gpus, disks, nets, battery)[j].3 == (section
            == card_section(gpus.len(), disks.len(), nets.len(), j)),
        card_section(gpus.len(), disks.len(), nets.len(), j) == card_section(gpus.len(), disks.len(), nets.len(), k)
            ==> j == k,
{
    let heads = card_heads_spec(section, cpu_brand, ram_value, gpus, disks, nets, battery);
    let g = gpus.len() as int;
    let d = disks.len() as int;
    let n = nets.len() as int;
    let a = seq![
        ("cpu"@, "CPU"@, cpu_brand, section == Section::Cpu),
        ("mem"@, "Memory"@, ram_value, section == Section::Memory),
    ];
    let sg = Seq::new(gpus.len(), |i: int| gpu_head(section, i, gpus[i]));
    let sd = Seq::new(disks.len(), |i: int| disk_head(section, i, disks[i]));
    let sn = Seq::new(nets.len(), |i: int| net_head(section, nets, i));
    let sb: Seq<HeadView> = match battery {
        Some(status) => seq![("battery"@, "Battery"@, status, section == Section::Battery)],
        None => Seq::empty(),
    };
    assert(heads == a + sg + sd + sn + sb);
    if j < 2 {
        assert(heads[j] == a[j]);
    } else if j < 2 + g {
        assert(heads[j] == sg[j - 2]);
    } else if j < 2 + g + d {
        assert(heads[j] == sd[j - 2 - g]);
    } else if j < 2 + g + d + n {
        assert(heads[j] == sn[j - 2 - g - d]);
    } else {
        assert(heads[j] == sb[j - 2 - g - d - n]);
    }
}

fn head(id: String, title: String, subtitle: &str, selected: bool) -> (r: CardHead)
    ensures
        head_view(r) == (id@, title@, subtitle@, selected),
{
    CardHead { id, title, subtitle: text1(subtitle), selected }
}

/// The heads of the cards for the shown `section`. `gpus` holds each GPU's
/// vendor and name, `disks` each disk's device name.
pub fn card_heads(
    section: Section,
    cpu_brand: &str,
    ram_value: &str,
    gpus: &Vec<(String, String)>,
    disks: &Vec<String>,
    nets: &Vec<NetInfo>,
    battery: Option<&str>,
) -> (r: Vec<CardHead>)
    ensures
        heads_view(r@) == card_heads_spec(
            section,
            cpu_brand@,
            ram_value@,
            gpus@,
            disks@,
            nets@,
            match battery {
                Some(s) => Some(s@),
                None => None,
            },
        ),
{
    let mut out: Vec<CardHead> = Vec::new();
    out.push(head(text1("cpu"), text1("CPU"), cpu_brand, section == Section::Cpu));
    out.push(head(text1("mem"), text1("Memory"), ram_value, section == Section::Memory));
    let ghost base = heads_view(out@);
    let mut i: usize = 0;
    while i < gpus.len()
        invariant
            i <= gpus@.len(),
            heads_view(out@) == base + Seq::new(i as nat, |k: int| gpu_head(section, k, gpus@[k])),
        decreases gpus.len() - i,
    {
        let h = head(
            card_id("gpu", i as u64),
            gpu_card_title(i as u64, gpus[i].0.as_str()),
            gpus[i].1.as_str(),
            section == Section::Gpu(i),
        );
        let ghost prev = out@;
        out.push(h);
        proof {
            assert(heads_view(out@) =~= heads_view(prev).push(head_view(h)));
            assert(head_view(h) == gpu_head(section, i as int, gpus@[i as int]));
            assert(heads_view(out@) =~= base + Seq::new((i + 1) as nat, |k: int| gpu_head(section, k, gpus@[k])));
        }
        i += 1;
    }
    let ghost base = heads_view(out@);
    let mut i: usize = 0;
    while i < disks.len()
        invariant
            i <= disks@.len(),
            heads_view(out@) == base + Seq::new(i as nat, |k: int| disk_head(section, k, disks@[k])),
        decreases disks.len() - i,
    {
        let h = head(card_id("disk", i as u64), disk_card_title(disks[i].as_str()), "", section == Section::Disk(i));
        let ghost prev = out@;
        out.push(h);
        proof {
            reveal_strlit("");
            assert(heads_view(out@) =~= heads_view(prev).push(head_view(h)));
            assert(head_view(h) == disk_head(section, i as int, disks@[i as int]));
            assert(heads_view(out@) =~= base + Seq::new((i + 1) as nat, |k: int| disk_head(section, k, disks@[k])));
        }
        i += 1;
    }
    let ghost base = heads_view(out@);
    let mut i: usize = 0;
    while i < nets.len()
        invariant
            i <= nets@.len(),
            heads_view(out@) == base + Seq::new(i as nat, |k: int| net_head(section, nets@, k)),
        decreases nets.len() - i,
    {
        let h = head(card_id("net", i as u64), iface_label(nets.as_slice(), i), "", section == Section::Network(i));
        let ghost prev = out@;
        out.push(h);
        proof {
            reveal_strlit("");
            assert(heads_view(out@) =~= heads_view(prev).push(head_view(h)));
            assert(head_view(h) == net_head(section, nets@, i as int));
            assert(heads_view(out@) =~= base + Seq::new((i + 1) as nat, |k: int| net_head(section, nets@, k)));
        }
        i += 1;
    }
    let ghost before = heads_view(out@);
    match battery {
        Some(status) => {
            let h = head(text1("battery"), text1("Battery"), status, section == Section::Battery);
            let ghost prev = out@;
            out.push(h);
            proof {
                assert(heads_view(out@) =~= heads_view(prev).push(head_view(h)));
            }
        },
        None => {},
    }
    proof {
        let spec = card_heads_spec(
            section,
            cpu_brand@,
            ram_value@,
            gpus@,
            disks@,
            nets@,
            match battery {
                Some(s) => Some(s@),
                None => None,
            },
        );
        assert(heads_view(out@) =~= spec);
    }
    out
}

} // verus!
