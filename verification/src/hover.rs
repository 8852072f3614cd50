//! The readout under the pointer on the performance graph: which series each
//! section reads, the sample under the pointer, the label listing them, and
//! whether the per-process attribution shows.
use vstd::prelude::*;
use crate::attribution::Kind;
use crate::performance::Section;
use crate::text::push_lit;
use crate::widgets::{format_time_ago, interval_factor, sample_at, sample_for_plot_x, time_ago_text};

verus! {

/// A history series the readout can read.
#[derive(Clone, Copy, Debug, PartialEq, Eq, Structural)]
pub enum Series {
    CpuTotal,
    RamUsed,
    DiskRead(usize),
    DiskWrite(usize),
    NetRx(usize),
    NetTx(usize),
    GpuUtil(usize),
    GpuMem(usize),
    BatteryPct,
    BatteryPower,
}

/// The unit a series' values are worded in.
#[derive(Clone, Copy, Debug, PartialEq, Eq, Structural)]
pub enum Unit {
    Pct,
    Watts,
    Bps,
}

pub open spec fn unit_spec(s: Series) -> Unit {
    match s {
        Series::DiskRead(_) | Series::DiskWrite(_) | Series::NetRx(_) | Series::NetTx(_) => Unit::Bps,
        Series::BatteryPower => Unit::Watts,
        _ => Unit::Pct,
    }
}

/// The unit of a series: rates for disks and interfaces, signed watts for
/// the battery's power, percentages otherwise.
pub fn unit_of(s: Series) -> (r: Unit)
    ensures
        r == unit_spec(s),
{
    match s {
        Series::DiskRead(_) | Series::DiskWrite(_) | Series::NetRx(_) | Series::NetTx(_) => Unit::Bps,
        Series::BatteryPower => Unit::Watts,
        _ => Unit::Pct,
    }
}

pub open spec fn no_series() -> Seq<(Seq<char>, Series)> {
    Seq::empty()
}

/// The named series the readout lists for a section, and the attribution
/// kind the section maps to. `has_device` says whether the section's disk,
/// interface or GPU exists; `gpu_mem_shared` is `Some(shared)` when the GPU
/// reports memory; `battery_full` whether a battery is present and full.
/// Interfaces have no attribution.
pub open spec fn series_of(
    section: Section,
    has_device: bool,
    gpu_mem_shared: Option<bool>,
    battery_full: bool,
) -> (Seq<(Seq<char>, Series)>, Option<Kind>) {
    match section {
        Section::Cpu => (seq![(""@, Series::CpuTotal)], Some(Kind::Cpu)),
        Section::Memory => (seq![(""@, Series::RamUsed)], Some(Kind::Ram)),
        Section::Disk(i) => if has_device {
            (seq![("read"@, Series::DiskRead(i)), ("write"@, Series::DiskWrite(i))], Some(Kind::Disk))
        } else {
            (no_series(), None)
        },
        Section::Network(i) => (
            if has_device {
                seq![("receive"@, Series::NetRx(i)), ("send"@, Series::NetTx(i))]
            } else {
                no_series()
            },
            None,
        ),
        Section::Gpu(i) => if has_device {
            (
                seq![("util"@, Series::GpuUtil(i))] + match gpu_mem_shared {
                    Some(shared) => seq![(if shared { "mem"@ } else { "vram"@ }, Series::GpuMem(i))],
                    None => no_series(),
                },
                Some(Kind::Gpu),
            )
        } else {
            (no_series(), None)
        },
        Section::Battery => (
            if battery_full {
                seq![(""@, Series::BatteryPct), ("power"@, Series::BatteryPower)]
            } else {
                seq![(""@, Series::BatteryPower), ("charge"@, Series::BatteryPct)]
            },
            Some(Kind::Battery),
        ),
    }
}

pub open spec fn named_view(v: Seq<(&'static str, Series)>) -> Seq<(Seq<char>, Series)> {
    v.map_values(|p: (&'static str, Series)| (p.0@, p.1))
}

pub fn section_series(
    section: Section,
    has_device: bool,
    gpu_mem_shared: Option<bool>,
    battery_full: bool,
) -> (r: (Vec<(&'static str, Series)>, Option<Kind>))
    ensures
        named_view(r.0@) == series_of(section, has_device, gpu_mem_shared, battery_full).0,
        r.1 == series_of(section, has_device, gpu_mem_shared, battery_full).1,
{
    let mut data: Vec<(&'static str, Series)> = Vec::new();
    let kind = match section {
        Section::Cpu => {
            data.push(("", Series::CpuTotal));
            Some(Kind::Cpu)
        },
        Section::Memory => {
            data.push(("", Series::RamUsed));
            Some(Kind::Ram)
        },
        Section::Disk(i) => {
            if has_device {
                data.push(("read", Series::DiskRead(i)));
                data.push(("write", Series::DiskWrite(i)));
                Some(Kind::Disk)
            } else {
                None
            }
        },
        Section::Network(i) => {
            if has_device {
                data.push(("receive", Series::NetRx(i)));
                data.push(("send", Series::NetTx(i)));
            }
            None
        },
        Section::Gpu(i) => {
            if has_device {
                data.push(("util", Series::GpuUtil(i)));
                match gpu_mem_shared {
                    Some(shared) => {
                        let name = if shared { "mem" } else { "vram" };
                        data.push((name, Series::GpuMem(i)));
                    },
                    None => {},
                }
                Some(Kind::Gpu)
            } else {
                None
            }
        },
        Section::Battery => {
            if battery_full {
                data.push(("", Series::BatteryPct));
                data.push(("power", Series::BatteryPower));
            } else {
                data.push(("", Series::BatteryPower));
                data.push(("charge", Series::BatteryPct));
            }
            Some(Kind::Battery)
        },
    };
    proof {
        assert(named_view(data@) =~= series_of(section, has_device, gpu_mem_shared, battery_full).0);
    }
    (data, kind)
}

/// The value of a series under the hovered plot position, if the position
/// lies on the series' data.
pub fn sample_value<T: Copy>(d: &Vec<T>, snapped_x: i64) -> (r: Option<T>)
    requires
        d@.len() <= i64::MAX,
    ensures
        match sample_at(snapped_x as int, d@.len()) {
            Some(i) => r == Some(d@[i as int]),
            None => r is None,
        },
{
    if snapped_x < i64::MIN + 60 || snapped_x > 59 {
        return None;
    }
    match sample_for_plot_x(snapped_x, d.len()) {
        Some(i) => Some(d[i]),
        None => None,
    }
}

/// One line of the readout: the series' name (if any) and its worded value,
/// or a dash where the series has no sample there.
pub open spec fn reading_line(name: Seq<char>, value: Option<Seq<char>>) -> Seq<char> {
    match value {
        Some(v) => if name.len() == 0 {
            v
        } else {
            name + "  "@ + v
        },
        None => if name.len() == 0 {
            "\u{2014}"@
        } else {
            name + "  \u{2014}"@
        },
    }
}

pub open spec fn reading_view(r: (&'static str, Option<String>)) -> (Seq<char>, Option<Seq<char>>) {
    (
        r.0@,
        match r.1 {
            Some(v) => Some(v@),
            None => None,
        },
    )
}

/// The readout: when the hovered sample was taken, then one line per series.
pub open spec fn readout_text(head: Seq<char>, readings: Seq<(Seq<char>, Option<Seq<char>>)>) -> Seq<char>
    decreases readings.len(),
{
    if readings.len() == 0 {
        head
    } else {
        readout_text(head, readings.drop_last()) + "\n"@ + reading_line(
            readings.last().0,
            readings.last().1,
        )
    }
}

/// How many samples back the snapped plot position lies.
pub open spec fn samples_back(snapped_x: int) -> int {
    59 - snapped_x
}

/// The readout at snapped plot position `snapped_x` (0 to 59, the newest
/// sample at 59), one line per reading in order.
pub fn hover_label(
    snapped_x: i64,
    sample_interval_ms: u64,
    readings: &Vec<(&'static str, Option<String>)>,
) -> (r: String)
    requires
        snapped_x >= i64::MIN + 60,
        samples_back(snapped_x as int) <= 0 || (i64::MIN <= samples_back(snapped_x as int)
            * interval_factor(sample_interval_ms as nat) <= i64::MAX),
    ensures
        r@ == readout_text(
            time_ago_text(samples_back(snapped_x as int), sample_interval_ms as nat),
            readings@.map_values(|p: (&'static str, Option<String>)| reading_view(p)),
        ),
{
    let mut label = format_time_ago(59 - snapped_x, sample_interval_ms);
    let ghost head = label@;
    let ghost views = readings@.map_values(|p: (&'static str, Option<String>)| reading_view(p));
    let mut i: usize = 0;
    while i < readings.len()
        invariant
            i <= readings@.len(),
            views == readings@.map_values(|p: (&'static str, Option<String>)| reading_view(p)),
            label@ == readout_text(head, views.take(i as int)),
        decreases readings.len() - i,
    {
        proof {
            assert(views.take(i + 1).drop_last() =~= views.take(i as int));
        }
        let name = readings[i].0;
        push_lit(&mut label, "\n");
        if name.is_empty() {
            match &readings[i].1 {
                Some(v) => push_lit(&mut label, v.as_str()),
                None => push_lit(&mut label, "\u{2014}"),
            }
        } else {
            push_lit(&mut label, name);
            match &readings[i].1 {
                Some(v) => {
                    push_lit(&mut label, "  ");
                    push_lit(&mut label, v.as_str());
                },
                None => push_lit(&mut label, "  \u{2014}"),
            }
        }
        proof {
            let rv = views[i as int];
            assert(rv == reading_view(readings@[i as int]));
            assert(views.take(i + 1).last() == rv);
        }
        i += 1;
    }
    proof {
        assert(views.take(readings@.len() as int) =~= views);
    }
    label
}

/// How the attribution panel shows: whether it is active at all, whether it
/// says that no process used the resource, and whether it lists rows.
#[derive(Clone, Copy, Debug, PartialEq, Eq, Structural)]
pub struct AttribView {
    pub active: bool,
    pub empty: bool,
    pub rows: bool,
}

/// The panel is active when attribution is enabled, the section has a kind
/// and some history was recorded. Active, it lists the shares at the hovered
/// sample when there are any, says it is empty when that sample has none,
/// and shows nothing when no sample is hovered (`shares_len` is `None`).
pub fn attrib_view(enabled: bool, kind: Option<Kind>, history_len: usize, shares_len: Option<usize>) -> (r: AttribView)
    ensures
        r.active == (enabled && kind is Some && history_len > 0),
        r.empty == (r.active && shares_len == Some(0usize)),
        r.rows == (r.active && (shares_len matches Some(n) && n > 0)),
{
    let active = enabled && kind.is_some() && history_len > 0;
    if !active {
        return AttribView { active: false, empty: false, rows: false };
    }
    match shares_len {
        Some(n) => if n > 0 {
            AttribView { active: true, empty: false, rows: true }
        } else {
            AttribView { active: true, empty: true, rows: false }
        },
        None => AttribView { active: true, empty: false, rows: false },
    }
}

} // verus!
