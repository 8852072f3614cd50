use rproc::attribution::{shares_at, Attribution, Kind};
use rproc::hover::{
    attrib_view, hover_label, sample_value, section_series, unit_of, AttribView, Series, Unit,
};
use rproc::perf_detail::card_heads;
use rproc::performance::{NetInfo, Section, State};

#[test]
fn cpu_and_memory_read_one_unnamed_series() {
    let (data, kind) = section_series(Section::Cpu, false, None, false);
    assert_eq!(data, vec![("", Series::CpuTotal)]);
    assert_eq!(kind, Some(Kind::Cpu));
    let (data, kind) = section_series(Section::Memory, false, None, false);
    assert_eq!(data, vec![("", Series::RamUsed)]);
    assert_eq!(kind, Some(Kind::Ram));
}

#[test]
fn disk_and_network_series_need_the_device() {
    let (data, kind) = section_series(Section::Disk(1), true, None, false);
    assert_eq!(data, vec![("read", Series::DiskRead(1)), ("write", Series::DiskWrite(1))]);
    assert_eq!(kind, Some(Kind::Disk));
    let (data, kind) = section_series(Section::Disk(4), false, None, false);
    assert!(data.is_empty());
    assert_eq!(kind, None);
    let (data, kind) = section_series(Section::Network(0), true, None, false);
    assert_eq!(data, vec![("receive", Series::NetRx(0)), ("send", Series::NetTx(0))]);
    assert_eq!(kind, None);
}

#[test]
fn gpu_series_name_memory_by_sharing() {
    let (data, kind) = section_series(Section::Gpu(0), true, Some(true), false);
    assert_eq!(data, vec![("util", Series::GpuUtil(0)), ("mem", Series::GpuMem(0))]);
    assert_eq!(kind, Some(Kind::Gpu));
    let (data, _) = section_series(Section::Gpu(2), true, Some(false), false);
    assert_eq!(data, vec![("util", Series::GpuUtil(2)), ("vram", Series::GpuMem(2))]);
    let (data, _) = section_series(Section::Gpu(2), true, None, false);
    assert_eq!(data, vec![("util", Series::GpuUtil(2))]);
    let (data, kind) = section_series(Section::Gpu(2), false, Some(true), false);
    assert!(data.is_empty());
    assert_eq!(kind, None);
}

#[test]
fn battery_series_lead_with_what_is_plotted() {
    let (data, kind) = section_series(Section::Battery, false, None, true);
    assert_eq!(data, vec![("", Series::BatteryPct), ("power", Series::BatteryPower)]);
    assert_eq!(kind, Some(Kind::Battery));
    let (data, _) = section_series(Section::Battery, false, None, false);
    assert_eq!(data, vec![("", Series::BatteryPower), ("charge", Series::BatteryPct)]);
}

#[test]
fn series_units() {
    assert_eq!(unit_of(Series::DiskRead(0)), Unit::Bps);
    assert_eq!(unit_of(Series::NetTx(3)), Unit::Bps);
    assert_eq!(unit_of(Series::BatteryPower), Unit::Watts);
    assert_eq!(unit_of(Series::GpuMem(1)), Unit::Pct);
    assert_eq!(unit_of(Series::CpuTotal), Unit::Pct);
}

#[test]
fn sample_value_reads_right_aligned_history() {
    let d = vec![10u32, 20, 30];
    assert_eq!(sample_value(&d, 59), Some(30));
    assert_eq!(sample_value(&d, 57), Some(10));
    assert_eq!(sample_value(&d, 56), None);
    assert_eq!(sample_value(&d, 60), None);
    assert_eq!(sample_value(&d, i64::MIN), None);
    let empty: Vec<u32> = Vec::new();
    assert_eq!(sample_value(&empty, 59), None);
}

#[test]
fn hover_label_lists_readings_under_the_time() {
    let readings = vec![("", Some("42%".to_string()))];
    assert_eq!(hover_label(59, 1000, &readings), "now\n42%");
    let readings = vec![("read", Some("1.0 MB/s".to_string())), ("write", None)];
    assert_eq!(hover_label(57, 1000, &readings), "-2 s\nread  1.0 MB/s\nwrite  \u{2014}");
    let readings = vec![("", None)];
    assert_eq!(hover_label(56, 500, &readings), "-1.5 s\n\u{2014}");
    assert_eq!(hover_label(59, 1000, &Vec::new()), "now");
}

#[test]
fn attribution_panel_states() {
    assert_eq!(
        attrib_view(true, Some(Kind::Cpu), 5, Some(3)),
        AttribView { active: true, empty: false, rows: true }
    );
    assert_eq!(
        attrib_view(true, Some(Kind::Cpu), 5, Some(0)),
        AttribView { active: true, empty: true, rows: false }
    );
    assert_eq!(
        attrib_view(true, Some(Kind::Disk), 5, None),
        AttribView { active: true, empty: false, rows: false }
    );
    assert_eq!(
        attrib_view(false, Some(Kind::Cpu), 5, Some(3)),
        AttribView { active: false, empty: false, rows: false }
    );
    assert_eq!(
        attrib_view(true, None, 5, Some(3)),
        AttribView { active: false, empty: false, rows: false }
    );
    assert_eq!(
        attrib_view(true, Some(Kind::Ram), 0, Some(3)),
        AttribView { active: false, empty: false, rows: false }
    );
}

fn sample(tag: u32) -> Attribution<u32> {
    Attribution {
        cpu: vec![tag],
        ram: vec![tag + 1],
        disk: vec![tag + 2],
        gpu: vec![tag + 3],
        battery: vec![tag + 4],
    }
}

#[test]
fn shares_at_picks_the_hovered_sample_and_kind() {
    let history = vec![sample(100), sample(200)];
    assert_eq!(shares_at(&history, Kind::Cpu, Some(59)), Some(&vec![200]));
    assert_eq!(shares_at(&history, Kind::Disk, Some(58)), Some(&vec![102]));
    assert_eq!(shares_at(&history, Kind::Battery, Some(59)), Some(&vec![204]));
    assert_eq!(shares_at(&history, Kind::Ram, Some(57)), None);
    assert_eq!(shares_at(&history, Kind::Gpu, None), None);
}

fn net(name: &str) -> NetInfo {
    NetInfo { name: name.to_string() }
}

#[test]
fn card_heads_in_order_with_selection() {
    let gpus = vec![("AMD".to_string(), "Radeon 780M".to_string())];
    let disks = vec!["/dev/nvme0n1".to_string(), "sda".to_string()];
    let nets = vec![net("wlan0"), net("eth0")];
    let heads = card_heads(Section::Disk(1), "Ryzen 7", "3.0 GB / 16.0 GB", &gpus, &disks, &nets, Some("Discharging"));
    let view: Vec<(String, String, String, bool)> = heads
        .iter()
        .map(|h| (h.id.clone(), h.title.clone(), h.subtitle.clone(), h.selected))
        .collect();
    let s = |a: &str, b: &str, c: &str, d: bool| (a.to_string(), b.to_string(), c.to_string(), d);
    assert_eq!(
        view,
        vec![
            s("cpu", "CPU", "Ryzen 7", false),
            s("mem", "Memory", "3.0 GB / 16.0 GB", false),
            s("gpu0", "GPU 0 (AMD)", "Radeon 780M", false),
            s("disk0", "Disk nvme0n1", "", false),
            s("disk1", "Disk sda", "", true),
            s("net0", "Wi-Fi", "", false),
            s("net1", "Ethernet", "", false),
            s("battery", "Battery", "Discharging", false),
        ]
    );
    let heads = card_heads(Section::Cpu, "x", "y", &Vec::new(), &Vec::new(), &Vec::new(), None);
    assert_eq!(heads.len(), 2);
    assert!(heads[0].selected && !heads[1].selected);
}

#[test]
fn selecting_a_card_drops_the_hover() {
    let mut st = State::default();
    assert_eq!(st.section, Section::Cpu);
    st.hover = Some(42);
    st.detail_collapsed = true;
    st.select("disk2");
    assert_eq!(st.section, Section::Disk(2));
    assert_eq!(st.hover, None);
    assert!(st.detail_collapsed);
    st.select("gpux");
    assert_eq!(st.section, Section::Gpu(0));
    st.select("what");
    assert_eq!(st.section, Section::Cpu);
}
