use rproc::perf_detail::{
    battery_detail, card_id, core_label, cpu_detail, disk_card_title, disk_detail, gpu_aux_title,
    gpu_card_title, gpu_detail, memory_detail, network_aux_title, network_detail, ram_value,
    BatteryText, DiskInfo, GpuText, WifiText,
};
use rproc::performance::{NetInfo, StatLine};
use rproc::processes::grouping::ProcInfo;
use rproc::processes::properties::build_properties_view;
use rproc::services::{ServiceProperties, ServiceScope};
use rproc::sheets::{process_sheet, service_sheet, startup_sheet, PropLine};
use rproc::startup::{StartupEntry, StartupSource};
use rproc::widgets::OpenTarget;

fn st(label: &str, value: &str) -> PropLine {
    PropLine::Stat { label: label.to_string(), value: value.to_string() }
}

fn path(label: &str, p: &str, target: OpenTarget) -> PropLine {
    PropLine::Path { label: label.to_string(), path: p.to_string(), target }
}

fn line(label: &str, value: &str) -> StatLine {
    StatLine { label: label.to_string(), value: value.to_string(), separator: false }
}

fn sep() -> StatLine {
    StatLine { label: String::new(), value: String::new(), separator: true }
}

fn props() -> ServiceProperties {
    ServiceProperties {
        description: "OpenSSH Daemon".to_string(),
        load_state: "loaded".to_string(),
        active_state: "active".to_string(),
        sub_state: "running".to_string(),
        unit_file_state: "enabled".to_string(),
        main_pid: "812".to_string(),
        user: String::new(),
        memory_current: "2097152".to_string(),
        tasks_current: "[not set]".to_string(),
        fragment_path: "/usr/lib/systemd/system/sshd.service".to_string(),
        drop_in_paths: vec!["/etc/systemd/system/sshd.service.d/override.conf".to_string()],
        working_directory: "[not set]".to_string(),
        exec_start: "/usr/sbin/sshd -D".to_string(),
    }
}

#[test]
fn service_sheet_lists_what_systemd_reported() {
    let (title, lines) = service_sheet("sshd.service", ServiceScope::System, &props());
    assert_eq!(title, "Properties: sshd.service");
    assert_eq!(
        lines,
        vec![
            st("Unit", "sshd.service"),
            st("Scope", "system"),
            st("Description", "OpenSSH Daemon"),
            PropLine::Separator,
            st("Load", "loaded"),
            st("Active", "active"),
            st("Sub", "running"),
            st("Unit file state", "enabled"),
            st("Main PID", "812"),
            st("Memory", "2.0 MB"),
            PropLine::Separator,
            path("Unit file", "/usr/lib/systemd/system/sshd.service", OpenTarget::Parent),
            PropLine::Heading("Drop-in files".to_string()),
            PropLine::CompactPath("/etc/systemd/system/sshd.service.d/override.conf".to_string()),
            PropLine::Heading("ExecStart".to_string()),
            PropLine::Wrapped("/usr/sbin/sshd -D".to_string()),
        ]
    );
}

#[test]
fn service_sheet_skips_unset_values() {
    let mut p = props();
    p.main_pid = "0".to_string();
    p.memory_current = "[not set]".to_string();
    p.tasks_current = "12".to_string();
    p.drop_in_paths.clear();
    p.working_directory = "/srv".to_string();
    p.exec_start.clear();
    let (_, lines) = service_sheet("x", ServiceScope::User, &p);
    assert!(!lines.contains(&st("Main PID", "0")));
    assert!(lines.contains(&st("Tasks", "12")));
    assert!(lines.contains(&path("Working directory", "/srv", OpenTarget::Self_)));
    assert!(lines.iter().all(|l| !matches!(l, PropLine::Heading(_))));
    assert!(lines.contains(&st("Scope", "user")));
}

fn entry(source: StartupSource) -> StartupEntry {
    StartupEntry {
        name: String::new(),
        path: "/home/u/.config/autostart/syncthing.desktop".to_string(),
        source,
        comment: String::new(),
        command: "syncthing serve".to_string(),
        icon: "syncthing".to_string(),
        boot_time_ms: None,
        enabled: false,
        critical: false,
    }
}

#[test]
fn startup_sheet_for_a_desktop_entry() {
    let (title, lines) = startup_sheet(&entry(StartupSource::UserAutostart), None);
    assert_eq!(title, "Properties: syncthing.desktop");
    assert_eq!(
        lines,
        vec![
            st("Name", "syncthing.desktop"),
            st("Source", "user \u{b7} autostart"),
            st("Boot time", "\u{2014}"),
            st("State", "Disabled"),
            PropLine::Separator,
            path(".desktop file", "/home/u/.config/autostart/syncthing.desktop", OpenTarget::Parent),
            PropLine::Heading("Exec".to_string()),
            PropLine::Wrapped("syncthing serve".to_string()),
            st("Icon", "syncthing"),
        ]
    );
}

#[test]
fn startup_sheet_for_a_systemd_unit() {
    let mut e = entry(StartupSource::SystemdUser);
    e.name = "Syncthing".to_string();
    e.critical = true;
    e.boot_time_ms = Some(1234);
    let (title, lines) = startup_sheet(&e, Some(&props()));
    assert_eq!(title, "Properties: Syncthing");
    assert_eq!(lines[0], st("Name", "Syncthing"));
    assert_eq!(lines[2], st("Boot time", "1.23 s"));
    assert_eq!(lines[3], st("State", "Protected (managed by systemd)"));
    assert_eq!(lines[5], st("Unit", "syncthing serve"));
    assert!(!lines.contains(&PropLine::Heading("Exec".to_string())));
}

fn proc_info() -> ProcInfo {
    ProcInfo {
        pid: 4242,
        parent: Some(1),
        name: "firefox".to_string(),
        exe: "/usr/lib/firefox/firefox".to_string(),
        cmd: "firefox --new-window".to_string(),
        user: String::new(),
        status: "Sleeping".to_string(),
        mem_bytes: 1_048_576,
        virt_bytes: 2_147_483_648,
        threads: 80,
        cpu_milli: 0,
        disk_read_bps: 0,
        disk_write_bps: 0,
    }
}

#[test]
fn process_sheet_and_exited_process() {
    let procs = vec![proc_info()];
    let view = build_properties_view(&procs[0], Some("/home/u".to_string()), Some(120), vec![]);
    let (title, lines) = process_sheet(&procs, &view, "1.5%", Some(3725)).unwrap();
    assert_eq!(title, "Properties: firefox");
    assert_eq!(
        lines,
        vec![
            st("PID", "4242"),
            st("Parent PID", "1"),
            st("User", "\u{2014}"),
            st("Status", "Sleeping"),
            PropLine::Separator,
            st("CPU", "1.5%"),
            st("Memory (RSS)", "1.0 MB"),
            st("Virtual memory", "2.0 GB"),
            st("Threads", "80"),
            st("Open file descriptors", "120"),
            st("Running for", "1h 2m 5s"),
            PropLine::Separator,
            path("Executable", "/usr/lib/firefox/firefox", OpenTarget::Parent),
            path("Working directory", "/home/u", OpenTarget::Self_),
            PropLine::Heading("Command line".to_string()),
            PropLine::Wrapped("firefox --new-window".to_string()),
        ]
    );
    assert!(process_sheet(&[], &view, "0%", None).is_none());
}

#[test]
fn cpu_and_memory_details() {
    let d = cpu_detail("Ryzen 7", 8, 16, 3600, "12%", 90_061);
    assert_eq!(d.title, "CPU: Ryzen 7");
    assert_eq!(d.subtitle, "8 cores (16 logical) \u{b7} 3600 MHz");
    assert_eq!(d.stats, vec![line("Current", "12%"), line("Uptime", "1d 1h 1m")]);
    assert_eq!(core_label(3), "Core 3");
    let m = memory_detail(8_589_934_592, 4_294_967_296, "50%", 0, 0);
    assert_eq!(m.subtitle, "8.0 GB total");
    assert_eq!(
        m.stats,
        vec![
            line("Used", "4.0 GB (50%)"),
            line("Available", "4.0 GB"),
            sep(),
            line("Swap total", "0 B"),
            line("Swap used", "0 B"),
        ]
    );
    assert_eq!(memory_detail(1, 2, "x", 0, 0).stats[1], line("Available", "0 B"));
    assert_eq!(ram_value(1024, 2048), "1 KB / 2 KB");
}

#[test]
fn disk_and_network_details() {
    let d = DiskInfo {
        name: "/dev/nvme0n1".to_string(),
        fs: "ext4".to_string(),
        partitions: 1,
        total: 1024,
        used: 512,
        mounts: vec!["/".to_string(), "/home".to_string()],
    };
    let r = disk_detail(Some(&d), "1 KB/s", "2 KB/s");
    assert_eq!(r.title, "Disk: nvme0n1");
    assert_eq!(r.subtitle, "ext4 \u{b7} 1 partition");
    assert_eq!(r.stats.len(), 8);
    assert_eq!(r.stats[5], sep());
    assert_eq!(r.stats[7], line("Mount", "/home"));
    assert_eq!(disk_detail(None, "", "").title, "No disk");

    let nets = [NetInfo { name: "wlan0".to_string() }];
    let w = WifiText { quality: "70%".to_string(), level: "-50 dBm".to_string(), link: "49".to_string() };
    let n = network_detail(&nets, 0, "aa:bb", "1 KB/s", "0 B/s", 10, 20, Some(&w));
    assert_eq!(n.title, "Wi-Fi");
    assert_eq!(n.subtitle, "wlan0 \u{b7} MAC aa:bb");
    assert_eq!(n.stats.len(), 9);
    assert_eq!(n.stats[8], line("Link quality", "49"));
    assert_eq!(network_detail(&nets, 3, "", "", "", 0, 0, None).title, "No interface");
    assert_eq!(network_aux_title(true), "Signal quality (last 60s)");
    assert_eq!(network_aux_title(false), "");
}

fn gpu(vendor: &str, util_known: bool) -> GpuText {
    GpuText {
        name: "Arc".to_string(),
        vendor: vendor.to_string(),
        driver: "i915".to_string(),
        util_known,
        util_text: "30%".to_string(),
        mem_used: 1_073_741_824,
        mem_total: 2_147_483_648,
        mem_shared: true,
        mem_pct_text: "50%".to_string(),
        temp_text: None,
        power_text: Some("12.5 W".to_string()),
        clock_mhz: 1500,
        mem_clock_mhz: 0,
    }
}

#[test]
fn gpu_details() {
    let (d, warning) = gpu_detail(Some(&gpu("intel", false)));
    assert_eq!(d.title, "GPU: Arc");
    assert_eq!(d.subtitle, "intel \u{b7} driver i915");
    assert!(warning.starts_with("rproc could not open the Intel"));
    assert_eq!(
        d.stats,
        vec![
            line("Utilization", "N/A"),
            line("Memory (shared)", "1.0 GB / 2.0 GB (50%)"),
            line("Power", "12.5 W"),
            line("Core clock", "1500 MHz"),
        ]
    );
    let (_, warning) = gpu_detail(Some(&gpu("AMD", false)));
    assert!(warning.starts_with("rproc could not read this GPU"));
    let (d, warning) = gpu_detail(Some(&gpu("AMD", true)));
    assert!(warning.is_empty());
    assert_eq!(d.stats[0], line("Utilization", "30%"));
    assert_eq!(gpu_detail(None).0.title, "No GPU");
    assert_eq!(gpu_aux_title(0, true), "");
    assert_eq!(gpu_aux_title(5, true), "Memory, shared (last 60s)");
    assert_eq!(gpu_aux_title(5, false), "VRAM (last 60s)");
}

#[test]
fn battery_details() {
    let b = BatteryText {
        model: "BAT0".to_string(),
        technology: String::new(),
        full: false,
        charging: false,
        ac_online: true,
        status_label: "Not charging".to_string(),
        charge_text: "80%".to_string(),
        power_text: None,
        time_left_secs: Some(3600),
        energy_text: None,
        health_text: None,
        cycle_count: 12,
    };
    let (d, graph) = battery_detail(Some(&b));
    assert_eq!(d.title, "Battery");
    assert_eq!(d.subtitle, "BAT0");
    assert_eq!(graph, "Power (last 60s)");
    assert_eq!(
        d.stats,
        vec![
            line("Charge", "80%"),
            line("Status", "Not charging (AC connected)"),
            line("Time remaining", "1h 0m 0s"),
            sep(),
            line("Cycle count", "12"),
        ]
    );
    let (d, graph) = battery_detail(None);
    assert_eq!((d.title.as_str(), graph), ("No battery", "Usage (last 60s)"));
}

#[test]
fn card_titles() {
    assert_eq!(card_id("gpu", 2), "gpu2");
    assert_eq!(gpu_card_title(0, "NVIDIA"), "GPU 0 (NVIDIA)");
    assert_eq!(disk_card_title("/dev/sda"), "Disk sda");
}
