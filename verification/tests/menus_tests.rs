use rproc::context_menu::{Act, MenuEntry};
use rproc::menus::{
    all_pids, group_menu, main_process, needs_fetch, proc_menu, service_menu, startup_menu,
};
use rproc::processes::grouping::{Group, ProcInfo};
use rproc::services::{ServiceProperties, ServicePropertiesView, ServiceScope};
use rproc::startup::{StartupEntry, StartupSource};

fn proc_info(pid: u32, name: &str, exe: &str, cmd: &str, status: &str) -> ProcInfo {
    ProcInfo {
        pid,
        parent: None,
        name: name.to_string(),
        exe: exe.to_string(),
        cmd: cmd.to_string(),
        user: "u".to_string(),
        status: status.to_string(),
        mem_bytes: 0,
        virt_bytes: 0,
        threads: 1,
        cpu_milli: 0,
        disk_read_bps: 0,
        disk_write_bps: 0,
    }
}

fn group(name: &str, procs: Vec<usize>) -> Group {
    Group { name: name.to_string(), procs, cpu_milli: 0, mem_bytes: 0, disk_bps: 0 }
}

fn labels(entries: &[MenuEntry]) -> Vec<String> {
    entries.iter().map(|e| if e.separator { "--".to_string() } else { e.label.clone() }).collect()
}

fn enabled_of(entries: &[MenuEntry], label: &str) -> bool {
    entries.iter().find(|e| e.label == label).map(|e| e.enabled).unwrap()
}

fn act_of(entries: &[MenuEntry], acts: &[Act], label: &str) -> Act {
    let e = entries.iter().find(|e| e.label == label).unwrap();
    acts[e.action as usize]
}

#[test]
fn process_menu_lists_entries_in_order() {
    let p = proc_info(42, "firefox", "/usr/bin/firefox", "firefox --new", "Run");
    let (entries, acts) = proc_menu(&p, true);
    assert_eq!(
        labels(&entries),
        vec![
            "End task",
            "Force kill",
            "Suspend",
            "--",
            "Open file location",
            "Search online  \u{2197}",
            "--",
            "Copy PID",
            "Copy name",
            "Copy command line",
            "--",
            "Properties",
        ]
    );
    assert_eq!(acts.len(), 9);
    assert_eq!(act_of(&entries, &acts, "Suspend"), Act::SuspendResume);
    assert_eq!(act_of(&entries, &acts, "Properties"), Act::Properties);
    assert!(enabled_of(&entries, "Open file location"));
    assert!(enabled_of(&entries, "Copy command line"));
    assert!(entries.iter().filter(|e| e.separator).all(|e| e.action == -1));
}

#[test]
fn process_menu_offers_resume_for_stopped_process() {
    for status in ["Stop", "Stopped"] {
        let p = proc_info(7, "job", "", "", status);
        let (entries, _) = proc_menu(&p, false);
        assert_eq!(entries[2].label, "Resume");
    }
    let p = proc_info(7, "job", "", "", "Sleep");
    let (entries, _) = proc_menu(&p, false);
    assert_eq!(entries[2].label, "Suspend");
}

#[test]
fn process_menu_disables_missing_exe_and_empty_cmd() {
    let p = proc_info(7, "kworker", "", "", "Idle");
    let (entries, _) = proc_menu(&p, true);
    assert!(!enabled_of(&entries, "Open file location"));
    assert!(!enabled_of(&entries, "Copy command line"));
    let p = proc_info(7, "bash", "/usr/bin/bash", "bash", "Run");
    let (entries, _) = proc_menu(&p, false);
    assert!(!enabled_of(&entries, "Open file location"));
}

#[test]
fn group_main_process_is_lowest_pid_first_on_ties() {
    let procs = vec![
        proc_info(300, "a", "", "", "Run"),
        proc_info(100, "a", "", "", "Run"),
        proc_info(200, "a", "", "", "Run"),
        proc_info(100, "a", "", "", "Run"),
    ];
    assert_eq!(main_process(&group("a", vec![0, 1, 2, 3]), &procs), Some(1));
    assert_eq!(main_process(&group("a", vec![2, 3, 1]), &procs), Some(3));
    assert_eq!(main_process(&group("a", vec![]), &procs), None);
}

#[test]
fn group_menu_counts_and_main_process_entries() {
    let procs = vec![
        proc_info(501, "chrome", "/opt/chrome", "", "Run"),
        proc_info(500, "chrome", "/opt/chrome", "", "Sleep"),
    ];
    let g = group("chrome", vec![0, 1]);
    let (entries, acts) = group_menu(&g, &procs, true);
    assert_eq!(
        labels(&entries),
        vec![
            "End all (2)",
            "Force kill all (2)",
            "Suspend all (2)",
            "--",
            "Open file location",
            "Search online  \u{2197}",
            "--",
            "Copy name",
            "Copy all PIDs",
            "--",
            "Properties (main process)",
        ]
    );
    assert_eq!(act_of(&entries, &acts, "Copy all PIDs"), Act::CopyAllPids);
    assert_eq!(act_of(&entries, &acts, "End all (2)"), Act::EndAll);
    assert!(enabled_of(&entries, "Open file location"));
}

#[test]
fn group_menu_resumes_when_all_stopped_and_drops_main_entries_when_empty() {
    let procs = vec![proc_info(9, "x", "", "", "Stop"), proc_info(10, "x", "", "", "Stopped")];
    let (entries, _) = group_menu(&group("x", vec![0, 1]), &procs, true);
    assert_eq!(entries[2].label, "Resume all (2)");
    assert!(!enabled_of(&entries, "Open file location"));
    let (entries, _) = group_menu(&group("x", vec![]), &procs, true);
    assert_eq!(
        labels(&entries),
        vec![
            "End all (0)",
            "Force kill all (0)",
            "Resume all (0)",
            "--",
            "Search online  \u{2197}",
            "--",
            "Copy name",
            "Copy all PIDs",
        ]
    );
}

#[test]
fn all_pids_joins_with_spaces_in_group_order() {
    let procs = vec![
        proc_info(12, "a", "", "", "Run"),
        proc_info(3, "a", "", "", "Run"),
        proc_info(4567, "a", "", "", "Run"),
    ];
    assert_eq!(all_pids(&group("a", vec![2, 0, 1]), &procs), "4567 12 3");
    assert_eq!(all_pids(&group("a", vec![1]), &procs), "3");
    assert_eq!(all_pids(&group("a", vec![]), &procs), "");
}

#[test]
fn service_menu_entries() {
    let (entries, acts) = service_menu();
    assert_eq!(
        labels(&entries),
        vec!["Start", "Stop", "Restart", "--", "Copy unit name", "--", "Properties"]
    );
    assert_eq!(acts, vec![Act::SvcStart, Act::SvcStop, Act::SvcRestart, Act::CopyUnit, Act::Properties]);
}

fn startup_entry(source: StartupSource) -> StartupEntry {
    StartupEntry {
        name: "Syncthing".to_string(),
        path: "/home/u/.config/autostart/syncthing.desktop".to_string(),
        source,
        comment: String::new(),
        command: "syncthing".to_string(),
        icon: String::new(),
        boot_time_ms: None,
        enabled: true,
        critical: false,
    }
}

#[test]
fn startup_menu_opens_desktop_file_only_for_autostart_entries() {
    let (entries, _) = startup_menu(&startup_entry(StartupSource::UserAutostart));
    assert_eq!(labels(&entries), vec!["Copy name", "Open .desktop file", "--", "Properties"]);
    let (entries, _) = startup_menu(&startup_entry(StartupSource::SystemAutostart));
    assert_eq!(labels(&entries), vec!["Copy name", "Open .desktop file", "--", "Properties"]);
    let (entries, acts) = startup_menu(&startup_entry(StartupSource::SystemdUser));
    assert_eq!(labels(&entries), vec!["Copy name", "--", "Properties"]);
    assert_eq!(acts, vec![Act::CopyName, Act::Properties]);
}

fn empty_props() -> ServiceProperties {
    ServiceProperties {
        description: String::new(),
        load_state: String::new(),
        active_state: String::new(),
        sub_state: String::new(),
        unit_file_state: String::new(),
        main_pid: String::new(),
        user: String::new(),
        memory_current: String::new(),
        tasks_current: String::new(),
        fragment_path: String::new(),
        drop_in_paths: Vec::new(),
        working_directory: String::new(),
        exec_start: String::new(),
    }
}

#[test]
fn properties_refetch_only_for_another_unit() {
    let v = ServicePropertiesView::fetch("sshd.service".to_string(), ServiceScope::System, empty_props());
    assert!(needs_fetch(None, "sshd.service", ServiceScope::System));
    assert!(!needs_fetch(Some(&v), "sshd.service", ServiceScope::System));
    assert!(needs_fetch(Some(&v), "sshd.service", ServiceScope::User));
    assert!(needs_fetch(Some(&v), "cups.service", ServiceScope::System));
}
