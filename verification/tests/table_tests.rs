use rproc::processes::grouping::{sort_section, Group, ProcInfo};
use rproc::icons::{Resolver, Response};
use rproc::processes::rows::{ExpandedSet, Row, RowRef, SortChoice};
use rproc::processes::sections::{build_sections, visible_rows};
use rproc::startup::text_filter;
use rproc::processes::sort::SortKey;
use rproc::processes::table::{process_count_label, row_text, status_tone};
use rproc::services::Tone;

fn proc_info(pid: u32, name: &str, status: &str) -> ProcInfo {
    ProcInfo {
        pid,
        parent: None,
        name: name.to_string(),
        exe: String::new(),
        cmd: String::new(),
        user: "alice".to_string(),
        status: status.to_string(),
        mem_bytes: 2048,
        virt_bytes: 0,
        threads: 1,
        cpu_milli: 0,
        disk_read_bps: 0,
        disk_write_bps: 0,
    }
}

#[test]
fn status_tones() {
    assert_eq!(status_tone("Run"), Tone::Good);
    assert_eq!(status_tone("Running"), Tone::Good);
    assert_eq!(status_tone("Sleep"), Tone::Dim);
    assert_eq!(status_tone("Sleeping"), Tone::Dim);
    assert_eq!(status_tone("Idle"), Tone::Dim);
    assert_eq!(status_tone("Waiting"), Tone::Warn);
    assert_eq!(status_tone("Stop"), Tone::Warn);
    assert_eq!(status_tone("Stopped"), Tone::Warn);
    assert_eq!(status_tone("Zombie"), Tone::Bad);
    assert_eq!(status_tone("Dead"), Tone::Bad);
    assert_eq!(status_tone("Parked"), Tone::Normal);
    assert_eq!(status_tone("run"), Tone::Normal);
}

#[test]
fn section_header_is_capitalised() {
    let t = row_text(&Row::SectionHeader("Background processes"), None, None);
    assert_eq!(t.kind, 0);
    assert_eq!(t.label, "BACKGROUND PROCESSES");
    assert!(!t.selected && !t.expanded && !t.indent);
    assert_eq!(t.tone, Tone::Normal);
}

#[test]
fn group_header_text() {
    let g = Group { name: "chrome".to_string(), procs: vec![0, 1, 2], cpu_milli: 0, mem_bytes: 1536, disk_bps: 0 };
    let t = row_text(&Row::GroupHeader { g: &g, expanded: true }, Some(5), Some("chrome"));
    assert_eq!(t.kind, 1);
    assert_eq!(t.label, "chrome");
    assert_eq!(t.group_key, "chrome");
    assert_eq!(t.count, 3);
    assert_eq!(t.mem, "2 KB");
    assert!(t.expanded && t.selected);
    assert_eq!(t.pid_text, "");
    let t = row_text(&Row::GroupHeader { g: &g, expanded: false }, None, Some("chromium"));
    assert!(!t.selected && !t.expanded);
}

#[test]
fn process_rows_text() {
    let p = proc_info(4242, "bash", "Sleep");
    let t = row_text(&Row::Single(&p), Some(4242), None);
    assert_eq!(t.kind, 2);
    assert_eq!(t.label, "bash");
    assert_eq!(t.pid, 4242);
    assert_eq!(t.pid_text, "4242");
    assert_eq!(t.user, "alice");
    assert_eq!(t.mem, "2 KB");
    assert_eq!(t.status, "Sleep");
    assert_eq!(t.tone, Tone::Dim);
    assert!(t.selected && !t.indent);
    let t = row_text(&Row::Child(&p), Some(1), Some("bash"));
    assert_eq!(t.kind, 3);
    assert!(t.indent && !t.selected);
    assert_eq!(t.group_key, "");
}

#[test]
fn count_label() {
    assert_eq!(process_count_label(312), "312 processes");
    assert_eq!(process_count_label(0), "0 processes");
}

#[test]
fn sort_header_caret() {
    let mut c = SortChoice::new(None);
    assert_eq!(c.header(SortKey::Cpu), (true, false));
    assert_eq!(c.header(SortKey::Name), (false, false));
    c.toggle_sort(0);
    assert_eq!(c.header(SortKey::Name), (true, true));
    c.toggle_sort(0);
    assert_eq!(c.header(SortKey::Name), (true, false));
}

#[test]
fn processes_status_color_known_states_distinct_from_default() {
    // Every known status maps to a colour other than the plain text one;
    // an unknown status stays plain.
    let default = Tone::Normal;
    assert_ne!(status_tone("Running"), default);
    assert_ne!(status_tone("Idle"), default);
    assert_ne!(status_tone("Stopped"), default);
    assert_ne!(status_tone("Zombie"), default);
    assert_eq!(status_tone("XyzUnknown"), default);
}

#[test]
fn processes_tests_status_color_known_states_distinct_from_default() {
    let default = Tone::Normal;
    assert_ne!(status_tone("Running"), default);
    assert_ne!(status_tone("Idle"), default);
    assert_ne!(status_tone("Stopped"), default);
    assert_ne!(status_tone("Zombie"), default);
    assert_eq!(status_tone("XyzUnknown"), default);
}

#[test]
fn sort_section_orders_groups_then_children() {
    let mut procs = vec![
        proc_info(30, "b", "Run"),
        proc_info(10, "b", "Run"),
        proc_info(20, "a", "Run"),
        proc_info(5, "a", "Run"),
    ];
    procs[0].mem_bytes = 100;
    procs[1].mem_bytes = 300;
    procs[2].mem_bytes = 50;
    procs[3].mem_bytes = 60;
    let mut groups = vec![
        Group { name: "a".to_string(), procs: vec![2, 3], cpu_milli: 0, mem_bytes: 110, disk_bps: 0 },
        Group { name: "b".to_string(), procs: vec![0, 1], cpu_milli: 0, mem_bytes: 400, disk_bps: 0 },
    ];
    // Memory, largest first: "b" before "a"; inside each, largest first.
    sort_section(&mut groups, &procs, SortKey::Mem, true);
    assert_eq!(groups[0].name, "b");
    assert_eq!(groups[0].procs, vec![1, 0]);
    assert_eq!(groups[1].name, "a");
    assert_eq!(groups[1].procs, vec![3, 2]);
    // PID, smallest first: "a" (lowest PID 5) before "b" (10).
    sort_section(&mut groups, &procs, SortKey::Pid, false);
    assert_eq!(groups[0].name, "a");
    assert_eq!(groups[0].procs, vec![3, 2]);
    assert_eq!(groups[1].procs, vec![1, 0]);
}

#[test]
fn sections_split_apps_from_background_in_table_order() {
    let mut procs = vec![
        proc_info(300, "chrome", "Run"),
        proc_info(5, "kworker", "Idle"),
        proc_info(100, "chrome", "Run"),
        proc_info(7, "bash", "Sleep"),
    ];
    procs[0].mem_bytes = 10;
    procs[2].mem_bytes = 30;
    let mut icons = Resolver::new(0);
    icons.pump(vec![Response::IndexReady(vec!["chrome".to_string()])]);
    let sort = SortChoice::new(Some((SortKey::Pid, false)));
    let s = build_sections(&procs, "  ", &sort, &icons).unwrap();
    assert!(!s.filter_active);
    assert_eq!(s.apps.len(), 1);
    assert_eq!(s.apps[0].name, "chrome");
    assert_eq!(s.apps[0].procs, vec![2, 0]);
    assert_eq!(s.apps[0].mem_bytes, 40);
    let names: Vec<&str> = s.background.iter().map(|g| g.name.as_str()).collect();
    assert_eq!(names, vec!["kworker", "bash"]);

    let filtered = build_sections(&procs, " BASH ", &sort, &icons).unwrap();
    assert!(filtered.filter_active);
    assert!(filtered.apps.is_empty());
    assert_eq!(filtered.background.len(), 1);

    // Each group's total must fit; totals of different groups are not added.
    let mut big = vec![proc_info(1, "a", "Run"), proc_info(2, "b", "Run"), proc_info(3, "a", "Run")];
    big[0].mem_bytes = u64::MAX;
    big[1].mem_bytes = 1;
    big[2].mem_bytes = 0;
    assert!(build_sections(&big, "", &sort, &icons).is_some());
    big[2].mem_bytes = 1;
    assert!(build_sections(&big, "", &sort, &icons).is_none());
    assert!(build_sections(&big, "b", &sort, &icons).is_some());
}

#[test]
fn visible_rows_list_both_sections_with_titles() {
    let procs = vec![proc_info(1, "chrome", "Run"), proc_info(2, "chrome", "Run"), proc_info(3, "bash", "Run")];
    let mut icons = Resolver::new(0);
    icons.pump(vec![Response::IndexReady(vec!["chrome".to_string()])]);
    let sort = SortChoice::new(Some((SortKey::Name, false)));
    let s = build_sections(&procs, "", &sort, &icons).unwrap();
    let mut expanded = ExpandedSet::new();
    let (rows, refs) = visible_rows(&s.apps, &s.background, &procs, s.filter_active, &expanded);
    assert_eq!(rows.len(), 4);
    assert!(matches!(rows[0], Row::SectionHeader("Apps")));
    assert!(matches!(rows[1], Row::GroupHeader { expanded: false, .. }));
    assert!(matches!(rows[2], Row::SectionHeader("Background processes")));
    assert!(matches!(rows[3], Row::Single(p) if p.pid == 3));
    assert!(matches!(refs[3], RowRef::Proc(3)));
    expanded.toggle("chrome");
    let (rows, _) = visible_rows(&s.apps, &s.background, &procs, s.filter_active, &expanded);
    assert_eq!(rows.len(), 6);
    assert!(matches!(rows[2], Row::Child(p) if p.pid == 1));
}

#[test]
fn startup_text_filter_is_trimmed_and_lowered_unless_timed() {
    assert_eq!(text_filter("  Sync Thing ", false), "sync thing");
    assert_eq!(text_filter(">2s", true), "");
}
