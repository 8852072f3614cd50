use rproc::icons::Resolver;
use rproc::icons::Response;
use rproc::processes::grouping::{build_groups, sort_children, sort_groups, Group, ProcInfo};
use rproc::processes::rows::{
    app_flags, append_section, filter_mask, normalize_filter, partition_by, row_ref, row_refs,
    ExpandedSet, Row, RowRef, Selection,
};
use rproc::processes::sort::SortKey;
use rproc::processes::properties::build_properties_view;

fn make_proc(
    pid: u32,
    name: &str,
    cpu_pct: f32,
    mem_bytes: u64,
    disk: f64,
    user: &str,
    status: &str,
) -> ProcInfo {
    ProcInfo {
        pid,
        parent: None,
        name: name.to_string(),
        exe: String::new(),
        cmd: String::new(),
        user: user.to_string(),
        status: status.to_string(),
        mem_bytes,
        virt_bytes: 0,
        threads: 1,
        cpu_milli: (cpu_pct as f64 * 1000.0).round() as u64,
        disk_read_bps: (disk / 2.0) as u64,
        disk_write_bps: (disk / 2.0) as u64,
    }
}

fn all(procs: &[ProcInfo]) -> Vec<bool> {
    vec![true; procs.len()]
}

#[test]
fn processes_build_groups_aggregates_processes_with_same_name() {
    let procs = vec![
        make_proc(1, "chrome", 1.0, 100, 10.0, "alice", "Running"),
        make_proc(2, "chrome", 2.0, 200, 20.0, "alice", "Running"),
        make_proc(3, "firefox", 5.0, 500, 30.0, "alice", "Running"),
    ];
    let groups = build_groups(&procs, &all(&procs));
    assert_eq!(groups.len(), 2);

    let chrome = groups.iter().find(|g| g.name == "chrome").unwrap();
    assert_eq!(chrome.procs.len(), 2);
    assert_eq!(chrome.cpu_milli, 3000);
    assert_eq!(chrome.mem_bytes, 300);
    assert_eq!(chrome.disk_bps, 30);

    let firefox = groups.iter().find(|g| g.name == "firefox").unwrap();
    assert_eq!(firefox.procs.len(), 1);
}

#[test]
fn processes_build_groups_respects_filter_predicate() {
    let procs = vec![
        make_proc(1, "chrome", 1.0, 100, 0.0, "alice", "Running"),
        make_proc(2, "firefox", 2.0, 200, 0.0, "alice", "Running"),
        make_proc(3, "vim", 3.0, 50, 0.0, "alice", "Running"),
    ];
    let keep: Vec<bool> = procs.iter().map(|p| p.name.starts_with('f')).collect();
    let groups = build_groups(&procs, &keep);
    assert_eq!(groups.len(), 1);
    assert_eq!(groups[0].name, "firefox");
}

#[test]
fn processes_build_groups_returns_groups_alphabetically() {
    let procs = vec![
        make_proc(1, "zsh", 1.0, 0, 0.0, "u", "Running"),
        make_proc(2, "alpha", 1.0, 0, 0.0, "u", "Running"),
        make_proc(3, "mid", 1.0, 0, 0.0, "u", "Running"),
    ];
    let groups = build_groups(&procs, &all(&procs));
    let names: Vec<&str> = groups.iter().map(|g| g.name.as_str()).collect();
    assert_eq!(names, vec!["alpha", "mid", "zsh"]);
}

#[test]
fn processes_build_groups_empty_input_yields_empty() {
    let procs: Vec<ProcInfo> = vec![];
    let groups = build_groups(&procs, &all(&procs));
    assert!(groups.is_empty());
}

#[test]
fn processes_sort_groups_cpu_descending_largest_first() {
    let procs = vec![
        make_proc(1, "low", 1.0, 0, 0.0, "u", "Running"),
        make_proc(2, "high", 50.0, 0, 0.0, "u", "Running"),
        make_proc(3, "mid", 10.0, 0, 0.0, "u", "Running"),
    ];
    let mut groups = build_groups(&procs, &all(&procs));
    sort_groups(&mut groups, &procs, SortKey::Cpu, true);
    let names: Vec<&str> = groups.iter().map(|g| g.name.as_str()).collect();
    assert_eq!(names, vec!["high", "mid", "low"]);
}

#[test]
fn processes_sort_groups_mem_ascending_smallest_first() {
    let procs = vec![
        make_proc(1, "big", 0.0, 1000, 0.0, "u", "Running"),
        make_proc(2, "small", 0.0, 10, 0.0, "u", "Running"),
        make_proc(3, "mid", 0.0, 100, 0.0, "u", "Running"),
    ];
    let mut groups = build_groups(&procs, &all(&procs));
    sort_groups(&mut groups, &procs, SortKey::Mem, false);
    let names: Vec<&str> = groups.iter().map(|g| g.name.as_str()).collect();
    assert_eq!(names, vec!["small", "mid", "big"]);
}

#[test]
fn processes_sort_groups_pid_uses_minimum_pid() {
    let procs = vec![
        make_proc(50, "a", 0.0, 0, 0.0, "u", "Running"),
        make_proc(10, "a", 0.0, 0, 0.0, "u", "Running"),
        make_proc(30, "b", 0.0, 0, 0.0, "u", "Running"),
    ];
    let mut groups = build_groups(&procs, &all(&procs));
    sort_groups(&mut groups, &procs, SortKey::Pid, false);
    let names: Vec<&str> = groups.iter().map(|g| g.name.as_str()).collect();
    assert_eq!(names, vec!["a", "b"]);
}

#[test]
fn processes_sort_children_pid_ascending() {
    let procs = [
        make_proc(3, "x", 0.0, 0, 0.0, "u", "Running"),
        make_proc(1, "x", 0.0, 0, 0.0, "u", "Running"),
        make_proc(2, "x", 0.0, 0, 0.0, "u", "Running"),
    ];
    let mut refs: Vec<usize> = (0..procs.len()).collect();
    sort_children(&mut refs, &procs, SortKey::Pid, false);
    let pids: Vec<u32> = refs.iter().map(|&i| procs[i].pid).collect();
    assert_eq!(pids, vec![1, 2, 3]);
}

#[test]
fn grouping_tests_build_groups_aggregates_processes_with_same_name() {
    let procs = vec![
        make_proc(1, "chrome", 1.0, 100, 10.0, "alice", "Running"),
        make_proc(2, "chrome", 2.0, 200, 20.0, "alice", "Running"),
        make_proc(3, "firefox", 5.0, 500, 30.0, "alice", "Running"),
    ];
    let groups = build_groups(&procs, &all(&procs));
    assert_eq!(groups.len(), 2);

    let chrome = groups.iter().find(|g| g.name == "chrome").unwrap();
    assert_eq!(chrome.procs.len(), 2);
    assert_eq!(chrome.cpu_milli, 3000);
    assert_eq!(chrome.mem_bytes, 300);
    assert_eq!(chrome.disk_bps, 30);

    let firefox = groups.iter().find(|g| g.name == "firefox").unwrap();
    assert_eq!(firefox.procs.len(), 1);
}

#[test]
fn grouping_tests_build_groups_respects_filter_predicate() {
    let procs = vec![
        make_proc(1, "chrome", 1.0, 100, 0.0, "alice", "Running"),
        make_proc(2, "firefox", 2.0, 200, 0.0, "alice", "Running"),
        make_proc(3, "vim", 3.0, 50, 0.0, "alice", "Running"),
    ];
    let keep: Vec<bool> = procs.iter().map(|p| p.name.starts_with('f')).collect();
    let groups = build_groups(&procs, &keep);
    assert_eq!(groups.len(), 1);
    assert_eq!(groups[0].name, "firefox");
}

#[test]
fn grouping_tests_build_groups_returns_groups_alphabetically() {
    let procs = vec![
        make_proc(1, "zsh", 1.0, 0, 0.0, "u", "Running"),
        make_proc(2, "alpha", 1.0, 0, 0.0, "u", "Running"),
        make_proc(3, "mid", 1.0, 0, 0.0, "u", "Running"),
    ];
    let groups = build_groups(&procs, &all(&procs));
    let names: Vec<&str> = groups.iter().map(|g| g.name.as_str()).collect();
    assert_eq!(names, vec!["alpha", "mid", "zsh"]);
}

#[test]
fn grouping_tests_build_groups_empty_input_yields_empty() {
    let procs: Vec<ProcInfo> = vec![];
    let groups = build_groups(&procs, &all(&procs));
    assert!(groups.is_empty());
}

#[test]
fn grouping_tests_sort_groups_cpu_descending_largest_first() {
    let procs = vec![
        make_proc(1, "low", 1.0, 0, 0.0, "u", "Running"),
        make_proc(2, "high", 50.0, 0, 0.0, "u", "Running"),
        make_proc(3, "mid", 10.0, 0, 0.0, "u", "Running"),
    ];
    let mut groups = build_groups(&procs, &all(&procs));
    sort_groups(&mut groups, &procs, SortKey::Cpu, true);
    let names: Vec<&str> = groups.iter().map(|g| g.name.as_str()).collect();
    assert_eq!(names, vec!["high", "mid", "low"]);
}

#[test]
fn grouping_tests_sort_groups_mem_ascending_smallest_first() {
    let procs = vec![
        make_proc(1, "big", 0.0, 1000, 0.0, "u", "Running"),
        make_proc(2, "small", 0.0, 10, 0.0, "u", "Running"),
        make_proc(3, "mid", 0.0, 100, 0.0, "u", "Running"),
    ];
    let mut groups = build_groups(&procs, &all(&procs));
    sort_groups(&mut groups, &procs, SortKey::Mem, false);
    let names: Vec<&str> = groups.iter().map(|g| g.name.as_str()).collect();
    assert_eq!(names, vec!["small", "mid", "big"]);
}

#[test]
fn grouping_tests_sort_groups_pid_uses_minimum_pid() {
    let procs = vec![
        make_proc(50, "a", 0.0, 0, 0.0, "u", "Running"),
        make_proc(10, "a", 0.0, 0, 0.0, "u", "Running"),
        make_proc(30, "b", 0.0, 0, 0.0, "u", "Running"),
    ];
    let mut groups = build_groups(&procs, &all(&procs));
    sort_groups(&mut groups, &procs, SortKey::Pid, false);
    let names: Vec<&str> = groups.iter().map(|g| g.name.as_str()).collect();
    assert_eq!(names, vec!["a", "b"]);
}

#[test]
fn grouping_tests_sort_children_pid_ascending() {
    let procs = [
        make_proc(3, "x", 0.0, 0, 0.0, "u", "Running"),
        make_proc(1, "x", 0.0, 0, 0.0, "u", "Running"),
        make_proc(2, "x", 0.0, 0, 0.0, "u", "Running"),
    ];
    let mut refs: Vec<usize> = (0..procs.len()).collect();
    sort_children(&mut refs, &procs, SortKey::Pid, false);
    let pids: Vec<u32> = refs.iter().map(|&i| procs[i].pid).collect();
    assert_eq!(pids, vec![1, 2, 3]);
}

#[test]
fn processes_tests_build_groups_aggregates_processes_with_same_name() {
    let procs = vec![
        make_proc(1, "chrome", 1.0, 100, 10.0, "alice", "Running"),
        make_proc(2, "chrome", 2.0, 200, 20.0, "alice", "Running"),
        make_proc(3, "firefox", 5.0, 500, 30.0, "alice", "Running"),
    ];
    let groups = build_groups(&procs, &all(&procs));
    assert_eq!(groups.len(), 2);

    let chrome = groups.iter().find(|g| g.name == "chrome").unwrap();
    assert_eq!(chrome.procs.len(), 2);
    assert_eq!(chrome.cpu_milli, 3000);
    assert_eq!(chrome.mem_bytes, 300);
    assert_eq!(chrome.disk_bps, 30);

    let firefox = groups.iter().find(|g| g.name == "firefox").unwrap();
    assert_eq!(firefox.procs.len(), 1);
}

#[test]
fn processes_tests_build_groups_respects_filter_predicate() {
    let procs = vec![
        make_proc(1, "chrome", 1.0, 100, 0.0, "alice", "Running"),
        make_proc(2, "firefox", 2.0, 200, 0.0, "alice", "Running"),
        make_proc(3, "vim", 3.0, 50, 0.0, "alice", "Running"),
    ];
    let keep: Vec<bool> = procs.iter().map(|p| p.name.starts_with('f')).collect();
    let groups = build_groups(&procs, &keep);
    assert_eq!(groups.len(), 1);
    assert_eq!(groups[0].name, "firefox");
}

#[test]
fn processes_tests_build_groups_returns_groups_alphabetically() {
    let procs = vec![
        make_proc(1, "zsh", 1.0, 0, 0.0, "u", "Running"),
        make_proc(2, "alpha", 1.0, 0, 0.0, "u", "Running"),
        make_proc(3, "mid", 1.0, 0, 0.0, "u", "Running"),
    ];
    let groups = build_groups(&procs, &all(&procs));
    let names: Vec<&str> = groups.iter().map(|g| g.name.as_str()).collect();
    assert_eq!(names, vec!["alpha", "mid", "zsh"]);
}

#[test]
fn processes_tests_build_groups_empty_input_yields_empty() {
    let procs: Vec<ProcInfo> = vec![];
    let groups = build_groups(&procs, &all(&procs));
    assert!(groups.is_empty());
}

#[test]
fn processes_tests_sort_groups_cpu_descending_largest_first() {
    let procs = vec![
        make_proc(1, "low", 1.0, 0, 0.0, "u", "Running"),
        make_proc(2, "high", 50.0, 0, 0.0, "u", "Running"),
        make_proc(3, "mid", 10.0, 0, 0.0, "u", "Running"),
    ];
    let mut groups = build_groups(&procs, &all(&procs));
    sort_groups(&mut groups, &procs, SortKey::Cpu, true);
    let names: Vec<&str> = groups.iter().map(|g| g.name.as_str()).collect();
    assert_eq!(names, vec!["high", "mid", "low"]);
}

#[test]
fn processes_tests_sort_groups_mem_ascending_smallest_first() {
    let procs = vec![
        make_proc(1, "big", 0.0, 1000, 0.0, "u", "Running"),
        make_proc(2, "small", 0.0, 10, 0.0, "u", "Running"),
        make_proc(3, "mid", 0.0, 100, 0.0, "u", "Running"),
    ];
    let mut groups = build_groups(&procs, &all(&procs));
    sort_groups(&mut groups, &procs, SortKey::Mem, false);
    let names: Vec<&str> = groups.iter().map(|g| g.name.as_str()).collect();
    assert_eq!(names, vec!["small", "mid", "big"]);
}

#[test]
fn processes_tests_sort_groups_pid_uses_minimum_pid() {
    let procs = vec![
        make_proc(50, "a", 0.0, 0, 0.0, "u", "Running"),
        make_proc(10, "a", 0.0, 0, 0.0, "u", "Running"),
        make_proc(30, "b", 0.0, 0, 0.0, "u", "Running"),
    ];
    let mut groups = build_groups(&procs, &all(&procs));
    sort_groups(&mut groups, &procs, SortKey::Pid, false);
    let names: Vec<&str> = groups.iter().map(|g| g.name.as_str()).collect();
    assert_eq!(names, vec!["a", "b"]);
}

#[test]
fn processes_tests_sort_children_pid_ascending() {
    let procs = [
        make_proc(3, "x", 0.0, 0, 0.0, "u", "Running"),
        make_proc(1, "x", 0.0, 0, 0.0, "u", "Running"),
        make_proc(2, "x", 0.0, 0, 0.0, "u", "Running"),
    ];
    let mut refs: Vec<usize> = (0..procs.len()).collect();
    sort_children(&mut refs, &procs, SortKey::Pid, false);
    let pids: Vec<u32> = refs.iter().map(|&i| procs[i].pid).collect();
    assert_eq!(pids, vec![1, 2, 3]);
}

#[test]
fn sort_groups_is_stable_and_reversible_by_direction() {
    let procs = vec![
        make_proc(1, "b", 0.0, 5, 0.0, "u", "Running"),
        make_proc(2, "a", 0.0, 5, 0.0, "u", "Running"),
        make_proc(3, "c", 0.0, 1, 0.0, "u", "Running"),
    ];
    let mut groups = build_groups(&procs, &all(&procs));
    sort_groups(&mut groups, &procs, SortKey::Mem, true);
    let names: Vec<&str> = groups.iter().map(|g| g.name.as_str()).collect();
    // Equal memory keeps the name order "a" before "b".
    assert_eq!(names, vec!["a", "b", "c"]);
}

#[test]
fn sort_groups_by_name_ignores_case() {
    let procs = vec![
        make_proc(1, "Zed", 0.0, 0, 0.0, "u", "Running"),
        make_proc(2, "alpha", 0.0, 0, 0.0, "u", "Running"),
        make_proc(3, "Beta", 0.0, 0, 0.0, "u", "Running"),
    ];
    let mut groups = build_groups(&procs, &all(&procs));
    sort_groups(&mut groups, &procs, SortKey::Name, false);
    let names: Vec<&str> = groups.iter().map(|g| g.name.as_str()).collect();
    assert_eq!(names, vec!["alpha", "Beta", "Zed"]);
}

#[test]
fn sort_children_by_status_and_user() {
    let procs = [
        make_proc(1, "x", 0.0, 0, 0.0, "carol", "Sleeping"),
        make_proc(2, "x", 0.0, 0, 0.0, "alice", "Running"),
        make_proc(3, "x", 0.0, 0, 0.0, "bob", "Zombie"),
    ];
    let mut refs: Vec<usize> = vec![0, 1, 2];
    sort_children(&mut refs, &procs, SortKey::User, false);
    assert_eq!(refs, vec![1, 2, 0]);
    sort_children(&mut refs, &procs, SortKey::Status, true);
    assert_eq!(refs, vec![2, 0, 1]);
}

#[test]
fn filter_mask_matches_name_or_pid() {
    let procs = vec![
        make_proc(1234, "Firefox", 0.0, 0, 0.0, "u", "Running"),
        make_proc(77, "bash", 0.0, 0, 0.0, "u", "Running"),
    ];
    let f = normalize_filter("  FIRE ");
    assert_eq!(f, "fire");
    assert_eq!(filter_mask(&procs, &f), vec![true, false]);
    assert_eq!(filter_mask(&procs, "23"), vec![true, false]);
    assert_eq!(filter_mask(&procs, ""), vec![true, true]);
}

#[test]
fn sections_rows_and_refs() {
    let procs = vec![
        make_proc(1, "chrome", 0.0, 0, 0.0, "u", "Running"),
        make_proc(2, "chrome", 0.0, 0, 0.0, "u", "Running"),
        make_proc(3, "sshd", 0.0, 0, 0.0, "u", "Running"),
    ];
    let groups = build_groups(&procs, &all(&procs));
    let mut icons = Resolver::new(0);
    icons.pump(vec![Response::IndexReady(vec!["chrome".to_string()])]);
    let flags = app_flags(&groups, &procs, &icons);
    assert_eq!(flags, vec![true, false]);
    let (apps, services): (Vec<Group>, Vec<Group>) = partition_by(groups, &flags);
    let mut expanded = ExpandedSet::new();
    let mut rows: Vec<Row> = Vec::new();
    append_section(&mut rows, "Apps", &apps, &procs, false, &expanded);
    append_section(&mut rows, "Background processes", &services, &procs, false, &expanded);
    assert_eq!(rows.len(), 4);
    let refs = row_refs(&rows);
    assert!(matches!(refs[0], RowRef::Section));
    assert!(matches!(&refs[1], RowRef::Group(n) if n == "chrome"));
    assert!(matches!(refs[2], RowRef::Section));
    assert!(matches!(refs[3], RowRef::Proc(3)));

    expanded.toggle("chrome");
    assert!(expanded.contains("chrome"));
    let mut rows2: Vec<Row> = Vec::new();
    append_section(&mut rows2, "Apps", &apps, &procs, false, &expanded);
    assert_eq!(rows2.len(), 4);
    assert!(matches!(rows2[2], Row::Child(p) if p.pid == 1));
    expanded.toggle("chrome");
    assert!(!expanded.contains("chrome"));

    let mut rows3: Vec<Row> = Vec::new();
    append_section(&mut rows3, "Apps", &[], &procs, false, &expanded);
    assert!(rows3.is_empty());
}

#[test]
fn selection_follows_clicks_and_prunes() {
    let procs = vec![
        make_proc(10, "vim", 0.0, 0, 0.0, "u", "Stopped"),
        make_proc(11, "vim", 0.0, 0, 0.0, "u", "Running"),
    ];
    let refs = vec![RowRef::Section, RowRef::Group("vim".to_string()), RowRef::Proc(10)];
    let mut sel = Selection::new();
    sel.row_clicked(&refs, 0);
    assert_eq!((sel.pid, sel.group.clone()), (None, None));
    sel.row_clicked(&refs, 1);
    assert_eq!((sel.pid, sel.group.clone()), (None, Some("vim".to_string())));
    assert_eq!(sel.selected_count(&procs), 2);
    sel.row_clicked(&refs, 2);
    assert_eq!((sel.pid, sel.group.clone()), (Some(10), None));
    assert_eq!(sel.suspend_label(&procs), "Resume");
    sel.row_clicked(&refs, 99);
    assert_eq!(sel.pid, Some(10));
    assert!(row_ref(&refs, 99).is_none());
    sel.prune(&procs[1..]);
    assert_eq!(sel.pid, None);
    assert_eq!(sel.suspend_label(&procs), "Suspend");
}

#[test]
fn properties_view_keeps_the_lookups() {
    let p = make_proc(42, "x", 0.0, 0, 0.0, "u", "Running");
    let v = build_properties_view(&p, Some("/tmp".to_string()), Some(7), vec!["/etc/x".to_string()]);
    assert_eq!(v.pid, 42);
    assert_eq!(v.cwd.as_deref(), Some("/tmp"));
    assert_eq!(v.fd_count, Some(7));
    assert_eq!(v.configs, vec!["/etc/x".to_string()]);
}
