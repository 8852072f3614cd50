use rproc::services::{ServiceProperties, ServiceScope};
use rproc::startup::{
    apply_toggle, build_properties_view, entry_name, format_boot_time, scope_badge,
    split_time_filter, startup_rows, systemd_unit, text_filter_passes, to_row, Op, StartupEntry,
    StartupSource,
};

fn empty_props() -> ServiceProperties {
    ServiceProperties {
        description: String::new(),
        load_state: String::new(),
        active_state: String::new(),
        sub_state: String::new(),
        unit_file_state: String::new(),
        main_pid: String::new(),
        user: String::new(),
        memory_current: String::new(),
        tasks_current: String::new(),
        fragment_path: String::new(),
        drop_in_paths: vec![],
        working_directory: String::new(),
        exec_start: String::new(),
    }
}

fn entry(name: &str, path: &str, source: StartupSource, command: &str, critical: bool) -> StartupEntry {
    StartupEntry {
        name: name.to_string(),
        path: path.to_string(),
        source,
        comment: "c".to_string(),
        command: command.to_string(),
        icon: String::new(),
        boot_time_ms: Some(1500),
        enabled: true,
        critical,
    }
}

#[test]
fn startup_format_boot_time_none_dash() {
    assert_eq!(format_boot_time(None), "—");
}

#[test]
fn startup_format_boot_time_unit_boundaries() {
    assert_eq!(format_boot_time(Some(0)), "<1 ms");
    assert_eq!(format_boot_time(Some(1)), "1 ms");
    assert_eq!(format_boot_time(Some(999)), "999 ms");
    assert_eq!(format_boot_time(Some(1_000)), "1.00 s");
    assert_eq!(format_boot_time(Some(12_345)), "12.35 s");
    assert_eq!(format_boot_time(Some(59_999)), "60.00 s");
    assert_eq!(format_boot_time(Some(60_000)), "1m 0s");
    assert_eq!(format_boot_time(Some(125_000)), "2m 5s");
}

#[test]
fn filter_tests_format_boot_time_none_dash() {
    assert_eq!(format_boot_time(None), "—");
}

#[test]
fn filter_tests_format_boot_time_unit_boundaries() {
    assert_eq!(format_boot_time(Some(0)), "<1 ms");
    assert_eq!(format_boot_time(Some(1)), "1 ms");
    assert_eq!(format_boot_time(Some(999)), "999 ms");
    assert_eq!(format_boot_time(Some(1_000)), "1.00 s");
    assert_eq!(format_boot_time(Some(12_345)), "12.35 s");
    assert_eq!(format_boot_time(Some(59_999)), "60.00 s");
    assert_eq!(format_boot_time(Some(60_000)), "1m 0s");
    assert_eq!(format_boot_time(Some(125_000)), "2m 5s");
}

#[test]
fn format_boot_time_matches_float_formatting() {
    for ms in (1000u64..60_000).step_by(7) {
        assert_eq!(
            format_boot_time(Some(ms)),
            format!("{:.2} s", ms as f64 / 1_000.0),
            "ms={ms}"
        );
    }
}

#[test]
fn split_time_filter_reads_operators() {
    let parts = |s: &str| split_time_filter(s).map(|(op, t)| (op, t));
    assert_eq!(parts("0.5"), Some((Op::Ge, "0.5".to_string())));
    assert_eq!(parts(">1"), Some((Op::Gt, "1".to_string())));
    assert_eq!(parts("<1"), Some((Op::Lt, "1".to_string())));
    assert_eq!(parts(">=1"), Some((Op::Ge, "1".to_string())));
    assert_eq!(parts("<=1"), Some((Op::Le, "1".to_string())));
    assert_eq!(parts("=1"), Some((Op::Eq, "1".to_string())));
    assert_eq!(parts(" > 0.5s "), Some((Op::Gt, "0.5".to_string())));
    assert_eq!(parts("2 ss"), Some((Op::Ge, "2".to_string())));
    assert_eq!(parts(">"), Some((Op::Gt, String::new())));
    assert_eq!(parts(""), None);
    assert_eq!(parts("   "), None);
}

#[test]
fn scope_badges() {
    assert_eq!(scope_badge(&StartupSource::UserAutostart), "user · autostart");
    assert_eq!(scope_badge(&StartupSource::SystemAutostart), "system · autostart");
    assert_eq!(scope_badge(&StartupSource::SystemdSystem), "system · systemd");
    assert_eq!(scope_badge(&StartupSource::SystemdUser), "user · systemd");
}

#[test]
fn entry_name_falls_back_to_file_name() {
    let e = entry("", "/etc/xdg/autostart/nm-applet.desktop", StartupSource::SystemAutostart, "x", false);
    assert_eq!(entry_name(&e), "nm-applet.desktop");
    let e = entry("Network", "/x/y.desktop", StartupSource::SystemAutostart, "x", false);
    assert_eq!(entry_name(&e), "Network");
    let e = entry("", "/", StartupSource::SystemAutostart, "x", false);
    assert_eq!(entry_name(&e), "");
}

#[test]
fn rows_split_normal_and_critical() {
    let es = vec![
        entry("A", "/a", StartupSource::UserAutostart, "a", false),
        entry("B", "/b", StartupSource::SystemdSystem, "b.service", true),
        entry("C", "/c", StartupSource::SystemdUser, "c.service", false),
    ];
    let (normal, critical) = startup_rows(&es, &[true, true, false]);
    assert_eq!(normal.len(), 1);
    assert_eq!(critical.len(), 1);
    assert_eq!(normal[0].name, "A");
    assert!(normal[0].is_desktop);
    assert_eq!(normal[0].boot_time, "1.50 s");
    assert_eq!(critical[0].index, 1);
    assert!(critical[0].locked && !critical[0].is_desktop);
    let r = to_row(&es[2], 2);
    assert_eq!(r.badge, "user · systemd");
    assert!(r.boot_known);
}

#[test]
fn text_filter_on_name_or_command() {
    let e = entry("Dropbox", "/d", StartupSource::UserAutostart, "/usr/bin/dropbox-start", false);
    assert!(text_filter_passes(&e, "drop"));
    assert!(text_filter_passes(&e, "start"));
    assert!(text_filter_passes(&e, ""));
    assert!(!text_filter_passes(&e, "steam"));
}

#[test]
fn toggle_outcomes() {
    let mut es = vec![entry("A", "/a", StartupSource::UserAutostart, "a", false)];
    let mut err = None;
    apply_toggle(&mut es, &mut err, 0, false, Ok(()));
    assert!(!es[0].enabled);
    assert!(err.is_none());
    apply_toggle(&mut es, &mut err, 0, true, Err("permission denied".to_string()));
    assert!(!es[0].enabled);
    assert_eq!(err.as_deref(), Some("Failed to toggle A: permission denied"));
    apply_toggle(&mut es, &mut err, 5, true, Ok(()));
    assert_eq!(err.as_deref(), Some("Failed to toggle A: permission denied"));
}

#[test]
fn properties_only_for_systemd_rows() {
    let es = vec![
        entry("A", "/a", StartupSource::UserAutostart, "a", false),
        entry("B", "/b", StartupSource::SystemdUser, "b.service", false),
        entry("C", "/c", StartupSource::SystemdSystem, "c.service", false),
    ];
    assert!(systemd_unit(&es, 0).is_none());
    assert_eq!(systemd_unit(&es, 1), Some(("b.service".to_string(), ServiceScope::User)));
    assert_eq!(systemd_unit(&es, 2), Some(("c.service".to_string(), ServiceScope::System)));
    assert!(systemd_unit(&es, 9).is_none());
    let v = build_properties_view(&es, 1, Some(empty_props()));
    assert_eq!(v.idx, 1);
    assert!(v.systemd.is_some());
    let v = build_properties_view(&es, 0, Some(empty_props()));
    assert_eq!(v.idx, 0);
    assert!(v.systemd.is_none());
    assert!(build_properties_view(&es, 9, Some(empty_props())).systemd.is_none());
}
