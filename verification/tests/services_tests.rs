use rproc::context_menu::{Act, Builder, ContextMenu, Target};
use rproc::services::{
    action_message, active_tone, count_label, scope_str, service_rows, ServiceInfo,
    ServiceProperties, ServicePropertiesView, ServiceScope, State, Tone,
};

fn props() -> ServiceProperties {
    ServiceProperties {
        description: "OpenSSH Daemon".to_string(),
        load_state: "loaded".to_string(),
        active_state: "active".to_string(),
        sub_state: "running".to_string(),
        unit_file_state: "enabled".to_string(),
        main_pid: "812".to_string(),
        user: String::new(),
        memory_current: "2097152".to_string(),
        tasks_current: "[not set]".to_string(),
        fragment_path: "/usr/lib/systemd/system/sshd.service".to_string(),
        drop_in_paths: vec!["/etc/systemd/system/sshd.service.d/override.conf".to_string()],
        working_directory: "[not set]".to_string(),
        exec_start: "/usr/sbin/sshd -D".to_string(),
    }
}

fn svc(name: &str, active: &str, desc: &str) -> ServiceInfo {
    ServiceInfo {
        name: name.to_string(),
        scope: ServiceScope::System,
        active: active.to_string(),
        sub: "running".to_string(),
        description: desc.to_string(),
    }
}

#[test]
fn scope_strings() {
    assert_eq!(scope_str(&ServiceScope::System), "system");
    assert_eq!(scope_str(&ServiceScope::User), "user");
}

#[test]
fn active_tones() {
    assert_eq!(active_tone("active"), Tone::Good);
    assert_eq!(active_tone("activating"), Tone::Warn);
    assert_eq!(active_tone("reloading"), Tone::Warn);
    assert_eq!(active_tone("failed"), Tone::Bad);
    assert_eq!(active_tone("inactive"), Tone::Dim);
}

#[test]
fn rows_filter_by_state_and_text() {
    let ss = vec![
        svc("sshd.service", "active", "OpenSSH Daemon"),
        svc("cups.service", "inactive", "CUPS Scheduler"),
        svc("NetworkManager.service", "active", "Network Manager"),
    ];
    let rows = service_rows(&ss, "", false);
    assert_eq!(rows.len(), 3);
    let rows = service_rows(&ss, "", true);
    assert_eq!(rows.iter().map(|r| r.index).collect::<Vec<_>>(), vec![0, 2]);
    let rows = service_rows(&ss, "NETWORK", false);
    assert_eq!(rows.len(), 1);
    assert_eq!(rows[0].name, "NetworkManager.service");
    assert_eq!(rows[0].scope, "system");
    assert_eq!(rows[0].tone, Tone::Good);
    let rows = service_rows(&ss, "scheduler", true);
    assert!(rows.is_empty());
    assert_eq!(count_label(2), "2 units shown");
}

#[test]
fn action_messages() {
    assert_eq!(action_message("restart", "sshd.service", &Ok(())), (true, "restart sshd.service ok".to_string()));
    assert_eq!(
        action_message("stop", "cups.service", &Err("denied".to_string())),
        (false, "stop cups.service: denied".to_string())
    );
}

#[test]
fn properties_view_holds_what_was_fetched() {
    let v = ServicePropertiesView::fetch(
        "sshd.service".to_string(),
        ServiceScope::User,
        props(),
    );
    assert_eq!(v.name, "sshd.service");
    assert_eq!(v.scope, ServiceScope::User);
    assert_eq!(v.data.main_pid, "812");
}

#[test]
fn context_menu_resolves_armed_actions() {
    let mut b = Builder::new();
    b.item("End task", Act::EndTask, true).sep().item("Kill", Act::ForceKill, false);
    let (entries, acts) = b.finish();
    assert_eq!(entries.len(), 3);
    assert_eq!(entries[0].action, 0);
    assert!(entries[1].separator && entries[1].action == -1);
    assert_eq!(entries[2].action, 1);
    assert!(!entries[2].enabled);
    assert_eq!(acts, vec![Act::EndTask, Act::ForceKill]);

    let mut menu = ContextMenu::default();
    assert!(menu.resolve(0).is_none());
    menu.arm(Target::Process(42), acts);
    assert!(menu.open);
    let (t, a) = menu.resolve(1).unwrap();
    assert!(matches!(t, Target::Process(42)));
    assert_eq!(a, Act::ForceKill);
    assert!(menu.resolve(2).is_none());
    menu.close();
    assert!(!menu.open);
    assert!(menu.resolve(0).is_none());
}

#[test]
fn context_menu_clones_group_targets() {
    let mut menu = ContextMenu::default();
    menu.arm(Target::Group("chrome".to_string()), vec![Act::EndAll]);
    let (t, a) = menu.resolve(0).unwrap();
    assert!(matches!(t, Target::Group(ref n) if n == "chrome"));
    assert_eq!(a, Act::EndAll);
}

#[test]
fn service_action_targets_the_row_and_reloads_on_success() {
    let mut st = State::new(vec![svc("sshd.service", "active", "OpenSSH"), svc("cups.service", "failed", "CUPS")]);
    assert!(st.message.is_none() && !st.show_only_running && st.filter.is_empty());
    assert_eq!(st.action_target(1), Some(("cups.service".to_string(), ServiceScope::System)));
    assert_eq!(st.action_target(2), None);
    assert!(st.record_action("restart", "cups.service", &Ok(())));
    assert_eq!(st.message, Some((true, "restart cups.service ok".to_string())));
    assert!(!st.record_action("stop", "sshd.service", &Err("denied".to_string())));
    assert_eq!(st.message, Some((false, "stop sshd.service: denied".to_string())));
    assert_eq!(st.entries.len(), 2);
    st.refresh(vec![svc("x.service", "active", "X")]);
    assert_eq!(st.entries.len(), 1);
    assert_eq!(st.message, Some((false, "stop sshd.service: denied".to_string())));
}
