use rproc::icons::freedesktop::{
    desktop_candidates, exec_binary, has_entry, icon_candidates, is_loadable_icon, parse_desktop,
    prefix_matches, shell_split, DesktopIndex, IndexKeys,
};

fn keys(ks: &[&str]) -> IndexKeys {
    IndexKeys::from_keys(ks.iter().map(|s| s.to_string()).collect())
}

#[test]
fn desktop_candidates_lowercases_and_extracts_stem() {
    let c = desktop_candidates("Code-Insiders", "/usr/bin/Code");
    assert_eq!(c[0], "code");
    assert_eq!(c[1], "code-insiders");
    assert_eq!(c[2], "code");
}

#[test]
fn desktop_candidates_empty_inputs_yield_empty_strings() {
    let c = desktop_candidates("", "");
    assert!(c.iter().all(|s| s.is_empty()));
}

#[test]
fn has_entry_matches_any_candidate() {
    let k = keys(&["firefox"]);
    assert!(has_entry(&k, "firefox", "/usr/lib/firefox/firefox-bin"));
    assert!(!has_entry(&k, "kworker/0:1", ""));
}

#[test]
fn has_entry_matches_on_stem() {
    let k = keys(&["code"]);
    assert!(has_entry(&k, "code-insiders", ""));
}

#[test]
fn prefix_matches_recovers_truncated_and_suffixed_names() {
    assert!(prefix_matches("brave-browser-stable", "brave-browser-s"));
    assert!(prefix_matches("signal", "signal-desktop"));
    assert!(prefix_matches("telegram-desktop", "telegram"));
    assert!(prefix_matches("brave-browser", "brave"));
}

#[test]
fn prefix_matches_rejects_short_command_names() {
    assert!(!prefix_matches("github-desktop", "git"));
    assert!(!prefix_matches("gitg", "git"));
    assert!(!prefix_matches("ssh-agent", "ssh"));
    assert!(!prefix_matches("codium", "code"));
    assert!(!prefix_matches("node-red", "node"));
    assert!(!prefix_matches("vim", "vim-gtk3"));
}

#[test]
fn is_loadable_icon_rejects_unsupported_formats() {
    assert!(is_loadable_icon("/usr/share/pixmaps/vscode.png"));
    assert!(is_loadable_icon("/x/icon.SVG"));
    assert!(is_loadable_icon("/x/photo.jpeg"));
    assert!(!is_loadable_icon("/usr/share/pixmaps/python3.12.xpm"));
    assert!(!is_loadable_icon("/x/icon.gif"));
    assert!(!is_loadable_icon("/x/noext"));
}

#[test]
fn shell_split_basic() {
    assert_eq!(shell_split("a b c"), vec!["a", "b", "c"]);
}

#[test]
fn shell_split_preserves_quoted_spaces() {
    assert_eq!(
        shell_split(r#"/usr/bin/foo "an arg" bar"#),
        vec!["/usr/bin/foo", "an arg", "bar"],
    );
}

#[test]
fn shell_split_collapses_runs_of_whitespace() {
    assert_eq!(shell_split("a   b\tc"), vec!["a", "b", "c"]);
}

#[test]
fn shell_split_empty_input() {
    let out: Vec<String> = shell_split("");
    assert!(out.is_empty());
}

#[test]
fn exec_binary_skips_env_assignments() {
    assert_eq!(exec_binary("FOO=bar baz"), Some("baz".to_string()));
}

#[test]
fn exec_binary_skips_env_command_wrapper() {
    assert_eq!(
        exec_binary("env VAR=1 /usr/bin/firefox"),
        Some("/usr/bin/firefox".to_string())
    );
}

#[test]
fn exec_binary_passes_through_absolute_path() {
    assert_eq!(
        exec_binary("/usr/bin/foo=weird"),
        Some("/usr/bin/foo=weird".to_string())
    );
}

#[test]
fn exec_binary_returns_first_real_token() {
    assert_eq!(
        exec_binary("/usr/bin/firefox --new-window"),
        Some("/usr/bin/firefox".to_string())
    );
}

#[test]
fn exec_binary_empty_returns_none() {
    assert_eq!(exec_binary(""), None);
    assert_eq!(exec_binary("   "), None);
}

#[test]
fn parse_desktop_basic_entry_indexes_by_file_stem() {
    let content = "\
[Desktop Entry]
Type=Application
Name=Firefox
Exec=/usr/bin/firefox %u
Icon=firefox
";
    let mut out = DesktopIndex::new();
    parse_desktop(content, "firefox", &mut out);
    assert_eq!(out.get("firefox"), Some("firefox".to_string()));
}

#[test]
fn parse_desktop_indexes_by_exec_tryexec_and_wmclass() {
    let content = "\
[Desktop Entry]
Type=Application
Name=Code
Exec=/usr/share/code/code --new-window %F
TryExec=/usr/share/code/code
StartupWMClass=Code
Icon=vscode
";
    let mut out = DesktopIndex::new();
    parse_desktop(content, "code", &mut out);
    assert_eq!(out.get("code"), Some("vscode".to_string()));
}

#[test]
fn parse_desktop_ignores_hidden_entries() {
    let content = "\
[Desktop Entry]
Type=Application
Name=Hidden app
Exec=/usr/bin/hidden
Icon=hidden
Hidden=true
";
    let mut out = DesktopIndex::new();
    parse_desktop(content, "hidden", &mut out);
    assert!(out.is_empty());
}

#[test]
fn parse_desktop_ignores_non_main_sections() {
    let content = "\
[Desktop Entry]
Type=Application
Exec=/usr/bin/foo
Icon=foo

[Desktop Action NewWindow]
Exec=/usr/bin/bar
Icon=bar
";
    let mut out = DesktopIndex::new();
    parse_desktop(content, "foo", &mut out);
    assert_eq!(out.get("foo"), Some("foo".to_string()));
    assert!(!out.values().iter().any(|v| v == "bar"));
}

#[test]
fn parse_desktop_no_icon_skipped() {
    let content = "\
[Desktop Entry]
Type=Application
Exec=/usr/bin/foo
";
    let mut out = DesktopIndex::new();
    parse_desktop(content, "foo", &mut out);
    assert!(out.is_empty());
}

#[test]
fn parse_desktop_existing_key_not_overwritten() {
    let mut out = DesktopIndex::new();
    out.insert("foo".to_string(), "user-icon".to_string());
    let content = "\
[Desktop Entry]
Type=Application
Exec=/usr/bin/foo
Icon=system-icon
";
    parse_desktop(content, "foo", &mut out);
    assert_eq!(out.get("foo"), Some("user-icon".to_string()));
}

#[test]
fn parse_desktop_indexes_every_alias() {
    let content = "\
[Desktop Entry]
Exec=/usr/share/code/code --new-window %F
TryExec=/usr/bin/code-tryexec
StartupWMClass=Code-Window
Icon=vscode
";
    let mut out = DesktopIndex::new();
    parse_desktop(content, "code-file", &mut out);
    assert_eq!(out.get("code-file"), Some("vscode".to_string()));
    assert_eq!(out.get("code"), Some("vscode".to_string()));
    assert_eq!(out.get("code-tryexec"), Some("vscode".to_string()));
    assert_eq!(out.get("code-window"), Some("vscode".to_string()));
}

#[test]
fn icon_candidates_order_index_prefix_names_then_generic() {
    let mut idx = DesktopIndex::new();
    idx.insert("brave-browser-stable".to_string(), "brave".to_string());
    let order = icon_candidates(&idx, "brave-browser-s", "");
    // No exact key: the prefix match comes first, then the candidate names,
    // then the generic executable icon.
    assert_eq!(order[0], "brave");
    assert_eq!(order.last().unwrap(), "application-x-executable");
    assert!(order.iter().any(|n| n == "brave-browser-s"));
}

#[test]
fn icon_candidates_exact_key_first() {
    let mut idx = DesktopIndex::new();
    idx.insert("firefox".to_string(), "firefox-icon".to_string());
    let order = icon_candidates(&idx, "firefox", "/usr/lib/firefox/firefox");
    assert_eq!(order[0], "firefox-icon");
}
