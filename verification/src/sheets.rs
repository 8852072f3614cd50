//! The Properties dialogs of a process, a service and a startup entry: their
//! titles and, in order, the lines they show.
use vstd::prelude::*;
use crate::paths::file_name_of;
use crate::performance::{parse_u64_chars, parse_uint};
use crate::processes::grouping::ProcInfo;
use crate::processes::properties::ProcessPropertiesView;
use crate::processes::rows::find_pid;
use crate::services::{scope_str, scope_text, ServiceProperties, ServiceScope};
use crate::startup::{badge_text, boot_time_text, format_boot_time, scope_badge, StartupEntry, StartupSource};
use crate::text::{chars_eq_lit, chars_of, dec, dec_u64, push_chars, push_lit, string_of};
use crate::widgets::{bytes_text, duration_text, format_bytes, format_duration, OpenTarget};

verus! {

/// One line of a Properties dialog.
#[derive(Debug, PartialEq)]
pub enum PropLine {
    /// A label and its value.
    Stat { label: String, value: String },
    Separator,
    /// A labelled path the user can open in the file manager.
    Path { label: String, path: String, target: OpenTarget },
    /// A dimmed heading over the lines below it.
    Heading(String),
    /// A path without a label, under a heading.
    CompactPath(String),
    /// Text that wraps, such as a command line.
    Wrapped(String),
}

/// A dialog line as the contracts see it.
pub enum PropView {
    Stat(Seq<char>, Seq<char>),
    Separator,
    Path(Seq<char>, Seq<char>, OpenTarget),
    Heading(Seq<char>),
    CompactPath(Seq<char>),
    Wrapped(Seq<char>),
}

pub open spec fn prop_view(l: PropLine) -> PropView {
    match l {
        PropLine::Stat { label, value } => PropView::Stat(label@, value@),
        PropLine::Separator => PropView::Separator,
        PropLine::Path { label, path, target } => PropView::Path(label@, path@, target),
        PropLine::Heading(h) => PropView::Heading(h@),
        PropLine::CompactPath(p) => PropView::CompactPath(p@),
        PropLine::Wrapped(t) => PropView::Wrapped(t@),
    }
}

pub open spec fn props_view(v: Seq<PropLine>) -> Seq<PropView> {
    v.map_values(|l: PropLine| prop_view(l))
}

fn push_line(v: &mut Vec<PropLine>, l: PropLine)
    ensures
        props_view(final(v)@) == props_view(old(v)@).push(prop_view(l)),
{
    let ghost before = v@;
    let ghost pv = prop_view(l);
    v.push(l);
    proof {
        assert(props_view(v@) =~= props_view(before).push(pv));
    }
}

fn owned(s: &str) -> (r: String)
    ensures
        r@ == s@,
{
    let mut out = String::new();
    push_lit(&mut out, s);
    out
}

fn push_stat(v: &mut Vec<PropLine>, label: &str, value: &str)
    ensures
        props_view(final(v)@) == props_view(old(v)@).push(PropView::Stat(label@, value@)),
{
    push_line(v, PropLine::Stat { label: owned(label), value: owned(value) });
}

/// A stat line when its value is not empty.
pub open spec fn stat_if(label: Seq<char>, value: Seq<char>) -> Seq<PropView> {
    if value.len() > 0 {
        seq![PropView::Stat(label, value)]
    } else {
        Seq::empty()
    }
}

fn push_stat_if(v: &mut Vec<PropLine>, label: &str, value: &str)
    ensures
        props_view(final(v)@) == props_view(old(v)@) + stat_if(label@, value@),
{
    if !value.is_empty() {
        push_stat(v, label, value);
        proof {
            assert(props_view(v@) =~= props_view(old(v)@) + stat_if(label@, value@));
        }
    } else {
        proof {
            assert(props_view(v@) =~= props_view(old(v)@) + stat_if(label@, value@));
        }
    }
}

pub open spec fn compact_lines(ps: Seq<String>) -> Seq<PropView>
    decreases ps.len(),
{
    if ps.len() == 0 {
        Seq::empty()
    } else {
        compact_lines(ps.drop_last()).push(PropView::CompactPath(ps.last()@))
    }
}

/// A heading over a list of paths, when the list is not empty.
pub open spec fn path_list(heading: Seq<char>, ps: Seq<String>) -> Seq<PropView> {
    if ps.len() > 0 {
        seq![PropView::Heading(heading)] + compact_lines(ps)
    } else {
        Seq::empty()
    }
}

fn push_path_list(v: &mut Vec<PropLine>, heading: &str, ps: &Vec<String>)
    ensures
        props_view(final(v)@) == props_view(old(v)@) + path_list(heading@, ps@),
{
    let ghost start = props_view(v@);
    if ps.len() == 0 {
        proof {
            assert(props_view(v@) =~= start + path_list(heading@, ps@));
        }
        return;
    }
    push_line(v, PropLine::Heading(owned(heading)));
    let mut i: usize = 0;
    proof {
        assert(ps@.take(0) =~= Seq::<String>::empty());
    }
    while i < ps.len()
        invariant
            i <= ps@.len(),
            ps@.len() > 0,
            props_view(v@) == start + seq![PropView::Heading(heading@)] + compact_lines(ps@.take(i as int)),
        decreases ps.len() - i,
    {
        push_line(v, PropLine::CompactPath(owned(ps[i].as_str())));
        proof {
            assert(ps@.take(i + 1).drop_last() =~= ps@.take(i as int));
        }
        i += 1;
    }
    proof {
        assert(ps@.take(ps@.len() as int) =~= ps@);
        assert(props_view(v@) =~= start + path_list(heading@, ps@));
    }
}

/// A heading over wrapped text, when the text is not empty.
pub open spec fn wrapped_if(heading: Seq<char>, t: Seq<char>) -> Seq<PropView> {
    if t.len() > 0 {
        seq![PropView::Heading(heading), PropView::Wrapped(t)]
    } else {
        Seq::empty()
    }
}

fn push_wrapped_if(v: &mut Vec<PropLine>, heading: &str, t: &str)
    ensures
        props_view(final(v)@) == props_view(old(v)@) + wrapped_if(heading@, t@),
{
    if !t.is_empty() {
        push_line(v, PropLine::Heading(owned(heading)));
        push_line(v, PropLine::Wrapped(owned(t)));
    }
    proof {
        assert(props_view(v@) =~= props_view(old(v)@) + wrapped_if(heading@, t@));
    }
}

fn titled(name: &str) -> (r: String)
    ensures
        r@ == "Properties: "@ + name@,
{
    let mut t = String::new();
    push_lit(&mut t, "Properties: ");
    push_lit(&mut t, name);
    t
}

// ---------------------------------------------------------------------------
// What systemd reports for a unit.
// ---------------------------------------------------------------------------

/// A value systemd reports as unset.
pub open spec fn unset(v: Seq<char>) -> bool {
    v.len() == 0 || v == "[not set]"@
}

/// The unit's memory line: only for a reported, non-zero byte count.
pub open spec fn memory_line(m: Seq<char>) -> Seq<PropView> {
    if !unset(m) && m != "0"@ && parse_uint(m, u64::MAX as nat) is Some {
        seq![PropView::Stat("Memory"@, bytes_text(parse_uint(m, u64::MAX as nat)->0))]
    } else {
        Seq::empty()
    }
}

/// The main PID line: only for a running main process.
pub open spec fn main_pid_line(p: Seq<char>) -> Seq<PropView> {
    if p.len() > 0 && p != "0"@ {
        seq![PropView::Stat("Main PID"@, p)]
    } else {
        Seq::empty()
    }
}

/// The unit file, drop-ins, working directory and command of a unit.
pub open spec fn unit_files(p: ServiceProperties) -> Seq<PropView> {
    (if p.fragment_path@.len() > 0 {
        seq![PropView::Path("Unit file"@, p.fragment_path@, OpenTarget::Parent)]
    } else {
        Seq::empty()
    }) + path_list("Drop-in files"@, p.drop_in_paths@) + (if !unset(p.working_directory@) {
        seq![PropView::Path("Working directory"@, p.working_directory@, OpenTarget::Self_)]
    } else {
        Seq::empty()
    }) + wrapped_if("ExecStart"@, p.exec_start@)
}

fn push_main_pid(v: &mut Vec<PropLine>, p: &str)
    ensures
        props_view(final(v)@) == props_view(old(v)@) + main_pid_line(p@),
{
    let c = chars_of(p);
    if !p.is_empty() && !chars_eq_lit(&c, "0") {
        push_stat(v, "Main PID", p);
    }
    proof {
        assert(props_view(v@) =~= props_view(old(v)@) + main_pid_line(p@));
    }
}

fn is_unset(v: &str) -> (r: bool)
    ensures
        r == unset(v@),
{
    v.is_empty() || chars_eq_lit(&chars_of(v), "[not set]")
}

fn push_unit_files(v: &mut Vec<PropLine>, p: &ServiceProperties)
    ensures
        props_view(final(v)@) == props_view(old(v)@) + unit_files(*p),
{
    let ghost start = props_view(v@);
    if !p.fragment_path.as_str().is_empty() {
        push_line(v, PropLine::Path {
            label: owned("Unit file"),
            path: owned(p.fragment_path.as_str()),
            target: OpenTarget::Parent,
        });
    }
    let ghost s1 = props_view(v@);
    push_path_list(v, "Drop-in files", &p.drop_in_paths);
    let ghost s2 = props_view(v@);
    if !is_unset(p.working_directory.as_str()) {
        push_line(v, PropLine::Path {
            label: owned("Working directory"),
            path: owned(p.working_directory.as_str()),
            target: OpenTarget::Self_,
        });
    }
    let ghost s3 = props_view(v@);
    push_wrapped_if(v, "ExecStart", p.exec_start.as_str());
    proof {
        assert(s1 =~= start + (if p.fragment_path@.len() > 0 {
            seq![PropView::Path("Unit file"@, p.fragment_path@, OpenTarget::Parent)]
        } else {
            Seq::<PropView>::empty()
        }));
        assert(s3 =~= s2 + (if !unset(p.working_directory@) {
            seq![PropView::Path("Working directory"@, p.working_directory@, OpenTarget::Self_)]
        } else {
            Seq::<PropView>::empty()
        }));
        assert(props_view(v@) =~= start + unit_files(*p));
    }
}

// ---------------------------------------------------------------------------
// A service.
// ---------------------------------------------------------------------------

/// The service dialog: unit, scope and description; its states, main PID,
/// user, memory and tasks; then its files and command.
pub open spec fn service_lines(name: Seq<char>, scope: ServiceScope, p: ServiceProperties) -> Seq<PropView> {
    seq![PropView::Stat("Unit"@, name), PropView::Stat("Scope"@, scope_text(scope))] + stat_if(
        "Description"@,
        p.description@,
    ) + seq![PropView::Separator] + stat_if("Load"@, p.load_state@) + stat_if("Active"@, p.active_state@)
        + stat_if("Sub"@, p.sub_state@) + stat_if("Unit file state"@, p.unit_file_state@)
        + main_pid_line(p.main_pid@) + stat_if("User"@, p.user@) + memory_line(p.memory_current@) + (
    if !unset(p.tasks_current@) {
        seq![PropView::Stat("Tasks"@, p.tasks_current@)]
    } else {
        Seq::empty()
    }) + seq![PropView::Separator] + unit_files(p)
}

fn service_states(v: &mut Vec<PropLine>, p: &ServiceProperties)
    ensures
        props_view(final(v)@) == props_view(old(v)@) + stat_if("Load"@, p.load_state@) + stat_if(
            "Active"@,
            p.active_state@,
        ) + stat_if("Sub"@, p.sub_state@) + stat_if("Unit file state"@, p.unit_file_state@)
            + main_pid_line(p.main_pid@) + stat_if("User"@, p.user@),
{
    let ghost s0 = props_view(v@);
    push_stat_if(v, "Load", p.load_state.as_str());
    push_stat_if(v, "Active", p.active_state.as_str());
    push_stat_if(v, "Sub", p.sub_state.as_str());
    push_stat_if(v, "Unit file state", p.unit_file_state.as_str());
    push_main_pid(v, p.main_pid.as_str());
    push_stat_if(v, "User", p.user.as_str());
    proof {
        assert(props_view(v@) =~= s0 + stat_if("Load"@, p.load_state@) + stat_if(
            "Active"@,
            p.active_state@,
        ) + stat_if("Sub"@, p.sub_state@) + stat_if("Unit file state"@, p.unit_file_state@)
            + main_pid_line(p.main_pid@) + stat_if("User"@, p.user@));
    }
}

fn push_memory(v: &mut Vec<PropLine>, m: &str)
    ensures
        props_view(final(v)@) == props_view(old(v)@) + memory_line(m@),
{
    let c = chars_of(m);
    if !is_unset(m) && !chars_eq_lit(&c, "0") {
        match parse_u64_chars(&c) {
            Some(bytes) => {
                let b = format_bytes(bytes);
                push_stat(v, "Memory", b.as_str());
            },
            None => {},
        }
    }
    proof {
        assert(props_view(v@) =~= props_view(old(v)@) + memory_line(m@));
    }
}

pub fn service_sheet(name: &str, scope: ServiceScope, p: &ServiceProperties) -> (r: (String, Vec<PropLine>))
    ensures
        r.0@ == "Properties: "@ + name@,
        props_view(r.1@) == service_lines(name@, scope, *p),
{
    let mut v: Vec<PropLine> = Vec::new();
    push_stat(&mut v, "Unit", name);
    push_stat(&mut v, "Scope", scope_str(&scope));
    push_stat_if(&mut v, "Description", p.description.as_str());
    push_line(&mut v, PropLine::Separator);
    let ghost s1 = props_view(v@);
    service_states(&mut v, p);
    push_memory(&mut v, p.memory_current.as_str());
    let ghost s2 = props_view(v@);
    if !is_unset(p.tasks_current.as_str()) {
        push_stat(&mut v, "Tasks", p.tasks_current.as_str());
    }
    let ghost s3 = props_view(v@);
    push_line(&mut v, PropLine::Separator);
    push_unit_files(&mut v, p);
    proof {
        assert(s3 =~= s2 + (if !unset(p.tasks_current@) {
            seq![PropView::Stat("Tasks"@, p.tasks_current@)]
        } else {
            Seq::<PropView>::empty()
        }));
        assert(props_view(v@) =~= service_lines(name@, scope, *p));
    }
    (titled(name), v)
}

// ---------------------------------------------------------------------------
// A startup entry.
// ---------------------------------------------------------------------------

/// The dialog's title for an entry: its name, else its file's name, else
/// its command.
pub open spec fn startup_title(e: StartupEntry) -> Seq<char> {
    if e.name@.len() > 0 {
        e.name@
    } else {
        match crate::paths::file_name(e.path@) {
            Some(f) => f,
            None => e.command@,
        }
    }
}

pub open spec fn is_systemd(s: StartupSource) -> bool {
    s == StartupSource::SystemdSystem || s == StartupSource::SystemdUser
}

pub open spec fn state_text(e: StartupEntry) -> Seq<char> {
    if e.critical {
        "Protected (managed by systemd)"@
    } else if e.enabled {
        "Enabled"@
    } else {
        "Disabled"@
    }
}

/// The startup dialog: name, source, description, boot time and state;
/// for a desktop entry its file, command and icon; for a systemd unit what
/// systemd reports, when it was read.
pub open spec fn startup_lines(e: StartupEntry, p: Option<ServiceProperties>) -> Seq<PropView> {
    seq![PropView::Stat("Name"@, startup_title(e)), PropView::Stat("Source"@, badge_text(e.source))] + stat_if(
        "Description"@,
        e.comment@,
    ) + seq![
        PropView::Stat("Boot time"@, boot_time_text(e.boot_time_ms)),
        PropView::Stat("State"@, state_text(e)),
        PropView::Separator,
    ] + (if !is_systemd(e.source) {
        seq![PropView::Path(".desktop file"@, e.path@, OpenTarget::Parent)] + wrapped_if("Exec"@, e.command@)
            + stat_if("Icon"@, e.icon@)
    } else {
        Seq::empty()
    }) + match p {
        Some(p) => seq![PropView::Stat("Unit"@, e.command@)] + stat_if("Unit file state"@, p.unit_file_state@)
            + stat_if("Active"@, p.active_state@) + stat_if("Sub"@, p.sub_state@) + main_pid_line(p.main_pid@)
            + stat_if("User"@, p.user@) + seq![PropView::Separator] + unit_files(p),
        None => Seq::empty(),
    }
}

fn startup_title_of(e: &StartupEntry) -> (r: String)
    ensures
        r@ == startup_title(*e),
{
    if !e.name.as_str().is_empty() {
        return owned(e.name.as_str());
    }
    match file_name_of(&chars_of(e.path.as_str())) {
        Some(f) => string_of(&f),
        None => owned(e.command.as_str()),
    }
}

fn systemd_lines(v: &mut Vec<PropLine>, e: &StartupEntry, p: &ServiceProperties)
    ensures
        props_view(final(v)@) == props_view(old(v)@) + seq![PropView::Stat("Unit"@, e.command@)] + stat_if(
            "Unit file state"@,
            p.unit_file_state@,
        ) + stat_if("Active"@, p.active_state@) + stat_if("Sub"@, p.sub_state@) + main_pid_line(
            p.main_pid@,
        ) + stat_if("User"@, p.user@) + seq![PropView::Separator] + unit_files(*p),
{
    let ghost s0 = props_view(v@);
    push_stat(v, "Unit", e.command.as_str());
    push_stat_if(v, "Unit file state", p.unit_file_state.as_str());
    push_stat_if(v, "Active", p.active_state.as_str());
    push_stat_if(v, "Sub", p.sub_state.as_str());
    push_main_pid(v, p.main_pid.as_str());
    push_stat_if(v, "User", p.user.as_str());
    push_line(v, PropLine::Separator);
    push_unit_files(v, p);
    proof {
        assert(props_view(v@) =~= s0 + seq![PropView::Stat("Unit"@, e.command@)] + stat_if(
            "Unit file state"@,
            p.unit_file_state@,
        ) + stat_if("Active"@, p.active_state@) + stat_if("Sub"@, p.sub_state@) + main_pid_line(
            p.main_pid@,
        ) + stat_if("User"@, p.user@) + seq![PropView::Separator] + unit_files(*p));
    }
}

fn startup_head(v: &mut Vec<PropLine>, e: &StartupEntry, title: &String)
    requires
        title@ == startup_title(*e),
    ensures
        props_view(final(v)@) == props_view(old(v)@) + seq![
            PropView::Stat("Name"@, startup_title(*e)),
            PropView::Stat("Source"@, badge_text(e.source)),
        ] + stat_if("Description"@, e.comment@) + seq![
            PropView::Stat("Boot time"@, boot_time_text(e.boot_time_ms)),
            PropView::Stat("State"@, state_text(*e)),
            PropView::Separator,
        ],
{
    let ghost s0 = props_view(v@);
    push_stat(v, "Name", title.as_str());
    push_stat(v, "Source", scope_badge(&e.source));
    push_stat_if(v, "Description", e.comment.as_str());
    let bt = format_boot_time(e.boot_time_ms);
    push_stat(v, "Boot time", bt.as_str());
    let state = if e.critical {
        "Protected (managed by systemd)"
    } else if e.enabled {
        "Enabled"
    } else {
        "Disabled"
    };
    push_stat(v, "State", state);
    push_line(v, PropLine::Separator);
    proof {
        assert(props_view(v@) =~= s0 + seq![
            PropView::Stat("Name"@, startup_title(*e)),
            PropView::Stat("Source"@, badge_text(e.source)),
        ] + stat_if("Description"@, e.comment@) + seq![
            PropView::Stat("Boot time"@, boot_time_text(e.boot_time_ms)),
            PropView::Stat("State"@, state_text(*e)),
            PropView::Separator,
        ]);
    }
}

fn desktop_part(v: &mut Vec<PropLine>, e: &StartupEntry)
    ensures
        props_view(final(v)@) == props_view(old(v)@) + (if !is_systemd(e.source) {
            seq![PropView::Path(".desktop file"@, e.path@, OpenTarget::Parent)] + wrapped_if("Exec"@, e.command@)
                + stat_if("Icon"@, e.icon@)
        } else {
            Seq::empty()
        }),
{
    let ghost s0 = props_view(v@);
    let systemd = e.source == StartupSource::SystemdSystem || e.source == StartupSource::SystemdUser;
    if !systemd {
        push_line(v, PropLine::Path {
            label: owned(".desktop file"),
            path: owned(e.path.as_str()),
            target: OpenTarget::Parent,
        });
        push_wrapped_if(v, "Exec", e.command.as_str());
        push_stat_if(v, "Icon", e.icon.as_str());
    }
    proof {
        assert(props_view(v@) =~= s0 + (if !is_systemd(e.source) {
            seq![PropView::Path(".desktop file"@, e.path@, OpenTarget::Parent)] + wrapped_if("Exec"@, e.command@)
                + stat_if("Icon"@, e.icon@)
        } else {
            Seq::<PropView>::empty()
        }));
    }
}

pub fn startup_sheet(e: &StartupEntry, p: Option<&ServiceProperties>) -> (r: (String, Vec<PropLine>))
    ensures
        r.0@ == "Properties: "@ + startup_title(*e),
        props_view(r.1@) == startup_lines(*e, match p {
            Some(p) => Some(*p),
            None => None,
        }),
{
    let title = startup_title_of(e);
    let mut v: Vec<PropLine> = Vec::new();
    startup_head(&mut v, e, &title);
    desktop_part(&mut v, e);
    let ghost s2 = props_view(v@);
    match p {
        Some(p) => systemd_lines(&mut v, e, p),
        None => {},
    }
    proof {
        assert(props_view(v@) =~= startup_lines(*e, match p {
            Some(p) => Some(*p),
            None => None,
        }));
    }
    (titled(title.as_str()), v)
}

// ---------------------------------------------------------------------------
// A process.
// ---------------------------------------------------------------------------

/// A value or a dash when there is none.
pub open spec fn or_dash(v: Option<Seq<char>>) -> Seq<char> {
    match v {
        Some(s) => s,
        None => "\u{2014}"@,
    }
}

/// The process dialog: identity and state; CPU, memory, threads, open
/// descriptors and running time; then its executable, working directory,
/// configuration files and command line.
pub open spec fn process_lines(
    p: ProcInfo,
    v: ProcessPropertiesView,
    cpu_text: Seq<char>,
    running_secs: Option<u64>,
) -> Seq<PropView> {
    seq![
        PropView::Stat("PID"@, dec(p.pid as nat)),
        PropView::Stat("Parent PID"@, or_dash(match p.parent {
            Some(pp) => Some(dec(pp as nat)),
            None => None,
        })),
        PropView::Stat("User"@, if p.user@.len() == 0 { "\u{2014}"@ } else { p.user@ }),
        PropView::Stat("Status"@, p.status@),
        PropView::Separator,
        PropView::Stat("CPU"@, cpu_text),
        PropView::Stat("Memory (RSS)"@, bytes_text(p.mem_bytes as nat)),
        PropView::Stat("Virtual memory"@, bytes_text(p.virt_bytes as nat)),
        PropView::Stat("Threads"@, dec(p.threads as nat)),
    ] + (match v.fd_count {
        Some(n) => seq![PropView::Stat("Open file descriptors"@, dec(n as nat))],
        None => Seq::empty(),
    }) + (match running_secs {
        Some(s) => seq![PropView::Stat("Running for"@, duration_text(s as nat))],
        None => Seq::empty(),
    }) + seq![PropView::Separator] + (if p.exe@.len() > 0 {
        seq![PropView::Path("Executable"@, p.exe@, OpenTarget::Parent)]
    } else {
        Seq::empty()
    }) + (match v.cwd {
        Some(c) => seq![PropView::Path("Working directory"@, c@, OpenTarget::Self_)],
        None => Seq::empty(),
    }) + path_list("Config"@, v.configs@) + wrapped_if("Command line"@, p.cmd@)
}

fn dec_string(n: u64) -> (r: String)
    ensures
        r@ == dec(n as nat),
{
    let mut s = String::new();
    push_chars(&mut s, &dec_u64(n));
    s
}

fn process_head(v: &mut Vec<PropLine>, p: &ProcInfo, cpu_text: &str)
    ensures
        props_view(final(v)@) == props_view(old(v)@) + seq![
            PropView::Stat("PID"@, dec(p.pid as nat)),
            PropView::Stat("Parent PID"@, or_dash(match p.parent {
                Some(pp) => Some(dec(pp as nat)),
                None => None,
            })),
            PropView::Stat("User"@, if p.user@.len() == 0 { "\u{2014}"@ } else { p.user@ }),
            PropView::Stat("Status"@, p.status@),
            PropView::Separator,
            PropView::Stat("CPU"@, cpu_text@),
            PropView::Stat("Memory (RSS)"@, bytes_text(p.mem_bytes as nat)),
            PropView::Stat("Virtual memory"@, bytes_text(p.virt_bytes as nat)),
            PropView::Stat("Threads"@, dec(p.threads as nat)),
        ],
{
    let ghost s0 = props_view(v@);
    let pid = dec_string(p.pid as u64);
    push_stat(v, "PID", pid.as_str());
    let parent = match p.parent {
        Some(pp) => dec_string(pp as u64),
        None => owned("\u{2014}"),
    };
    push_stat(v, "Parent PID", parent.as_str());
    if p.user.as_str().is_empty() {
        push_stat(v, "User", "\u{2014}");
    } else {
        push_stat(v, "User", p.user.as_str());
    }
    push_stat(v, "Status", p.status.as_str());
    push_line(v, PropLine::Separator);
    push_stat(v, "CPU", cpu_text);
    let m = format_bytes(p.mem_bytes);
    push_stat(v, "Memory (RSS)", m.as_str());
    let vm = format_bytes(p.virt_bytes);
    push_stat(v, "Virtual memory", vm.as_str());
    let th = dec_string(p.threads);
    push_stat(v, "Threads", th.as_str());
    proof {
        assert(props_view(v@) =~= s0 + seq![
            PropView::Stat("PID"@, dec(p.pid as nat)),
            PropView::Stat("Parent PID"@, or_dash(match p.parent {
                Some(pp) => Some(dec(pp as nat)),
                None => None,
            })),
            PropView::Stat("User"@, if p.user@.len() == 0 { "\u{2014}"@ } else { p.user@ }),
            PropView::Stat("Status"@, p.status@),
            PropView::Separator,
            PropView::Stat("CPU"@, cpu_text@),
            PropView::Stat("Memory (RSS)"@, bytes_text(p.mem_bytes as nat)),
            PropView::Stat("Virtual memory"@, bytes_text(p.virt_bytes as nat)),
            PropView::Stat("Threads"@, dec(p.threads as nat)),
        ]);
    }
}

fn process_tail(v: &mut Vec<PropLine>, p: &ProcInfo, view: &ProcessPropertiesView)
    ensures
        props_view(final(v)@) == props_view(old(v)@) + (if p.exe@.len() > 0 {
            seq![PropView::Path("Executable"@, p.exe@, OpenTarget::Parent)]
        } else {
            Seq::empty()
        }) + (match view.cwd {
            Some(c) => seq![PropView::Path("Working directory"@, c@, OpenTarget::Self_)],
            None => Seq::empty(),
        }) + path_list("Config"@, view.configs@) + wrapped_if("Command line"@, p.cmd@),
{
    let ghost s0 = props_view(v@);
    if !p.exe.as_str().is_empty() {
        push_line(v, PropLine::Path {
            label: owned("Executable"),
            path: owned(p.exe.as_str()),
            target: OpenTarget::Parent,
        });
    }
    let ghost s1 = props_view(v@);
    match &view.cwd {
        Some(c) => {
            push_line(v, PropLine::Path {
                label: owned("Working directory"),
                path: owned(c.as_str()),
                target: OpenTarget::Self_,
            });
        },
        None => {},
    }
    let ghost s2 = props_view(v@);
    push_path_list(v, "Config", &view.configs);
    push_wrapped_if(v, "Command line", p.cmd.as_str());
    proof {
        assert(s1 =~= s0 + (if p.exe@.len() > 0 {
            seq![PropView::Path("Executable"@, p.exe@, OpenTarget::Parent)]
        } else {
            Seq::<PropView>::empty()
        }));
        assert(s2 =~= s1 + (match view.cwd {
            Some(c) => seq![PropView::Path("Working directory"@, c@, OpenTarget::Self_)],
            None => Seq::<PropView>::empty(),
        }));
        assert(props_view(v@) =~= s0 + (if p.exe@.len() > 0 {
            seq![PropView::Path("Executable"@, p.exe@, OpenTarget::Parent)]
        } else {
            Seq::<PropView>::empty()
        }) + (match view.cwd {
            Some(c) => seq![PropView::Path("Working directory"@, c@, OpenTarget::Self_)],
            None => Seq::<PropView>::empty(),
        }) + path_list("Config"@, view.configs@) + wrapped_if("Command line"@, p.cmd@));
    }
}

/// The dialog of the process the view was opened for, or `None` when that
/// process has exited (the dialog then closes). `cpu_text` is its CPU share
/// as worded; `running_secs` how long it has been running, when known.
pub fn process_sheet(
    procs: &[ProcInfo],
    view: &ProcessPropertiesView,
    cpu_text: &str,
    running_secs: Option<u64>,
) -> (r: Option<(String, Vec<PropLine>)>)
    ensures
        match find_pid(procs@, view.pid) {
            Some(p) => r is Some && (r->0).0@ == "Properties: "@ + p.name@ && props_view((r->0).1@)
                == process_lines(p, *view, cpu_text@, running_secs),
            None => r is None,
        },
{
    let k = match crate::processes::rows::find_pid_index(procs, view.pid) {
        Some(k) => k,
        None => return None,
    };
    let p = &procs[k];
    let mut v: Vec<PropLine> = Vec::new();
    process_head(&mut v, p, cpu_text);
    let ghost s1 = props_view(v@);
    match view.fd_count {
        Some(n) => {
            let t = dec_string(n as u64);
            push_stat(&mut v, "Open file descriptors", t.as_str());
        },
        None => {},
    }
    match running_secs {
        Some(s) => {
            let d = format_duration(s);
            push_stat(&mut v, "Running for", d.as_str());
        },
        None => {},
    }
    let ghost s2 = props_view(v@);
    push_line(&mut v, PropLine::Separator);
    process_tail(&mut v, p, view);
    proof {
        assert(s2 =~= s1 + (match view.fd_count {
            Some(n) => seq![PropView::Stat("Open file descriptors"@, dec(n as nat))],
            None => Seq::<PropView>::empty(),
        }) + (match running_secs {
            Some(s) => seq![PropView::Stat("Running for"@, duration_text(s as nat))],
            None => Seq::<PropView>::empty(),
        }));
        assert(props_view(v@) =~= process_lines(*p, *view, cpu_text@, running_secs));
    }
    Some((titled(p.name.as_str()), v))
}

} // verus!
