//! What each visible row of the process table shows: its kind, label, PID,
//! memory, status and its colour, and whether it is selected or expanded.
//! The CPU share and disk rates are floating point and are worded by the
//! caller.
use vstd::prelude::*;
use crate::processes::grouping::ProcInfo;
use crate::processes::rows::Row;
use crate::services::Tone;
use crate::text::{chars_eq, chars_eq_lit, chars_of, dec, dec_u64, push_chars, push_lit, to_uppercase, uppercase};
use crate::widgets::{bytes_text, format_bytes};

verus! {

/// The colour of a process status: running is good; sleeping and idle are
/// dimmed; waiting and stopped warn; zombie and dead are bad; anything else
/// is plain text.
pub open spec fn status_tone_of(s: Seq<char>) -> Tone {
    if s == "Run"@ || s == "Running"@ {
        Tone::Good
    } else if s == "Sleep"@ || s == "Sleeping"@ || s == "Idle"@ {
        Tone::Dim
    } else if s == "Waiting"@ || s == "Stop"@ || s == "Stopped"@ {
        Tone::Warn
    } else if s == "Zombie"@ || s == "Dead"@ {
        Tone::Bad
    } else {
        Tone::Normal
    }
}

pub fn status_tone(status: &str) -> (r: Tone)
    ensures
        r == status_tone_of(status@),
{
    let s = chars_of(status);
    if chars_eq_lit(&s, "Run") || chars_eq_lit(&s, "Running") {
        Tone::Good
    } else if chars_eq_lit(&s, "Sleep") || chars_eq_lit(&s, "Sleeping") || chars_eq_lit(&s, "Idle") {
        Tone::Dim
    } else if chars_eq_lit(&s, "Waiting") || chars_eq_lit(&s, "Stop") || chars_eq_lit(&s, "Stopped") {
        Tone::Warn
    } else if chars_eq_lit(&s, "Zombie") || chars_eq_lit(&s, "Dead") {
        Tone::Bad
    } else {
        Tone::Normal
    }
}

/// The text of one row. `kind` is 0 for a section header, 1 for a group
/// header, 2 for a process on its own line and 3 for a process under its
/// expanded group.
pub struct RowText {
    pub kind: i32,
    pub label: String,
    pub pid: i32,
    pub pid_text: String,
    pub user: String,
    pub mem: String,
    pub status: String,
    pub tone: Tone,
    pub expanded: bool,
    pub selected: bool,
    pub group_key: String,
    pub count: i32,
    pub indent: bool,
}

pub type RowView = (i32, Seq<char>, i32, Seq<char>, Seq<char>, Seq<char>, Seq<char>, Tone, bool, bool, Seq<char>, i32, bool);

pub open spec fn row_view(t: RowText) -> RowView {
    (
        t.kind,
        t.label@,
        t.pid,
        t.pid_text@,
        t.user@,
        t.mem@,
        t.status@,
        t.tone,
        t.expanded,
        t.selected,
        t.group_key@,
        t.count,
        t.indent,
    )
}

pub open spec fn proc_view(p: ProcInfo, indent: bool, selected_pid: Option<u32>) -> RowView {
    (
        if indent { 3 } else { 2 },
        p.name@,
        p.pid as i32,
        dec(p.pid as nat),
        p.user@,
        bytes_text(p.mem_bytes as nat),
        p.status@,
        status_tone_of(p.status@),
        false,
        selected_pid == Some(p.pid),
        Seq::empty(),
        0,
        indent,
    )
}

/// What a row shows. A section header shows its title in capitals; a group
/// header its name, memory, size and whether it is expanded, selected when
/// its name is the selected group; a process its name, PID, user, memory and
/// status, selected when its PID is the selected one.
pub open spec fn row_view_of<'a>(row: Row<'a>, selected_pid: Option<u32>, selected_group: Option<Seq<char>>) -> RowView {
    match row {
        Row::SectionHeader(title) => (
            0,
            uppercase(title@),
            0,
            Seq::empty(),
            Seq::empty(),
            Seq::empty(),
            Seq::empty(),
            Tone::Normal,
            false,
            false,
            Seq::empty(),
            0,
            false,
        ),
        Row::GroupHeader { g, expanded } => (
            1,
            g.name@,
            0,
            Seq::empty(),
            Seq::empty(),
            bytes_text(g.mem_bytes as nat),
            Seq::empty(),
            Tone::Normal,
            expanded,
            selected_group == Some(g.name@),
            g.name@,
            g.procs@.len() as i32,
            false,
        ),
        Row::Single(p) => proc_view(*p, false, selected_pid),
        Row::Child(p) => proc_view(*p, true, selected_pid),
    }
}

fn copy_text(s: &str) -> (r: String)
    ensures
        r@ == s@,
{
    let mut out = String::new();
    push_lit(&mut out, s);
    out
}

fn proc_text(p: &ProcInfo, indent: bool, selected_pid: Option<u32>) -> (r: RowText)
    ensures
        row_view(r) == proc_view(*p, indent, selected_pid),
{
    let mut pid_text = String::new();
    push_chars(&mut pid_text, &dec_u64(p.pid as u64));
    RowText {
        kind: if indent { 3 } else { 2 },
        label: copy_text(p.name.as_str()),
        pid: p.pid as i32,
        pid_text,
        user: copy_text(p.user.as_str()),
        mem: format_bytes(p.mem_bytes),
        status: copy_text(p.status.as_str()),
        tone: status_tone(p.status.as_str()),
        expanded: false,
        selected: match selected_pid {
            Some(pid) => pid == p.pid,
            None => false,
        },
        group_key: String::new(),
        count: 0,
        indent,
    }
}

/// The text of `row`, given the selected process and group.
pub fn row_text<'a>(row: &Row<'a>, selected_pid: Option<u32>, selected_group: Option<&str>) -> (r: RowText)
    ensures
        row_view(r) == row_view_of(
            *row,
            selected_pid,
            match selected_group {
                Some(g) => Some(g@),
                None => None,
            },
        ),
{
    match row {
        Row::SectionHeader(title) => RowText {
            kind: 0,
            label: to_uppercase(title),
            pid: 0,
            pid_text: String::new(),
            user: String::new(),
            mem: String::new(),
            status: String::new(),
            tone: Tone::Normal,
            expanded: false,
            selected: false,
            group_key: String::new(),
            count: 0,
            indent: false,
        },
        Row::GroupHeader { g, expanded } => {
            let selected = match selected_group {
                Some(name) => chars_eq(&chars_of(name), &chars_of(g.name.as_str())),
                None => false,
            };
            RowText {
                kind: 1,
                label: copy_text(g.name.as_str()),
                pid: 0,
                pid_text: String::new(),
                user: String::new(),
                mem: format_bytes(g.mem_bytes),
                status: String::new(),
                tone: Tone::Normal,
                expanded: *expanded,
                selected,
                group_key: copy_text(g.name.as_str()),
                count: g.procs.len() as i32,
                indent: false,
            }
        },
        Row::Single(p) => proc_text(p, false, selected_pid),
        Row::Child(p) => proc_text(p, true, selected_pid),
    }
}

/// The label under the table: how many processes the snapshot holds.
pub fn process_count_label(n: usize) -> (r: String)
    ensures
        r@ == dec(n as nat) + " processes"@,
{
    let mut out = String::new();
    push_chars(&mut out, &dec_u64(n as u64));
    push_lit(&mut out, " processes");
    out
}

} // verus!
