//! The right-click menus of the tables: which entries they offer, in which
//! order, which are enabled, and the action each dispatches to.
use vstd::prelude::*;
use crate::context_menu::{acts_of, entry_matches, Act, Builder, Line, MenuEntry};
use crate::processes::grouping::{Group, ProcInfo};
use crate::processes::rows::is_stopped;
use crate::services::{ServicePropertiesView, ServiceScope};
use crate::startup::{StartupEntry, StartupSource};
use crate::text::{chars_eq, chars_eq_lit, chars_of, dec, dec_u64, push_chars, push_lit};

verus! {

/// The entries and actions built for the requested lines.
pub open spec fn menu_of(r: (Vec<MenuEntry>, Vec<Act>), lines: Seq<Line>) -> bool {
    &&& r.0@.len() == lines.len()
    &&& forall|k: int| 0 <= k < lines.len() ==> entry_matches(#[trigger] r.0@[k], lines, k)
    &&& r.1@ == acts_of(lines)
}

pub open spec fn item(label: Seq<char>, act: Act, enabled: bool) -> Line {
    (label, Some((act, enabled)))
}

pub open spec fn sep() -> Line {
    (Seq::empty(), None)
}

// ---------------------------------------------------------------------------
// A process.
// ---------------------------------------------------------------------------

/// The menu of a process row. "Open file location" is enabled when the
/// process has an executable path that exists (`exe_exists`, checked by the
/// caller); copying the command line when it has one.
pub open spec fn proc_lines(p: ProcInfo, exe_exists: bool) -> Seq<Line> {
    seq![
        item("End task"@, Act::EndTask, true),
        item("Force kill"@, Act::ForceKill, true),
        item(if is_stopped(p.status@) { "Resume"@ } else { "Suspend"@ }, Act::SuspendResume, true),
        sep(),
        item("Open file location"@, Act::OpenLocation, p.exe@.len() > 0 && exe_exists),
        item("Search online  \u{2197}"@, Act::SearchOnline, true),
        sep(),
        item("Copy PID"@, Act::CopyPid, true),
        item("Copy name"@, Act::CopyName, true),
        item("Copy command line"@, Act::CopyCmd, p.cmd@.len() > 0),
        sep(),
        item("Properties"@, Act::Properties, true),
    ]
}

/// A process's menu offers `Resume` in third place exactly when its status
/// is `Stop` or `Stopped`, else `Suspend`; either way the entry suspends or
/// resumes that process.
pub proof fn lemma_proc_suspend_entry(p: ProcInfo, exe_exists: bool, r: (Vec<MenuEntry>, Vec<Act>))
    requires
        menu_of(r, proc_lines(p, exe_exists)),
    ensures
        r.0@.len() > 2,
        r.0@[2].label@ == (if p.status@ == "Stop"@ || p.status@ == "Stopped"@ {
            "Resume"@
        } else {
            "Suspend"@
        }),
        !r.0@[2].separator,
        r.1@[r.0@[2].action as int] == Act::SuspendResume,
{
    let lines = proc_lines(p, exe_exists);
    assert(entry_matches(r.0@[2], lines, 2));
    crate::context_menu::lemma_entry_action(lines, 2);
    assert(lines.take(2) =~= seq![lines[0], lines[1]]);
    reveal_with_fuel(crate::context_menu::action_count, 3);
    assert(seq![lines[0], lines[1]].drop_last() =~= seq![lines[0]]);
    assert(seq![lines[0]].drop_last() =~= Seq::<crate::context_menu::Line>::empty());
}

fn stopped(status: &String) -> (r: bool)
    ensures
        r == is_stopped(status@),
{
    let s = chars_of(status.as_str());
    chars_eq_lit(&s, "Stop") || chars_eq_lit(&s, "Stopped")
}

pub fn proc_menu(p: &ProcInfo, exe_exists: bool) -> (r: (Vec<MenuEntry>, Vec<Act>))
    ensures
        menu_of(r, proc_lines(*p, exe_exists)),
{
    let mut b = Builder::new();
    b.item("End task", Act::EndTask, true);
    b.item("Force kill", Act::ForceKill, true);
    if stopped(&p.status) {
        b.item("Resume", Act::SuspendResume, true);
    } else {
        b.item("Suspend", Act::SuspendResume, true);
    }
    b.sep();
    b.item("Open file location", Act::OpenLocation, !p.exe.as_str().is_empty() && exe_exists);
    b.item("Search online  \u{2197}", Act::SearchOnline, true);
    b.sep();
    b.item("Copy PID", Act::CopyPid, true);
    b.item("Copy name", Act::CopyName, true);
    b.item("Copy command line", Act::CopyCmd, !p.cmd.as_str().is_empty());
    b.sep();
    b.item("Properties", Act::Properties, true);
    proof {
        assert(b.lines() =~= proc_lines(*p, exe_exists));
    }
    b.finish()
}

// ---------------------------------------------------------------------------
// A group.
// ---------------------------------------------------------------------------

/// The position of the group's representative: its first process with the
/// lowest PID.
pub open spec fn main_of(idx: Seq<usize>, ps: Seq<ProcInfo>) -> Option<int>
    decreases idx.len(),
{
    if idx.len() == 0 {
        None
    } else {
        match main_of(idx.drop_last(), ps) {
            Some(m) => if ps[idx.last() as int].pid < ps[idx[m] as int].pid {
                Some(idx.len() - 1)
            } else {
                Some(m)
            },
            None => Some(idx.len() - 1),
        }
    }
}

/// The representative has the lowest PID of its group, and no process before
/// it in the group has that PID.
pub proof fn lemma_main_is_lowest(idx: Seq<usize>, ps: Seq<ProcInfo>)
    requires
        idx.len() > 0,
    ensures
        main_of(idx, ps) is Some,
        forall|k: int| 0 <= k < idx.len() ==> ps[idx[main_of(idx, ps)->0] as int].pid <= ps[#[trigger] idx[k] as int].pid,
        forall|k: int| 0 <= k < main_of(idx, ps)->0 ==> ps[idx[main_of(idx, ps)->0] as int].pid < ps[#[trigger] idx[k] as int].pid,
    decreases idx.len(),
{
    let rest = idx.drop_last();
    if rest.len() > 0 {
        lemma_main_is_lowest(rest, ps);
        let m = main_of(rest, ps)->0;
        assert(0 <= m < rest.len()) by {
            lemma_main_in_range(rest, ps);
        }
        assert forall|k: int| 0 <= k < rest.len() implies #[trigger] idx[k] == rest[k] by {}
        assert(idx[m] == rest[m]);
    }
}

proof fn lemma_main_in_range(idx: Seq<usize>, ps: Seq<ProcInfo>)
    ensures
        match main_of(idx, ps) {
            Some(m) => 0 <= m < idx.len(),
            None => idx.len() == 0,
        },
    decreases idx.len(),
{
    if idx.len() > 0 {
        lemma_main_in_range(idx.drop_last(), ps);
    }
}

/// The group's representative process (its position in `procs`), if the
/// group has any: the lowest PID, the first such when several share it.
pub fn main_process(g: &Group, procs: &[ProcInfo]) -> (r: Option<usize>)
    requires
        forall|k: int| 0 <= k < g.procs@.len() ==> #[trigger] g.procs@[k] < procs@.len(),
    ensures
        match main_of(g.procs@, procs@) {
            Some(m) => r == Some(g.procs@[m]),
            None => r is None,
        },
        match main_of(g.procs@, procs@) {
            Some(m) => 0 <= m < g.procs@.len(),
            None => g.procs@.len() == 0,
        },
        r matches Some(x) ==> x < procs@.len(),
{
    let mut best: Option<usize> = None;
    let mut i: usize = 0;
    while i < g.procs.len()
        invariant
            i <= g.procs@.len(),
            forall|k: int| 0 <= k < g.procs@.len() ==> #[trigger] g.procs@[k] < procs@.len(),
            match main_of(g.procs@.take(i as int), procs@) {
                Some(m) => 0 <= m < i && best == Some(m as usize),
                None => best is None && i == 0,
            },
        decreases g.procs.len() - i,
    {
        proof {
            assert(g.procs@.take(i + 1).drop_last() =~= g.procs@.take(i as int));
            assert(g.procs@.take(i + 1).last() == g.procs@[i as int]);
            if let Some(m) = main_of(g.procs@.take(i as int), procs@) {
                assert(g.procs@.take(i + 1)[m] == g.procs@[m]);
            }
        }
        match best {
            Some(m) => {
                if procs[g.procs[i]].pid < procs[g.procs[m]].pid {
                    best = Some(i);
                }
            },
            None => {
                best = Some(i);
            },
        }
        i += 1;
    }
    proof {
        assert(g.procs@.take(g.procs@.len() as int) =~= g.procs@);
    }
    match best {
        Some(m) => Some(g.procs[m]),
        None => None,
    }
}

/// Whether every process of the group is stopped.
pub open spec fn all_stopped(idx: Seq<usize>, ps: Seq<ProcInfo>) -> bool {
    forall|k: int| 0 <= k < idx.len() ==> is_stopped(ps[#[trigger] idx[k] as int].status@)
}

pub open spec fn counted(label: Seq<char>, n: nat) -> Seq<char> {
    label + " ("@ + dec(n) + ")"@
}

/// The menu of a group header. The actions on the whole group carry its
/// size; suspend turns into resume when every process is stopped; the
/// representative (see `main_process`) gets "Open file location" (enabled
/// when its executable exists) and "Properties (main process)".
pub open spec fn group_lines(g: Group, ps: Seq<ProcInfo>, main_exe_exists: bool) -> Seq<Line> {
    let n = g.procs@.len();
    let m = main_of(g.procs@, ps);
    seq![
        item(counted("End all"@, n), Act::EndAll, true),
        item(counted("Force kill all"@, n), Act::ForceKillAll, true),
        item(counted(if all_stopped(g.procs@, ps) { "Resume all"@ } else { "Suspend all"@ }, n), Act::SuspendResumeAll, true),
        sep(),
    ] + (match m {
        Some(m) => seq![item("Open file location"@, Act::OpenLocation, ps[g.procs@[m] as int].exe@.len() > 0 && main_exe_exists)],
        None => Seq::empty(),
    }) + seq![
        item("Search online  \u{2197}"@, Act::SearchOnline, true),
        sep(),
        item("Copy name"@, Act::CopyName, true),
        item("Copy all PIDs"@, Act::CopyAllPids, true),
    ] + match m {
        Some(_) => seq![sep(), item("Properties (main process)"@, Act::Properties, true)],
        None => Seq::empty(),
    }
}

fn counted_label(label: &str, n: usize) -> (r: String)
    ensures
        r@ == counted(label@, n as nat),
{
    let mut s = String::new();
    push_lit(&mut s, label);
    push_lit(&mut s, " (");
    push_chars(&mut s, &dec_u64(n as u64));
    push_lit(&mut s, ")");
    s
}

fn group_all_stopped(g: &Group, procs: &[ProcInfo]) -> (r: bool)
    requires
        forall|k: int| 0 <= k < g.procs@.len() ==> #[trigger] g.procs@[k] < procs@.len(),
    ensures
        r == all_stopped(g.procs@, procs@),
{
    let mut i: usize = 0;
    while i < g.procs.len()
        invariant
            i <= g.procs@.len(),
            forall|k: int| 0 <= k < g.procs@.len() ==> #[trigger] g.procs@[k] < procs@.len(),
            forall|k: int| 0 <= k < i ==> is_stopped(procs@[#[trigger] g.procs@[k] as int].status@),
        decreases g.procs.len() - i,
    {
        if !stopped(&procs[g.procs[i]].status) {
            return false;
        }
        i += 1;
    }
    true
}

pub fn group_menu(g: &Group, procs: &[ProcInfo], main_exe_exists: bool) -> (r: (Vec<MenuEntry>, Vec<Act>))
    requires
        forall|k: int| 0 <= k < g.procs@.len() ==> #[trigger] g.procs@[k] < procs@.len(),
    ensures
        menu_of(r, group_lines(*g, procs@, main_exe_exists)),
{
    let n = g.procs.len();
    let mut b = Builder::new();
    let end_all = counted_label("End all", n);
    b.item(end_all.as_str(), Act::EndAll, true);
    let kill_all = counted_label("Force kill all", n);
    b.item(kill_all.as_str(), Act::ForceKillAll, true);
    let susp = if group_all_stopped(g, procs) {
        counted_label("Resume all", n)
    } else {
        counted_label("Suspend all", n)
    };
    b.item(susp.as_str(), Act::SuspendResumeAll, true);
    b.sep();
    let main = main_process(g, procs);
    let ghost l1 = b.lines();
    match main {
        Some(m) => {
            b.item("Open file location", Act::OpenLocation, !procs[m].exe.as_str().is_empty() && main_exe_exists);
        },
        None => {},
    }
    let ghost l2 = b.lines();
    b.item("Search online  \u{2197}", Act::SearchOnline, true);
    b.sep();
    b.item("Copy name", Act::CopyName, true);
    b.item("Copy all PIDs", Act::CopyAllPids, true);
    let ghost l3 = b.lines();
    match main {
        Some(_) => {
            b.sep();
            b.item("Properties (main process)", Act::Properties, true);
        },
        None => {},
    }
    proof {
        let m = main_of(g.procs@, procs@);
        assert(l2 =~= l1 + match m {
            Some(m) => seq![item("Open file location"@, Act::OpenLocation, procs@[g.procs@[m] as int].exe@.len() > 0 && main_exe_exists)],
            None => Seq::<Line>::empty(),
        });
        assert(b.lines() =~= l3 + match m {
            Some(_) => seq![sep(), item("Properties (main process)"@, Act::Properties, true)],
            None => Seq::<Line>::empty(),
        });
        assert(b.lines() =~= group_lines(*g, procs@, main_exe_exists));
    }
    b.finish()
}

/// The group menu's third entry suspends or resumes the whole group: it
/// reads `Resume all (n)` exactly when every process of the group has status
/// `Stop` or `Stopped`, and `Suspend all (n)` as soon as one has another
/// status, `n` being the group's size.
pub proof fn lemma_group_suspend_entry(g: Group, ps: Seq<ProcInfo>, main_exe_exists: bool, r: (Vec<MenuEntry>, Vec<Act>))
    requires
        menu_of(r, group_lines(g, ps, main_exe_exists)),
    ensures
        r.0@.len() > 2,
        r.0@[2].label@ == (if forall|k: int|
            0 <= k < g.procs@.len() ==> (#[trigger] ps[g.procs@[k] as int]).status@ == "Stop"@ || ps[g.procs@[k] as int].status@
                == "Stopped"@ {
            "Resume all ("@
        } else {
            "Suspend all ("@
        }) + dec(g.procs@.len()) + ")"@,
        !r.0@[2].separator,
{
    let lines = group_lines(g, ps, main_exe_exists);
    assert(lines[2] == item(
        counted(if all_stopped(g.procs@, ps) { "Resume all"@ } else { "Suspend all"@ }, g.procs@.len()),
        Act::SuspendResumeAll,
        true,
    ));
    assert(entry_matches(r.0@[2], lines, 2));
    reveal_strlit("Resume all");
    reveal_strlit("Resume all (");
    reveal_strlit("Suspend all");
    reveal_strlit("Suspend all (");
    reveal_strlit(" (");
    assert("Resume all"@ + " ("@ =~= "Resume all ("@);
    assert("Suspend all"@ + " ("@ =~= "Suspend all ("@);
    let stopped_all = forall|k: int|
        0 <= k < g.procs@.len() ==> (#[trigger] ps[g.procs@[k] as int]).status@ == "Stop"@ || ps[g.procs@[k] as int].status@
            == "Stopped"@;
    assert(all_stopped(g.procs@, ps) == stopped_all) by {
        if all_stopped(g.procs@, ps) {
            assert forall|k: int| 0 <= k < g.procs@.len() implies (#[trigger] ps[g.procs@[k] as int]).status@ == "Stop"@
                || ps[g.procs@[k] as int].status@ == "Stopped"@ by {
                assert(is_stopped(ps[g.procs@[k] as int].status@));
            }
        }
        if stopped_all {
            assert forall|k: int| 0 <= k < g.procs@.len() implies is_stopped(ps[#[trigger] g.procs@[k] as int].status@) by {
                assert(ps[g.procs@[k] as int].status@ == "Stop"@ || ps[g.procs@[k] as int].status@ == "Stopped"@);
            }
        }
    }
}

/// The group's PIDs, space-separated, in the group's order.
pub open spec fn pids_text(idx: Seq<usize>, ps: Seq<ProcInfo>) -> Seq<char>
    decreases idx.len(),
{
    if idx.len() == 0 {
        Seq::empty()
    } else if idx.len() == 1 {
        dec(ps[idx[0] as int].pid as nat)
    } else {
        pids_text(idx.drop_last(), ps) + " "@ + dec(ps[idx.last() as int].pid as nat)
    }
}

/// What "Copy all PIDs" copies.
pub fn all_pids(g: &Group, procs: &[ProcInfo]) -> (r: String)
    requires
        forall|k: int| 0 <= k < g.procs@.len() ==> #[trigger] g.procs@[k] < procs@.len(),
    ensures
        r@ == pids_text(g.procs@, procs@),
{
    let mut out = String::new();
    let mut i: usize = 0;
    proof {
        assert(g.procs@.take(0) =~= Seq::<usize>::empty());
    }
    while i < g.procs.len()
        invariant
            i <= g.procs@.len(),
            forall|k: int| 0 <= k < g.procs@.len() ==> #[trigger] g.procs@[k] < procs@.len(),
            out@ == pids_text(g.procs@.take(i as int), procs@),
        decreases g.procs.len() - i,
    {
        proof {
            assert(g.procs@.take(i + 1).drop_last() =~= g.procs@.take(i as int));
            assert(g.procs@.take(i + 1).last() == g.procs@[i as int]);
        }
        if i > 0 {
            push_lit(&mut out, " ");
        } else {
            proof {
                assert(g.procs@.take(1)[0] == g.procs@[0]);
            }
        }
        push_chars(&mut out, &dec_u64(procs[g.procs[i]].pid as u64));
        i += 1;
    }
    proof {
        assert(g.procs@.take(g.procs@.len() as int) =~= g.procs@);
    }
    out
}

// ---------------------------------------------------------------------------
// Services and startup entries.
// ---------------------------------------------------------------------------

pub open spec fn service_lines() -> Seq<Line> {
    seq![
        item("Start"@, Act::SvcStart, true),
        item("Stop"@, Act::SvcStop, true),
        item("Restart"@, Act::SvcRestart, true),
        sep(),
        item("Copy unit name"@, Act::CopyUnit, true),
        sep(),
        item("Properties"@, Act::Properties, true),
    ]
}

/// The menu of a service row.
pub fn service_menu() -> (r: (Vec<MenuEntry>, Vec<Act>))
    ensures
        menu_of(r, service_lines()),
{
    let mut b = Builder::new();
    b.item("Start", Act::SvcStart, true);
    b.item("Stop", Act::SvcStop, true);
    b.item("Restart", Act::SvcRestart, true);
    b.sep();
    b.item("Copy unit name", Act::CopyUnit, true);
    b.sep();
    b.item("Properties", Act::Properties, true);
    proof {
        assert(b.lines() =~= service_lines());
    }
    b.finish()
}

/// The menu of a startup row: copying its name, opening its `.desktop`
/// file (desktop entries only: a systemd entry's path is a unit name), and
/// its properties.
pub open spec fn startup_menu_lines(e: StartupEntry) -> Seq<Line> {
    seq![item("Copy name"@, Act::CopyName, true)] + (if e.source == StartupSource::UserAutostart
        || e.source == StartupSource::SystemAutostart {
        seq![item("Open .desktop file"@, Act::OpenDesktop, true)]
    } else {
        Seq::empty()
    }) + seq![sep(), item("Properties"@, Act::Properties, true)]
}

pub fn startup_menu(e: &StartupEntry) -> (r: (Vec<MenuEntry>, Vec<Act>))
    ensures
        menu_of(r, startup_menu_lines(*e)),
{
    let mut b = Builder::new();
    b.item("Copy name", Act::CopyName, true);
    if e.source == StartupSource::UserAutostart || e.source == StartupSource::SystemAutostart {
        b.item("Open .desktop file", Act::OpenDesktop, true);
    }
    b.sep();
    b.item("Properties", Act::Properties, true);
    proof {
        assert(b.lines() =~= startup_menu_lines(*e));
    }
    b.finish()
}

/// Opening the Properties of a unit fetches its properties again unless
/// they are already held for that same unit.
pub fn needs_fetch(current: Option<&ServicePropertiesView>, name: &str, scope: ServiceScope) -> (r: bool)
    ensures
        r == match current {
            Some(v) => !(v.name@ == name@ && v.scope == scope),
            None => true,
        },
{
    match current {
        Some(v) => !(crate::text::chars_eq(&chars_of(v.name.as_str()), &chars_of(name)) && v.scope == scope),
        None => true,
    }
}

} // verus!
