//! The services table: which units are listed, how their state reads, and
//! what an action's outcome reports.
use vstd::prelude::*;
use crate::text::{chars_eq_lit, chars_of, contains, contains_sub, lowercase, push_chars, push_lit, dec_u64, dec, to_lowercase};

verus! {

/// Whether a unit belongs to the system or to the user's session.
#[derive(Clone, Copy, Debug, PartialEq, Eq, Structural)]
pub enum ServiceScope {
    System,
    User,
}

/// What `systemctl show` reported for a unit, each value as printed (empty
/// when the unit has none).
pub struct ServiceProperties {
    pub description: String,
    pub load_state: String,
    pub active_state: String,
    pub sub_state: String,
    pub unit_file_state: String,
    pub main_pid: String,
    pub user: String,
    pub memory_current: String,
    pub tasks_current: String,
    pub fragment_path: String,
    pub drop_in_paths: Vec<String>,
    pub working_directory: String,
    pub exec_start: String,
}

/// A unit as the table reads it.
pub struct ServiceInfo {
    pub name: String,
    pub scope: ServiceScope,
    pub active: String,
    pub sub: String,
    pub description: String,
}

pub open spec fn scope_text(s: ServiceScope) -> Seq<char> {
    match s {
        ServiceScope::System => "system"@,
        ServiceScope::User => "user"@,
    }
}

pub fn scope_str(s: &ServiceScope) -> (r: &'static str)
    ensures
        r@ == scope_text(*s),
{
    match s {
        ServiceScope::System => "system",
        ServiceScope::User => "user",
    }
}

/// How a state is coloured: good, warning, bad, dimmed, or the normal text
/// colour.
#[derive(Clone, Copy, Debug, PartialEq, Eq, Structural)]
pub enum Tone {
    Good,
    Warn,
    Bad,
    Dim,
    Normal,
}

pub open spec fn tone_of(active: Seq<char>) -> Tone {
    if active == "active"@ {
        Tone::Good
    } else if active == "activating"@ || active == "reloading"@ {
        Tone::Warn
    } else if active == "failed"@ {
        Tone::Bad
    } else {
        Tone::Dim
    }
}

pub fn active_tone(active: &str) -> (r: Tone)
    ensures
        r == tone_of(active@),
{
    let a = chars_of(active);
    if chars_eq_lit(&a, "active") {
        Tone::Good
    } else if chars_eq_lit(&a, "activating") || chars_eq_lit(&a, "reloading") {
        Tone::Warn
    } else if chars_eq_lit(&a, "failed") {
        Tone::Bad
    } else {
        Tone::Dim
    }
}

/// One line of the services table.
pub struct ServiceRow {
    pub index: i32,
    pub name: String,
    pub scope: String,
    pub active: String,
    pub tone: Tone,
    pub sub: String,
    pub description: String,
}

/// A unit is listed when it is running (or all are asked for) and the
/// lower-cased filter is empty or found in its lower-cased name or
/// description.
pub open spec fn listed(s: ServiceInfo, filter: Seq<char>, only_running: bool) -> bool {
    (!only_running || s.active@ == "active"@) && (filter.len() == 0 || contains_sub(
        lowercase(s.name@),
        filter,
    ) || contains_sub(lowercase(s.description@), filter))
}

pub open spec fn service_row_matches(r: ServiceRow, s: ServiceInfo, index: int) -> bool {
    &&& r.index == index as i32
    &&& r.name@ == s.name@
    &&& r.scope@ == scope_text(s.scope)
    &&& r.active@ == s.active@
    &&& r.tone == tone_of(s.active@)
    &&& r.sub@ == s.sub@
    &&& r.description@ == s.description@
}

/// The rows of the listed units, in order.
pub open spec fn service_rows_ok(
    rows: Seq<ServiceRow>,
    ss: Seq<ServiceInfo>,
    filter: Seq<char>,
    only_running: bool,
    n: int,
) -> bool
    decreases n,
{
    if n <= 0 {
        rows.len() == 0
    } else if listed(ss[n - 1], filter, only_running) {
        rows.len() > 0 && service_row_matches(rows.last(), ss[n - 1], n - 1) && service_rows_ok(
            rows.drop_last(),
            ss,
            filter,
            only_running,
            n - 1,
        )
    } else {
        service_rows_ok(rows, ss, filter, only_running, n - 1)
    }
}

fn is_listed(s: &ServiceInfo, f: &Vec<char>, only_running: bool) -> (r: bool)
    ensures
        r == listed(*s, f@, only_running),
{
    if only_running && !chars_eq_lit(&chars_of(s.active.as_str()), "active") {
        return false;
    }
    if f.len() == 0 {
        return true;
    }
    let n = to_lowercase(s.name.as_str());
    if contains(&chars_of(n.as_str()), f) {
        return true;
    }
    let d = to_lowercase(s.description.as_str());
    contains(&chars_of(d.as_str()), f)
}

/// Whether a unit belongs in the table: it is running (`active`) when only
/// running units are asked for, and the filter (lower-cased) is empty or
/// found in its lower-cased name or in its lower-cased description.
pub open spec fn shown_unit(s: ServiceInfo, filter: Seq<char>, only_running: bool) -> bool {
    let running = s.active@ == "active"@;
    let by_name = contains_sub(lowercase(s.name@), filter);
    let by_description = contains_sub(lowercase(s.description@), filter);
    (running || !only_running) && (filter.len() == 0 || by_name || by_description)
}

/// Some row carries position `k` and name `name`.
pub open spec fn has_row(rows: Seq<ServiceRow>, k: int, name: Seq<char>) -> bool {
    exists|j: int| 0 <= j < rows.len() && rows[j].index == k as i32 && rows[j].name@ == name
}

/// The row carries the position and name of one of the first `n` units for
/// which `shown` holds.
pub open spec fn row_of_shown(ss: Seq<ServiceInfo>, n: int, shown: spec_fn(ServiceInfo) -> bool, row: ServiceRow) -> bool {
    exists|k: int| 0 <= k < n && shown(ss[k]) && row.index == k as i32 && row.name@ == ss[k].name@
}

proof fn lemma_rows_listed_core(
    rows: Seq<ServiceRow>,
    ss: Seq<ServiceInfo>,
    filter: Seq<char>,
    only_running: bool,
    n: int,
)
    requires
        0 <= n <= ss.len(),
        service_rows_ok(rows, ss, filter, only_running, n),
    ensures
        forall|k: int|
            0 <= k < n && listed(#[trigger] ss[k], filter, only_running) ==> has_row(rows, k, ss[k].name@),
        forall|j: int|
            0 <= j < rows.len() ==> row_of_shown(ss, n, |s: ServiceInfo| listed(s, filter, only_running), #[trigger] rows[j]),
    decreases n,
{
    let shown = |s: ServiceInfo| listed(s, filter, only_running);
    if n > 0 {
        if listed(ss[n - 1], filter, only_running) {
            let init = rows.drop_last();
            lemma_rows_listed_core(init, ss, filter, only_running, n - 1);
            assert forall|k: int| 0 <= k < n && listed(#[trigger] ss[k], filter, only_running) implies has_row(rows, k, ss[k].name@) by {
                if k < n - 1 {
                    assert(has_row(init, k, ss[k].name@));
                    let j = choose|j: int| 0 <= j < init.len() && init[j].index == k as i32 && init[j].name@ == ss[k].name@;
                    assert(rows[j] == init[j]);
                } else {
                    let j = rows.len() - 1;
                    assert(rows[j] == rows.last());
                }
            }
            assert forall|j: int| 0 <= j < rows.len() implies row_of_shown(ss, n, shown, #[trigger] rows[j]) by {
                if j < rows.len() - 1 {
                    assert(rows[j] == init[j]);
                    assert(row_of_shown(ss, n - 1, shown, init[j]));
                    let k = choose|k: int| 0 <= k < n - 1 && shown(ss[k]) && init[j].index == k as i32 && init[j].name@ == ss[k].name@;
                    assert(0 <= k < n && shown(ss[k]) && rows[j].index == k as i32 && rows[j].name@ == ss[k].name@);
                } else {
                    assert(rows[j] == rows.last());
                    let k = n - 1;
                    assert(0 <= k < n && shown(ss[k]) && rows[j].index == k as i32 && rows[j].name@ == ss[k].name@);
                }
            }
        } else {
            lemma_rows_listed_core(rows, ss, filter, only_running, n - 1);
            assert forall|j: int| 0 <= j < rows.len() implies row_of_shown(ss, n, shown, #[trigger] rows[j]) by {
                assert(row_of_shown(ss, n - 1, shown, rows[j]));
                let k = choose|k: int| 0 <= k < n - 1 && shown(ss[k]) && rows[j].index == k as i32 && rows[j].name@ == ss[k].name@;
                assert(0 <= k < n && shown(ss[k]) && rows[j].index == k as i32 && rows[j].name@ == ss[k].name@);
            }
        }
    }
}

/// The table lists exactly the units that belong in it: each such unit
/// among the first `n` has a row carrying its position and name, and every
/// row carries the position and name of such a unit.
pub proof fn lemma_service_rows_listed(
    rows: Seq<ServiceRow>,
    ss: Seq<ServiceInfo>,
    filter: Seq<char>,
    only_running: bool,
    n: int,
)
    requires
        0 <= n <= ss.len(),
        service_rows_ok(rows, ss, filter, only_running, n),
    ensures
        forall|k: int|
            0 <= k < n && shown_unit(#[trigger] ss[k], filter, only_running) ==> has_row(rows, k, ss[k].name@),
        forall|j: int|
            0 <= j < rows.len() ==> row_of_shown(ss, n, |s: ServiceInfo| shown_unit(s, filter, only_running), #[trigger] rows[j]),
{
    lemma_rows_listed_core(rows, ss, filter, only_running, n);
    assert forall|s: ServiceInfo| #[trigger] listed(s, filter, only_running) == shown_unit(s, filter, only_running) by {}
    let a = |s: ServiceInfo| listed(s, filter, only_running);
    let b = |s: ServiceInfo| shown_unit(s, filter, only_running);
    assert(a =~= b);
}

/// The table's rows for the raw filter text (lower-cased here).
pub fn service_rows(entries: &[ServiceInfo], filter: &str, only_running: bool) -> (r: Vec<ServiceRow>)
    ensures
        service_rows_ok(r@, entries@, lowercase(filter@), only_running, entries@.len() as int),
{
    let lf = to_lowercase(filter);
    let f = chars_of(lf.as_str());
    let mut rows: Vec<ServiceRow> = Vec::new();
    let mut i: usize = 0;
    while i < entries.len()
        invariant
            i <= entries@.len(),
            f@ == lowercase(filter@),
            service_rows_ok(rows@, entries@, f@, only_running, i as int),
        decreases entries.len() - i,
    {
        let s = &entries[i];
        if is_listed(s, &f, only_running) {
            let ghost r0 = rows@;
            let mut scope = String::new();
            push_lit(&mut scope, scope_str(&s.scope));
            rows.push(ServiceRow {
                index: #[verifier::truncate] (i as i32),
                name: s.name.clone(),
                scope,
                active: s.active.clone(),
                tone: active_tone(s.active.as_str()),
                sub: s.sub.clone(),
                description: s.description.clone(),
            });
            proof {
                assert(rows@.drop_last() =~= r0);
            }
        }
        i += 1;
    }
    rows
}

/// `"{shown} units shown"`.
pub fn count_label(shown: usize) -> (r: String)
    ensures
        r@ == dec(shown as nat) + " units shown"@,
{
    let mut out = String::new();
    push_chars(&mut out, &dec_u64(shown as u64));
    push_lit(&mut out, " units shown");
    out
}

/// The message after running `action` on unit `name`: success reads
/// `"{action} {name} ok"`, failure `"{action} {name}: {error}"`. The flag
/// says whether it succeeded (and the list should be reloaded).
pub open spec fn action_text(action: Seq<char>, name: Seq<char>, outcome: Result<(), Seq<char>>) -> (bool, Seq<char>) {
    match outcome {
        Ok(()) => (true, action + " "@ + name + " ok"@),
        Err(e) => (false, action + " "@ + name + ": "@ + e),
    }
}

pub open spec fn outcome_view(o: Result<(), String>) -> Result<(), Seq<char>> {
    match o {
        Ok(()) => Ok(()),
        Err(e) => Err(e@),
    }
}

pub fn action_message(action: &str, name: &str, outcome: &Result<(), String>) -> (r: (bool, String))
    ensures
        (r.0, r.1@) == action_text(action@, name@, outcome_view(*outcome)),
{
    let mut m = String::new();
    push_lit(&mut m, action);
    push_lit(&mut m, " ");
    push_lit(&mut m, name);
    match outcome {
        Ok(()) => {
            push_lit(&mut m, " ok");
            (true, m)
        },
        Err(e) => {
            push_lit(&mut m, ": ");
            push_lit(&mut m, e.as_str());
            (false, m)
        },
    }
}

/// What the services view keeps: the units listed, the filter as typed,
/// the outcome of the last action (success flag and message), and whether
/// only running units are shown.
pub struct State {
    pub entries: Vec<ServiceInfo>,
    pub filter: String,
    pub message: Option<(bool, String)>,
    pub show_only_running: bool,
}

pub open spec fn message_view(m: Option<(bool, String)>) -> Option<(bool, Seq<char>)> {
    match m {
        Some((ok, t)) => Some((ok, t@)),
        None => None,
    }
}

impl State {
    /// The view over the units `entries` (as `systemctl` listed them): no
    /// filter, no message, every unit shown.
    pub fn new(entries: Vec<ServiceInfo>) -> (r: Self)
        ensures
            r.entries == entries,
            r.filter@ == Seq::<char>::empty(),
            r.message is None,
            !r.show_only_running,
    {
        State { entries, filter: String::new(), message: None, show_only_running: false }
    }

    /// Replaces the listed units with a fresh listing.
    pub fn refresh(&mut self, entries: Vec<ServiceInfo>)
        ensures
            final(self).entries == entries,
            final(self).filter == old(self).filter,
            final(self).message == old(self).message,
            final(self).show_only_running == old(self).show_only_running,
    {
        self.entries = entries;
    }

    /// The unit an action on row `index` runs on: its name and scope, or
    /// `None` (no action at all) past the end of the list.
    pub fn action_target(&self, index: usize) -> (r: Option<(String, ServiceScope)>)
        ensures
            match r {
                Some((n, sc)) => index < self.entries@.len() && n@ == self.entries@[index as int].name@ && sc
                    == self.entries@[index as int].scope,
                None => index >= self.entries@.len(),
            },
    {
        if index >= self.entries.len() {
            return None;
        }
        let e = &self.entries[index];
        Some((e.name.clone(), e.scope))
    }

    /// Records the outcome of running `action` on unit `name` as the
    /// message, and says whether the list should be reloaded: exactly when
    /// the action succeeded.
    pub fn record_action(&mut self, action: &str, name: &str, outcome: &Result<(), String>) -> (reload: bool)
        ensures
            message_view(final(self).message) == Some(action_text(action@, name@, outcome_view(*outcome))),
            reload == outcome is Ok,
            final(self).entries == old(self).entries,
            final(self).filter == old(self).filter,
            final(self).show_only_running == old(self).show_only_running,
    {
        let (ok, m) = action_message(action, name, outcome);
        self.message = Some((ok, m));
        ok
    }
}

/// The cached `systemctl show` result for the unit the dialog opened.
pub struct ServicePropertiesView {
    pub name: String,
    pub scope: ServiceScope,
    pub data: ServiceProperties,
}

impl ServicePropertiesView {
    /// The view of unit `name`, from the properties `systemctl show`
    /// reported for it.
    pub fn fetch(name: String, scope: ServiceScope, data: ServiceProperties) -> (r: Self)
        ensures
            r.name == name,
            r.scope == scope,
            r.data == data,
    {
        ServicePropertiesView { name, scope, data }
    }
}

} // verus!
