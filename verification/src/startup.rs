//! The startup-programs table: its rows, the boot-time text, the filters and
//! what a toggle or the Properties dialog does.
use vstd::prelude::*;
use vstd::arithmetic::power2::{lemma2_to64, lemma2_to64_rest};
use crate::numfmt::{
    fixed_digits, fixed_digits_exec, hundredths, hundredths_text, lemma_fixed_small, nearest_double,
    nearest_double_exec,
};
use crate::paths::{file_name_of, file_name_or_empty};
use crate::services::{ServiceProperties, ServiceScope};
use crate::text::{
    chars_of, contains, contains_sub, dec, dec_u64, has_prefix, lowercase, push_chars, push_lit,
    slice_chars, starts_with_lit, string_of, to_lowercase, trim, trim_chars,
};

verus! {

/// Where a startup entry comes from.
#[derive(Clone, Copy, Debug, PartialEq, Eq, Structural)]
pub enum StartupSource {
    UserAutostart,
    SystemAutostart,
    SystemdSystem,
    SystemdUser,
}

/// A startup entry as the table reads it.
pub struct StartupEntry {
    pub name: String,
    pub path: String,
    pub source: StartupSource,
    pub comment: String,
    pub command: String,
    pub icon: String,
    pub boot_time_ms: Option<u64>,
    pub enabled: bool,
    pub critical: bool,
}

pub open spec fn badge_text(s: StartupSource) -> Seq<char> {
    match s {
        StartupSource::UserAutostart => "user · autostart"@,
        StartupSource::SystemAutostart => "system · autostart"@,
        StartupSource::SystemdSystem => "system · systemd"@,
        StartupSource::SystemdUser => "user · systemd"@,
    }
}

pub fn scope_badge(s: &StartupSource) -> (r: &'static str)
    ensures
        r@ == badge_text(*s),
{
    match s {
        StartupSource::UserAutostart => "user · autostart",
        StartupSource::SystemAutostart => "system · autostart",
        StartupSource::SystemdSystem => "system · systemd",
        StartupSource::SystemdUser => "user · systemd",
    }
}

/// The name shown for an entry: its own, or else its file's name.
pub open spec fn shown_name(e: StartupEntry) -> Seq<char> {
    if e.name@.len() == 0 {
        file_name_or_empty(e.path@)
    } else {
        e.name@
    }
}

pub fn entry_name(e: &StartupEntry) -> (r: String)
    ensures
        r@ == shown_name(*e),
{
    if e.name.as_str().is_empty() {
        match file_name_of(&chars_of(e.path.as_str())) {
            Some(f) => string_of(&f),
            None => String::new(),
        }
    } else {
        e.name.clone()
    }
}

// ---------------------------------------------------------------------------
// Boot time.
// ---------------------------------------------------------------------------

/// The boot time shown: a dash when unknown, `<1 ms`, whole milliseconds
/// below a second, seconds with two decimals below a minute, else minutes
/// and seconds.
pub open spec fn boot_time_text(ms: Option<u64>) -> Seq<char> {
    match ms {
        None => "\u{2014}"@,
        Some(ms) => if ms == 0 {
            "<1 ms"@
        } else if ms < 1000 {
            dec(ms as nat) + " ms"@
        } else if ms < 60000 {
            let (m, s) = nearest_double(ms as nat, 1000);
            hundredths_text(fixed_digits(m, s, 2)) + " s"@
        } else {
            let total = ms / 1000;
            dec((total / 60) as nat) + "m "@ + dec((total % 60) as nat) + "s"@
        },
    }
}

pub fn format_boot_time(ms: Option<u64>) -> (r: String)
    ensures
        r@ == boot_time_text(ms),
{
    let mut out = String::new();
    match ms {
        None => {
            push_lit(&mut out, "\u{2014}");
        },
        Some(ms) => {
            if ms == 0 {
                push_lit(&mut out, "<1 ms");
            } else if ms < 1000 {
                push_chars(&mut out, &dec_u64(ms));
                push_lit(&mut out, " ms");
            } else if ms < 60000 {
                let (m, s) = nearest_double_exec(ms as u128, 1000);
                let n = fixed_digits_exec(m, s, 2);
                proof {
                    lemma2_to64();
                    lemma2_to64_rest();
                    lemma_fixed_small(m as nat, s as int, ms as nat);
                }
                push_chars(&mut out, &hundredths(n as u64));
                push_lit(&mut out, " s");
            } else {
                let total = ms / 1000;
                push_chars(&mut out, &dec_u64(total / 60));
                push_lit(&mut out, "m ");
                push_chars(&mut out, &dec_u64(total % 60));
                push_lit(&mut out, "s");
            }
        },
    }
    out
}

// ---------------------------------------------------------------------------
// Rows.
// ---------------------------------------------------------------------------

/// One line of the startup table.
pub struct StartupRow {
    pub index: i32,
    pub name: String,
    pub badge: String,
    pub comment: String,
    pub command: String,
    pub boot_time: String,
    pub boot_known: bool,
    pub enabled: bool,
    pub locked: bool,
    pub is_desktop: bool,
}

/// The row drawn for the entry at `index`.
pub open spec fn row_matches(r: StartupRow, e: StartupEntry, index: int) -> bool {
    &&& r.index == index as i32
    &&& r.name@ == shown_name(e)
    &&& r.badge@ == badge_text(e.source)
    &&& r.comment@ == e.comment@
    &&& r.command@ == e.command@
    &&& r.boot_time@ == boot_time_text(e.boot_time_ms)
    &&& r.boot_known == e.boot_time_ms is Some
    &&& r.enabled == e.enabled
    &&& r.locked == e.critical
    &&& r.is_desktop == (e.source == StartupSource::UserAutostart || e.source
        == StartupSource::SystemAutostart)
}

pub fn to_row(e: &StartupEntry, index: usize) -> (r: StartupRow)
    ensures
        row_matches(r, *e, index as int),
{
    let mut badge = String::new();
    push_lit(&mut badge, scope_badge(&e.source));
    StartupRow {
        index: #[verifier::truncate] (index as i32),
        name: entry_name(e),
        badge,
        comment: e.comment.clone(),
        command: e.command.clone(),
        boot_time: format_boot_time(e.boot_time_ms),
        boot_known: e.boot_time_ms.is_some(),
        enabled: e.enabled,
        locked: e.critical,
        is_desktop: e.source == StartupSource::UserAutostart || e.source
            == StartupSource::SystemAutostart,
    }
}

/// An entry passes a (lower-cased) text filter when the filter is empty or
/// its lower-cased name or command contains it.
pub open spec fn text_passes(e: StartupEntry, filter: Seq<char>) -> bool {
    filter.len() == 0 || contains_sub(lowercase(e.name@), filter) || contains_sub(
        lowercase(e.command@),
        filter,
    )
}

/// The text the entries are filtered by: none while a time filter is
/// typed, else the typed text trimmed and lower-cased.
pub fn text_filter(raw: &str, time_filter: bool) -> (r: String)
    ensures
        r@ == if time_filter {
            Seq::<char>::empty()
        } else {
            lowercase(trim(raw@))
        },
{
    if time_filter {
        return String::new();
    }
    let t = string_of(&trim_chars(&chars_of(raw)));
    to_lowercase(t.as_str())
}

pub fn text_filter_passes(e: &StartupEntry, filter: &str) -> (r: bool)
    ensures
        r == text_passes(*e, filter@),
{
    let f = chars_of(filter);
    if f.len() == 0 {
        return true;
    }
    let name = to_lowercase(e.name.as_str());
    if contains(&chars_of(name.as_str()), &f) {
        return true;
    }
    let cmd = to_lowercase(e.command.as_str());
    contains(&chars_of(cmd.as_str()), &f)
}

/// An entry passes the text filter exactly when the filter is empty or
/// found in its lower-cased name or in its lower-cased command.
pub proof fn lemma_text_filter_passes(e: StartupEntry, filter: Seq<char>, r: bool)
    requires
        r == text_passes(e, filter),
    ensures
        r <==> (filter.len() == 0 || contains_sub(lowercase(e.name@), filter) || contains_sub(
            lowercase(e.command@),
            filter,
        )),
{
}

/// The rows of the entries that pass (`pass[i]` for `entries[i]`), in
/// order: critical entries in the second list, the others in the first.
pub open spec fn rows_ok(
    rows: Seq<StartupRow>,
    es: Seq<StartupEntry>,
    pass: Seq<bool>,
    critical: bool,
    n: int,
) -> bool
    decreases n,
{
    if n <= 0 {
        rows.len() == 0
    } else if pass[n - 1] && es[n - 1].critical == critical {
        rows.len() > 0 && row_matches(rows.last(), es[n - 1], n - 1) && rows_ok(
            rows.drop_last(),
            es,
            pass,
            critical,
            n - 1,
        )
    } else {
        rows_ok(rows, es, pass, critical, n - 1)
    }
}

pub fn startup_rows(entries: &[StartupEntry], pass: &[bool]) -> (r: (Vec<StartupRow>, Vec<StartupRow>))
    requires
        pass@.len() == entries@.len(),
    ensures
        rows_ok(r.0@, entries@, pass@, false, entries@.len() as int),
        rows_ok(r.1@, entries@, pass@, true, entries@.len() as int),
{
    let mut normal: Vec<StartupRow> = Vec::new();
    let mut critical: Vec<StartupRow> = Vec::new();
    let mut i: usize = 0;
    while i < entries.len()
        invariant
            i <= entries@.len() == pass@.len(),
            rows_ok(normal@, entries@, pass@, false, i as int),
            rows_ok(critical@, entries@, pass@, true, i as int),
        decreases entries.len() - i,
    {
        let ghost n0 = normal@;
        let ghost c0 = critical@;
        if pass[i] {
            let row = to_row(&entries[i], i);
            if entries[i].critical {
                critical.push(row);
                proof {
                    assert(critical@.drop_last() =~= c0);
                }
            } else {
                normal.push(row);
                proof {
                    assert(normal@.drop_last() =~= n0);
                }
            }
        }
        i += 1;
    }
    (normal, critical)
}

// ---------------------------------------------------------------------------
// The time filter.
// ---------------------------------------------------------------------------

/// A comparison against a boot time in seconds; a bare number means `>=`.
#[derive(Clone, Copy, Debug, PartialEq, Eq, Structural)]
pub enum Op {
    Ge,
    Gt,
    Le,
    Lt,
    Eq,
}

/// Drops trailing `c` characters (`str::trim_end_matches`).
pub open spec fn trim_end_char(s: Seq<char>, c: char) -> Seq<char>
    decreases s.len(),
{
    if s.len() > 0 && s.last() == c {
        trim_end_char(s.drop_last(), c)
    } else {
        s
    }
}

/// The operator a filter starts with and the number text after it, with
/// spaces and a trailing `s` unit removed; `None` for an empty filter.
pub open spec fn time_filter_parts(raw: Seq<char>) -> Option<(Op, Seq<char>)> {
    let s = trim(raw);
    if s.len() == 0 {
        None
    } else {
        let (op, rest) = if has_prefix(s, ">="@) {
            (Op::Ge, s.skip(2))
        } else if has_prefix(s, "<="@) {
            (Op::Le, s.skip(2))
        } else if has_prefix(s, ">"@) {
            (Op::Gt, s.skip(1))
        } else if has_prefix(s, "<"@) {
            (Op::Lt, s.skip(1))
        } else if has_prefix(s, "="@) {
            (Op::Eq, s.skip(1))
        } else {
            (Op::Ge, s)
        };
        Some((op, trim(trim_end_char(trim(rest), 's'))))
    }
}

/// Splits a time filter into its operator and the number text that follows;
/// whether that text is a number the caller decides by parsing it.
pub fn split_time_filter(raw: &str) -> (r: Option<(Op, String)>)
    ensures
        match r {
            Some((op, t)) => time_filter_parts(raw@) == Some((op, t@)),
            None => time_filter_parts(raw@) is None,
        },
{
    let s = trim_chars(&chars_of(raw));
    if s.len() == 0 {
        return None;
    }
    proof {
        reveal_strlit(">=");
        reveal_strlit("<=");
        reveal_strlit(">");
        reveal_strlit("<");
        reveal_strlit("=");
    }
    let (op, skip): (Op, usize) = if starts_with_lit(&s, ">=") {
        (Op::Ge, 2)
    } else if starts_with_lit(&s, "<=") {
        (Op::Le, 2)
    } else if starts_with_lit(&s, ">") {
        (Op::Gt, 1)
    } else if starts_with_lit(&s, "<") {
        (Op::Lt, 1)
    } else if starts_with_lit(&s, "=") {
        (Op::Eq, 1)
    } else {
        (Op::Ge, 0)
    };
    let rest = slice_chars(&s, skip, s.len());
    proof {
        assert(rest@ =~= s@.skip(skip as int));
        assert(s@.skip(0) =~= s@);
    }
    let t = trim_chars(&rest);
    let mut j = t.len();
    proof {
        assert(t@.take(j as int) =~= t@);
    }
    while j > 0 && t[j - 1] == 's'
        invariant
            j <= t@.len(),
            trim_end_char(t@, 's') == trim_end_char(t@.take(j as int), 's'),
        decreases j,
    {
        proof {
            assert(t@.take(j as int).drop_last() =~= t@.take(j - 1));
        }
        j -= 1;
    }
    let u = slice_chars(&t, 0, j);
    proof {
        assert(u@ =~= t@.take(j as int));
    }
    let v = trim_chars(&u);
    Some((op, string_of(&v)))
}

// ---------------------------------------------------------------------------
// Toggling and the Properties dialog.
// ---------------------------------------------------------------------------

/// After an attempt to enable or disable the entry at `index`: on success
/// the entry takes the new state, its other fields unchanged, and the error
/// clears; on failure the
/// entry stays and the error names it. An index past the end changes
/// nothing.
pub fn apply_toggle(
    entries: &mut Vec<StartupEntry>,
    error: &mut Option<String>,
    index: usize,
    enabled: bool,
    outcome: Result<(), String>,
)
    ensures
        index >= old(entries)@.len() ==> final(entries)@ == old(entries)@ && *final(error) == *old(error),
        index < old(entries)@.len() ==> match outcome {
            Ok(()) => final(entries)@.len() == old(entries)@.len()
                && (forall|k: int| 0 <= k < old(entries)@.len() && k != index ==> final(entries)@[k] == old(entries)@[k])
                && final(entries)@[index as int] == (StartupEntry {
                    enabled: enabled,
                    ..old(entries)@[index as int]
                })
                && *final(error) == None::<String>,
            Err(e) => final(entries)@ == old(entries)@ && match *final(error) {
                Some(m) => m@ == "Failed to toggle "@ + old(entries)@[index as int].name@ + ": "@ + e@,
                None => false,
            },
        },
{
    if index >= entries.len() {
        return;
    }
    match outcome {
        Ok(()) => {
            let mut e = entries.remove(index);
            e.enabled = enabled;
            entries.insert(index, e);
            *error = None;
        },
        Err(e) => {
            let mut m = String::new();
            push_lit(&mut m, "Failed to toggle ");
            push_lit(&mut m, entries[index].name.as_str());
            push_lit(&mut m, ": ");
            push_lit(&mut m, e.as_str());
            *error = Some(m);
        },
    }
}

/// The systemd unit and scope whose properties the dialog shows for the
/// entry at `idx`: only systemd-sourced entries have one.
pub open spec fn systemd_unit_of(es: Seq<StartupEntry>, idx: int) -> Option<(Seq<char>, ServiceScope)> {
    if 0 <= idx < es.len() && (es[idx].source == StartupSource::SystemdSystem || es[idx].source
        == StartupSource::SystemdUser) {
        Some(
            (
                es[idx].command@,
                if es[idx].source == StartupSource::SystemdUser {
                    ServiceScope::User
                } else {
                    ServiceScope::System
                },
            ),
        )
    } else {
        None
    }
}

pub fn systemd_unit(entries: &[StartupEntry], idx: usize) -> (r: Option<(String, ServiceScope)>)
    ensures
        match r {
            Some((u, s)) => systemd_unit_of(entries@, idx as int) == Some((u@, s)),
            None => systemd_unit_of(entries@, idx as int) is None,
        },
{
    if idx >= entries.len() {
        return None;
    }
    let e = &entries[idx];
    if e.source == StartupSource::SystemdSystem || e.source == StartupSource::SystemdUser {
        let scope = if e.source == StartupSource::SystemdUser {
            ServiceScope::User
        } else {
            ServiceScope::System
        };
        Some((e.command.clone(), scope))
    } else {
        None
    }
}

/// What the Properties dialog of a startup row holds: the row and, for a
/// systemd unit, its properties.
pub struct StartupPropertiesView {
    pub idx: usize,
    pub systemd: Option<ServiceProperties>,
}

/// The dialog's view for row `idx`. `fetched` is what `systemctl show`
/// reported for `systemd_unit(entries, idx)`; it is kept only when that row
/// is a systemd unit, and a desktop-entry row, or an index past the end,
/// holds no properties.
pub fn build_properties_view(
    entries: &[StartupEntry],
    idx: usize,
    fetched: Option<ServiceProperties>,
) -> (r: StartupPropertiesView)
    ensures
        r.idx == idx,
        r.systemd == match systemd_unit_of(entries@, idx as int) {
            Some(_) => fetched,
            None => None,
        },
{
    let systemd = match systemd_unit(entries, idx) {
        Some(_) => fetched,
        None => None,
    };
    StartupPropertiesView { idx, systemd }
}

} // verus!
