//! The visible rows of the process table, what each row points at, and the
//! selection, expansion and sort choices the table keeps between frames.
use vstd::prelude::*;
use crate::processes::grouping::{Group, ProcInfo};
use crate::processes::sort::SortKey;
use crate::icons::Resolver;
use crate::icons::freedesktop::has_entry_spec;
use crate::text::{chars_of, contains, contains_sub, dec, dec_u64, lowercase, string_of, to_lowercase, trim, trim_chars};

verus! {

/// One line of the table.
pub enum Row<'a> {
    SectionHeader(&'static str),
    GroupHeader { g: &'a Group, expanded: bool },
    Single(&'a ProcInfo),
    Child(&'a ProcInfo),
}

// ---------------------------------------------------------------------------
// Expanded groups.
// ---------------------------------------------------------------------------

/// The names of the groups the user expanded.
pub struct ExpandedSet {
    names: vstd::hash_set::StringHashSet,
}

impl View for ExpandedSet {
    type V = Set<Seq<char>>;

    closed spec fn view(&self) -> Set<Seq<char>> {
        self.names@
    }
}

impl ExpandedSet {
    pub fn new() -> (r: Self)
        ensures
            r@ == Set::<Seq<char>>::empty(),
    {
        ExpandedSet { names: vstd::hash_set::StringHashSet::new() }
    }

    pub fn contains(&self, name: &str) -> (r: bool)
        ensures
            r == self@.contains(name@),
    {
        self.names.contains(name)
    }

    /// Expands a collapsed group and collapses an expanded one.
    pub fn toggle(&mut self, name: &str)
        ensures
            final(self)@ == (if old(self)@.contains(name@) {
                old(self)@.remove(name@)
            } else {
                old(self)@.insert(name@)
            }),
    {
        if !self.names.remove(name) {
            self.names.insert(string_of(&chars_of(name)));
        }
    }
}

/// Toggling a group twice leaves the expanded set as it was.
pub proof fn lemma_toggle_twice(s: Set<Seq<char>>, name: Seq<char>)
    ensures
        ({
            let once = if s.contains(name) {
                s.remove(name)
            } else {
                s.insert(name)
            };
            let twice = if once.contains(name) {
                once.remove(name)
            } else {
                once.insert(name)
            };
            twice == s
        }),
{
    if s.contains(name) {
        assert(s.remove(name).insert(name) =~= s);
    } else {
        assert(s.insert(name).remove(name) =~= s);
    }
}

// ---------------------------------------------------------------------------
// Sections.
// ---------------------------------------------------------------------------

pub open spec fn child_rows<'a>(idx: Seq<usize>, ps: &'a [ProcInfo]) -> Seq<Row<'a>>
    decreases idx.len(),
{
    if idx.len() == 0 {
        Seq::empty()
    } else {
        child_rows(idx.drop_last(), ps).push(Row::Child(&ps@[idx.last() as int]))
    }
}

/// A group's rows: a lone process stands alone; otherwise a header, expanded
/// when filtering or when the user expanded it, then its processes if
/// expanded.
pub open spec fn group_rows<'a>(
    g: &'a Group,
    ps: &'a [ProcInfo],
    filter_active: bool,
    expanded: Set<Seq<char>>,
) -> Seq<Row<'a>> {
    if g.procs@.len() == 1 {
        seq![Row::Single(&ps@[g.procs@[0] as int])]
    } else {
        let e = filter_active || expanded.contains(g.name@);
        seq![Row::GroupHeader { g, expanded: e }] + if e {
            child_rows(g.procs@, ps)
        } else {
            Seq::empty()
        }
    }
}

pub open spec fn groups_rows<'a>(
    gs: &'a [Group],
    n: int,
    ps: &'a [ProcInfo],
    filter_active: bool,
    expanded: Set<Seq<char>>,
) -> Seq<Row<'a>>
    decreases n,
{
    if n <= 0 {
        Seq::empty()
    } else {
        groups_rows(gs, n - 1, ps, filter_active, expanded) + group_rows(
            &gs@[n - 1],
            ps,
            filter_active,
            expanded,
        )
    }
}

/// A section: nothing when it has no groups, else its title and its groups.
pub open spec fn section_rows<'a>(
    title: &'static str,
    gs: &'a [Group],
    ps: &'a [ProcInfo],
    filter_active: bool,
    expanded: Set<Seq<char>>,
) -> Seq<Row<'a>> {
    if gs@.len() == 0 {
        Seq::empty()
    } else {
        seq![Row::SectionHeader(title)] + groups_rows(gs, gs@.len() as int, ps, filter_active, expanded)
    }
}

/// Appends a section's rows to `visible`.
pub fn append_section<'a>(
    visible: &mut Vec<Row<'a>>,
    title: &'static str,
    groups: &'a [Group],
    procs: &'a [ProcInfo],
    filter_active: bool,
    expanded: &ExpandedSet,
)
    requires
        forall|a: int, k: int|
            0 <= a < groups@.len() && 0 <= k < groups@[a].procs@.len() ==> #[trigger] groups@[a].procs@[k]
                < procs@.len(),
    ensures
        final(visible)@ == old(visible)@ + section_rows(title, groups, procs, filter_active, expanded@),
{
    if groups.len() == 0 {
        proof {
            assert(old(visible)@ + section_rows(title, groups, procs, filter_active, expanded@) =~= old(visible)@);
        }
        return;
    }
    let ghost start = visible@;
    visible.push(Row::SectionHeader(title));
    let mut i: usize = 0;
    while i < groups.len()
        invariant
            i <= groups@.len(),
            forall|a: int, k: int|
                0 <= a < groups@.len() && 0 <= k < groups@[a].procs@.len() ==> #[trigger] groups@[a].procs@[k]
                    < procs@.len(),
            visible@ == start + seq![Row::SectionHeader(title)] + groups_rows(
                groups,
                i as int,
                procs,
                filter_active,
                expanded@,
            ),
        decreases groups.len() - i,
    {
        let g = &groups[i];
        let ghost before = visible@;
        if g.procs.len() == 1 {
            visible.push(Row::Single(&procs[g.procs[0]]));
        } else {
            let e = filter_active || expanded.contains(g.name.as_str());
            visible.push(Row::GroupHeader { g, expanded: e });
            if e {
                let ghost mid = visible@;
                let mut k: usize = 0;
                while k < g.procs.len()
                    invariant
                        k <= g.procs@.len(),
                        g == &groups@[i as int],
                        forall|j: int| 0 <= j < g.procs@.len() ==> #[trigger] g.procs@[j] < procs@.len(),
                        visible@ == mid + child_rows(g.procs@.take(k as int), procs),
                    decreases g.procs.len() - k,
                {
                    visible.push(Row::Child(&procs[g.procs[k]]));
                    proof {
                        assert(g.procs@.take(k + 1).drop_last() =~= g.procs@.take(k as int));
                    }
                    k += 1;
                }
                proof {
                    assert(g.procs@.take(g.procs@.len() as int) =~= g.procs@);
                }
            }
        }
        proof {
            assert(visible@ =~= before + group_rows(&groups@[i as int], procs, filter_active, expanded@));
        }
        i += 1;
    }
}

// ---------------------------------------------------------------------------
// What a row points at, and the selection.
// ---------------------------------------------------------------------------

/// What a visible row points at, so a click by row index resolves to a
/// selection without rebuilding the table.
#[derive(Debug)]
pub enum RowRef {
    Section,
    Group(String),
    Proc(u32),
}

impl Clone for RowRef {
    fn clone(&self) -> (r: Self)
        ensures
            r == *self,
    {
        match self {
            RowRef::Section => RowRef::Section,
            RowRef::Group(name) => RowRef::Group(name.clone()),
            RowRef::Proc(pid) => RowRef::Proc(*pid),
        }
    }
}

pub open spec fn ref_of<'a>(row: Row<'a>) -> RowRef {
    match row {
        Row::SectionHeader(_) => RowRef::Section,
        Row::GroupHeader { g, .. } => RowRef::Group(g.name),
        Row::Single(p) => RowRef::Proc(p.pid),
        Row::Child(p) => RowRef::Proc(p.pid),
    }
}

/// The reference of each row, in row order.
pub fn row_refs<'a>(rows: &Vec<Row<'a>>) -> (r: Vec<RowRef>)
    ensures
        r@.len() == rows@.len(),
        forall|k: int| 0 <= k < rows@.len() ==> #[trigger] r@[k] == ref_of(rows@[k]),
{
    let mut out: Vec<RowRef> = Vec::new();
    let mut i: usize = 0;
    while i < rows.len()
        invariant
            i <= rows@.len(),
            out@.len() == i,
            forall|k: int| 0 <= k < i ==> #[trigger] out@[k] == ref_of(rows@[k]),
        decreases rows.len() - i,
    {
        let r = match &rows[i] {
            Row::SectionHeader(_) => RowRef::Section,
            Row::GroupHeader { g, .. } => RowRef::Group(g.name.clone()),
            Row::Single(p) => RowRef::Proc(p.pid),
            Row::Child(p) => RowRef::Proc(p.pid),
        };
        out.push(r);
        i += 1;
    }
    out
}

/// The reference of the row at `index`, if there is one.
pub fn row_ref(refs: &[RowRef], index: usize) -> (r: Option<RowRef>)
    ensures
        r == (if index < refs@.len() {
            Some(refs@[index as int])
        } else {
            None
        }),
{
    if index < refs.len() {
        Some(refs[index].clone())
    } else {
        None
    }
}

/// The selected process or group; at most one is set by a click.
pub struct Selection {
    pub pid: Option<u32>,
    pub group: Option<String>,
}

pub open spec fn opt_text(o: Option<String>) -> Option<Seq<char>> {
    match o {
        Some(s) => Some(s@),
        None => None,
    }
}

pub open spec fn has_pid(ps: Seq<ProcInfo>, pid: u32) -> bool {
    exists|k: int| 0 <= k < ps.len() && (#[trigger] ps[k]).pid == pid
}

pub open spec fn has_name(ps: Seq<ProcInfo>, name: Seq<char>) -> bool {
    exists|k: int| 0 <= k < ps.len() && (#[trigger] ps[k]).name@ == name
}

/// Statuses of a stopped process.
pub open spec fn is_stopped(status: Seq<char>) -> bool {
    status == "Stop"@ || status == "Stopped"@
}

/// The first process with this PID, if any.
pub open spec fn find_pid(ps: Seq<ProcInfo>, pid: u32) -> Option<ProcInfo>
    decreases ps.len(),
{
    if ps.len() == 0 {
        None
    } else if ps[0].pid == pid {
        Some(ps[0])
    } else {
        find_pid(ps.drop_first(), pid)
    }
}

/// How many processes have this name.
pub open spec fn name_count(ps: Seq<ProcInfo>, name: Seq<char>) -> nat
    decreases ps.len(),
{
    if ps.len() == 0 {
        0
    } else {
        name_count(ps.drop_last(), name) + if ps.last().name@ == name {
            1nat
        } else {
            0nat
        }
    }
}

pub fn find_pid_index(procs: &[ProcInfo], pid: u32) -> (r: Option<usize>)
    ensures
        match r {
            Some(k) => k < procs@.len() && find_pid(procs@, pid) == Some(procs@[k as int]),
            None => find_pid(procs@, pid) is None,
        },
        (r is Some) == has_pid(procs@, pid),
{
    let mut i: usize = 0;
    proof {
        assert(procs@.skip(0) =~= procs@);
    }
    while i < procs.len()
        invariant
            i <= procs@.len(),
            find_pid(procs@, pid) == find_pid(procs@.skip(i as int), pid),
            forall|k: int| 0 <= k < i ==> (#[trigger] procs@[k]).pid != pid,
        decreases procs.len() - i,
    {
        proof {
            assert(procs@.skip(i as int).drop_first() =~= procs@.skip(i + 1));
            assert(procs@.skip(i as int)[0] == procs@[i as int]);
        }
        if procs[i].pid == pid {
            return Some(i);
        }
        i += 1;
    }
    proof {
        assert(procs@.skip(i as int).len() == 0);
    }
    None
}

impl Selection {
    pub fn new() -> (r: Self)
        ensures
            r.pid is None,
            r.group is None,
    {
        Selection { pid: None, group: None }
    }

    /// A click on a process row selects that process; on a group header,
    /// that group; elsewhere nothing changes.
    pub fn row_clicked(&mut self, refs: &[RowRef], index: usize)
        ensures
            index < refs@.len() ==> (refs@[index as int] matches RowRef::Proc(pid)
                ==> final(self).pid == Some(pid) && final(self).group is None),
            index < refs@.len() ==> (refs@[index as int] matches RowRef::Group(name) ==> opt_text(
                final(self).group,
            ) == Some(name@) && final(self).pid is None),
            !(index < refs@.len() && (refs@[index as int] is Proc || refs@[index as int] is Group))
                ==> *final(self) == *old(self),
    {
        match row_ref(refs, index) {
            Some(RowRef::Proc(pid)) => {
                self.pid = Some(pid);
                self.group = None;
            },
            Some(RowRef::Group(name)) => {
                self.group = Some(name);
                self.pid = None;
            },
            _ => {},
        }
    }

    /// Drops a selected process or group that is no longer in the list.
    pub fn prune(&mut self, procs: &[ProcInfo])
        ensures
            final(self).pid == (match old(self).pid {
                Some(p) => if has_pid(procs@, p) {
                    Some(p)
                } else {
                    None
                },
                None => None,
            }),
            opt_text(final(self).group) == (match opt_text(old(self).group) {
                Some(n) => if has_name(procs@, n) {
                    Some(n)
                } else {
                    None
                },
                None => None,
            }),
    {
        if let Some(pid) = self.pid {
            if find_pid_index(procs, pid).is_none() {
                self.pid = None;
            }
        }
        let mut drop_group = false;
        if let Some(name) = &self.group {
            let n = chars_of(name.as_str());
            let mut found = false;
            let mut i: usize = 0;
            while i < procs.len()
                invariant
                    i <= procs@.len(),
                    n@ == name@,
                    found <==> exists|k: int| 0 <= k < i && (#[trigger] procs@[k]).name@ == name@,
                decreases procs.len() - i,
            {
                if crate::text::chars_eq(&chars_of(procs[i].name.as_str()), &n) {
                    found = true;
                }
                i += 1;
            }
            drop_group = !found;
        }
        if drop_group {
            self.group = None;
        }
    }

    /// The label of the suspend action: "Resume" when the selected process is
    /// stopped, else "Suspend".
    pub fn suspend_label(&self, procs: &[ProcInfo]) -> (r: &'static str)
        ensures
            r@ == (match self.pid {
                Some(pid) => match find_pid(procs@, pid) {
                    Some(p) => if is_stopped(p.status@) {
                        "Resume"@
                    } else {
                        "Suspend"@
                    },
                    None => "Suspend"@,
                },
                None => "Suspend"@,
            }),
    {
        if let Some(pid) = self.pid {
            if let Some(k) = find_pid_index(procs, pid) {
                let st = chars_of(procs[k].status.as_str());
                if crate::text::chars_eq_lit(&st, "Stop") || crate::text::chars_eq_lit(&st, "Stopped") {
                    return "Resume";
                }
            }
        }
        "Suspend"
    }

    /// How many processes the selected group has (0 without a group).
    pub fn selected_count(&self, procs: &[ProcInfo]) -> (r: usize)
        ensures
            r == (match opt_text(self.group) {
                Some(n) => name_count(procs@, n),
                None => 0,
            }),
    {
        match &self.group {
            Some(name) => {
                let n = chars_of(name.as_str());
                let mut count: usize = 0;
                let mut i: usize = 0;
                while i < procs.len()
                    invariant
                        i <= procs@.len(),
                        n@ == name@,
                        count == name_count(procs@.take(i as int), name@),
                        count <= i,
                    decreases procs.len() - i,
                {
                    proof {
                        assert(procs@.take(i + 1).drop_last() =~= procs@.take(i as int));
                    }
                    if crate::text::chars_eq(&chars_of(procs[i].name.as_str()), &n) {
                        count += 1;
                    }
                    i += 1;
                }
                proof {
                    assert(procs@.take(procs@.len() as int) =~= procs@);
                }
                count
            },
            None => 0,
        }
    }
}

// ---------------------------------------------------------------------------
// The sort choice.
// ---------------------------------------------------------------------------

/// The column number the table's header reports, back to a key; unknown
/// numbers mean CPU.
pub open spec fn key_of_int(k: int) -> SortKey {
    if k == 0 {
        SortKey::Name
    } else if k == 1 {
        SortKey::Pid
    } else if k == 2 {
        SortKey::User
    } else if k == 3 {
        SortKey::Cpu
    } else if k == 4 {
        SortKey::Mem
    } else if k == 5 {
        SortKey::Disk
    } else if k == 6 {
        SortKey::Status
    } else {
        SortKey::Cpu
    }
}

pub open spec fn int_of_key(k: SortKey) -> int {
    match k {
        SortKey::Name => 0,
        SortKey::Pid => 1,
        SortKey::User => 2,
        SortKey::Cpu => 3,
        SortKey::Mem => 4,
        SortKey::Disk => 5,
        SortKey::Status => 6,
    }
}

pub fn key_from_int(k: i32) -> (r: SortKey)
    ensures
        r == key_of_int(k as int),
{
    match k {
        0 => SortKey::Name,
        1 => SortKey::Pid,
        2 => SortKey::User,
        3 => SortKey::Cpu,
        4 => SortKey::Mem,
        5 => SortKey::Disk,
        6 => SortKey::Status,
        _ => SortKey::Cpu,
    }
}

pub fn int_from_key(k: SortKey) -> (r: i32)
    ensures
        r == int_of_key(k),
{
    match k {
        SortKey::Name => 0,
        SortKey::Pid => 1,
        SortKey::User => 2,
        SortKey::Cpu => 3,
        SortKey::Mem => 4,
        SortKey::Disk => 5,
        SortKey::Status => 6,
    }
}

/// Column numbers and keys convert into each other: every key through its
/// number, and every number from 0 to 6 through its key.
pub proof fn lemma_key_int_roundtrip(k: SortKey, i: int)
    ensures
        key_of_int(int_of_key(k)) == k,
        0 <= i <= 6 ==> int_of_key(key_of_int(i)) == i,
{
}

/// Columns whose natural first look is largest first.
pub open spec fn numeric(k: SortKey) -> bool {
    k == SortKey::Cpu || k == SortKey::Mem || k == SortKey::Disk
}

/// The column the table is ordered by and its direction.
pub struct SortChoice {
    pub sort: SortKey,
    pub descending: bool,
}

pub open spec fn toggled(sort: SortKey, descending: bool, key: SortKey) -> (SortKey, bool) {
    if sort == key {
        (sort, !descending)
    } else {
        (key, numeric(key))
    }
}

impl SortChoice {
    /// The saved choice, or CPU descending when none was saved.
    pub fn new(loaded: Option<(SortKey, bool)>) -> (r: Self)
        ensures
            (r.sort, r.descending) == (match loaded {
                Some(p) => p,
                None => (SortKey::Cpu, true),
            }),
    {
        match loaded {
            Some((sort, descending)) => SortChoice { sort, descending },
            None => SortChoice { sort: SortKey::Cpu, descending: true },
        }
    }

    /// A click on a column header: the same column flips the direction; a new
    /// column starts largest first for CPU, memory and disk, else smallest
    /// first.
    pub fn toggle_sort(&mut self, key: i32)
        ensures
            (final(self).sort, final(self).descending) == toggled(
                old(self).sort,
                old(self).descending,
                key_of_int(key as int),
            ),
    {
        let key = key_from_int(key);
        if self.sort == key {
            self.descending = !self.descending;
        } else {
            self.sort = key;
            self.descending = key == SortKey::Cpu || key == SortKey::Mem || key == SortKey::Disk;
        }
    }

    /// How the header of column `key` is drawn: whether it is the column the
    /// table is ordered by (drawn in the normal text colour rather than
    /// dimmed), and whether its caret points up, which it does only for the
    /// active column in ascending order.
    pub fn header(&self, key: SortKey) -> (r: (bool, bool))
        ensures
            r.0 == (self.sort == key),
            r.1 == (self.sort == key && !self.descending),
    {
        let active = self.sort == key;
        (active, active && !self.descending)
    }
}

/// Clicking the same column twice restores the direction.
pub proof fn lemma_toggle_sort_twice(sort: SortKey, descending: bool, key: SortKey)
    ensures
        ({
            let (s1, d1) = toggled(sort, descending, key);
            toggled(s1, d1, key).0 == key && (sort == key ==> toggled(s1, d1, key) == (sort, descending))
        }),
{
}

// ---------------------------------------------------------------------------
// The text filter and the two sections.
// ---------------------------------------------------------------------------

/// The filter as typed, trimmed and lower-cased.
pub open spec fn filter_text(raw: Seq<char>) -> Seq<char> {
    lowercase(trim(raw))
}

/// A process passes a non-empty filter when its lower-cased name or its PID
/// contains it.
pub open spec fn passes(p: ProcInfo, filter: Seq<char>) -> bool {
    filter.len() == 0 || contains_sub(lowercase(p.name@), filter) || contains_sub(dec(p.pid as nat), filter)
}

/// What the process filter keeps (`filter_mask`'s flags): with an empty
/// filter every process; otherwise exactly those whose lower-cased name, or
/// whose PID written in decimal, contains the filter.
pub proof fn lemma_filter_keeps(mask: Seq<bool>, procs: Seq<ProcInfo>, filter: Seq<char>)
    requires
        mask.len() == procs.len(),
        forall|k: int| 0 <= k < procs.len() ==> #[trigger] mask[k] == passes(procs[k], filter),
    ensures
        forall|k: int|
            0 <= k < procs.len() ==> (#[trigger] mask[k] <==> (filter.len() == 0 || contains_sub(
                lowercase(procs[k].name@),
                filter,
            ) || contains_sub(dec(procs[k].pid as nat), filter))),
{
}

pub fn normalize_filter(raw: &str) -> (r: String)
    ensures
        r@ == filter_text(raw@),
{
    let t = trim_chars(&chars_of(raw));
    let s = crate::text::string_of(&t);
    to_lowercase(s.as_str())
}

/// Which processes pass the (normalized) filter.
pub fn filter_mask(procs: &[ProcInfo], filter: &str) -> (r: Vec<bool>)
    ensures
        r@.len() == procs@.len(),
        forall|k: int| 0 <= k < procs@.len() ==> #[trigger] r@[k] == passes(procs@[k], filter@),
{
    let f = chars_of(filter);
    let mut out: Vec<bool> = Vec::new();
    let mut i: usize = 0;
    while i < procs.len()
        invariant
            i <= procs@.len(),
            f@ == filter@,
            out@.len() == i,
            forall|k: int| 0 <= k < i ==> #[trigger] out@[k] == passes(procs@[k], filter@),
        decreases procs.len() - i,
    {
        let keep = if f.len() == 0 {
            true
        } else {
            let lname = to_lowercase(procs[i].name.as_str());
            contains(&chars_of(lname.as_str()), &f) || contains(&dec_u64(procs[i].pid as u64), &f)
        };
        out.push(keep);
        i += 1;
    }
    out
}

/// The items whose flag is `want`, in order.
pub open spec fn select<T>(items: Seq<T>, flags: Seq<bool>, want: bool) -> Seq<T>
    decreases items.len(),
{
    if items.len() == 0 {
        Seq::empty()
    } else {
        let rest = select(items.drop_last(), flags.take(items.len() - 1), want);
        if flags[items.len() - 1] == want {
            rest.push(items.last())
        } else {
            rest
        }
    }
}

/// Splits items by their flags into those flagged and the rest, keeping
/// order.
pub fn partition_by<T>(items: Vec<T>, flags: &[bool]) -> (r: (Vec<T>, Vec<T>))
    requires
        flags@.len() == items@.len(),
    ensures
        r.0@ == select(items@, flags@, true),
        r.1@ == select(items@, flags@, false),
{
    let ghost all = items@;
    let mut rest = items;
    let mut yes: Vec<T> = Vec::new();
    let mut no: Vec<T> = Vec::new();
    let n = rest.len();
    let mut i: usize = 0;
    proof {
        assert(all.take(0) =~= Seq::<T>::empty());
    }
    while i < n
        invariant
            n == all.len() == flags@.len(),
            i <= n,
            rest@ == all.skip(i as int),
            yes@ == select(all.take(i as int), flags@.take(i as int), true),
            no@ == select(all.take(i as int), flags@.take(i as int), false),
        decreases n - i,
    {
        let x = rest.remove(0);
        proof {
            assert(all.skip(i as int)[0] == all[i as int]);
            assert(rest@ =~= all.skip(i + 1));
            assert(all.take(i + 1).drop_last() =~= all.take(i as int));
            assert(flags@.take(i + 1).take(i as int) =~= flags@.take(i as int));
            assert(all.take(i + 1).last() == all[i as int]);
            assert(flags@.take(i + 1)[i as int] == flags@[i as int]);
        }
        if flags[i] {
            yes.push(x);
        } else {
            no.push(x);
        }
        i += 1;
    }
    proof {
        assert(all.take(n as int) =~= all);
        assert(flags@.take(n as int) =~= flags@);
    }
    (yes, no)
}

/// Whether the process is a launchable application as far as the icon
/// resolver's index tells.
pub open spec fn is_app_proc(icons: &Resolver, p: ProcInfo) -> bool {
    match icons.keys_view() {
        Some(ks) => has_entry_spec(ks, p.name@, p.exe@),
        None => false,
    }
}

/// A group belongs to the applications section when any of its processes
/// has a `.desktop` entry.
pub open spec fn is_app_group(icons: &Resolver, g: Group, ps: Seq<ProcInfo>) -> bool {
    exists|k: int| 0 <= k < g.procs@.len() && is_app_proc(icons, ps[#[trigger] g.procs@[k] as int])
}

/// For each group, whether it goes to the applications section.
pub fn app_flags(groups: &[Group], procs: &[ProcInfo], icons: &Resolver) -> (r: Vec<bool>)
    requires
        forall|a: int, k: int|
            0 <= a < groups@.len() && 0 <= k < groups@[a].procs@.len() ==> #[trigger] groups@[a].procs@[k]
                < procs@.len(),
    ensures
        r@.len() == groups@.len(),
        forall|a: int| 0 <= a < groups@.len() ==> #[trigger] r@[a] == is_app_group(icons, groups@[a], procs@),
{
    let mut out: Vec<bool> = Vec::new();
    let mut a: usize = 0;
    while a < groups.len()
        invariant
            a <= groups@.len(),
            out@.len() == a,
            forall|b: int, k: int|
                0 <= b < groups@.len() && 0 <= k < groups@[b].procs@.len() ==> #[trigger] groups@[b].procs@[k]
                    < procs@.len(),
            forall|b: int| 0 <= b < a ==> #[trigger] out@[b] == is_app_group(icons, groups@[b], procs@),
        decreases groups.len() - a,
    {
        let g = &groups[a];
        let mut any = false;
        let mut k: usize = 0;
        while k < g.procs.len()
            invariant
                k <= g.procs@.len(),
                g == &groups@[a as int],
                forall|j: int| 0 <= j < g.procs@.len() ==> #[trigger] g.procs@[j] < procs@.len(),
                any <==> exists|j: int| 0 <= j < k && is_app_proc(icons, procs@[#[trigger] g.procs@[j] as int]),
            decreases g.procs.len() - k,
        {
            let p = &procs[g.procs[k]];
            if icons.has_desktop_entry(p.name.as_str(), p.exe.as_str()) {
                any = true;
            }
            k += 1;
        }
        out.push(any);
        a += 1;
    }
    out
}

} // verus!
