//! Processes grouped by name, with their totals, and the orders the table
//! offers for groups and for the processes inside a group.
use vstd::prelude::*;
use crate::order::lex_lt;
use crate::processes::sort::SortKey;
use crate::ranking::{is_item, is_stable_sort, key_view, keys_view, lemma_sorted_items, stable_sort, KeyView};
use crate::text::{chars_of, lowercase, to_lowercase};

verus! {

/// One process as the table reads it. CPU share and disk rates are carried as
/// integers: the share in thousandths of a percent, the rates in bytes per
/// second.
pub struct ProcInfo {
    pub pid: u32,
    pub parent: Option<u32>,
    pub name: String,
    pub exe: String,
    pub cmd: String,
    pub user: String,
    pub status: String,
    pub mem_bytes: u64,
    pub virt_bytes: u64,
    pub threads: u64,
    pub cpu_milli: u64,
    pub disk_read_bps: u64,
    pub disk_write_bps: u64,
}

/// Processes sharing a name: their positions in the process list (in list
/// order) and their totals. CPU and disk totals saturate at `u64::MAX`.
pub struct Group {
    pub name: String,
    pub procs: Vec<usize>,
    pub cpu_milli: u64,
    pub mem_bytes: u64,
    pub disk_bps: u64,
}

pub open spec fn cap(x: nat) -> nat {
    if x > u64::MAX {
        u64::MAX as nat
    } else {
        x
    }
}

/// Disk read plus write of one process, saturating.
pub open spec fn proc_disk(p: ProcInfo) -> nat {
    cap((p.disk_read_bps + p.disk_write_bps) as nat)
}

/// Positions below `n` of kept processes named `name`, ascending.
pub open spec fn members(ps: Seq<ProcInfo>, keep: Seq<bool>, name: Seq<char>, n: int) -> Seq<int>
    decreases n,
{
    if n <= 0 {
        Seq::empty()
    } else if keep[n - 1] && ps[n - 1].name@ == name {
        members(ps, keep, name, n - 1).push(n - 1)
    } else {
        members(ps, keep, name, n - 1)
    }
}

pub open spec fn mem_total(ps: Seq<ProcInfo>, idx: Seq<int>) -> nat
    decreases idx.len(),
{
    if idx.len() == 0 {
        0
    } else {
        mem_total(ps, idx.drop_last()) + ps[idx.last()].mem_bytes as nat
    }
}

pub open spec fn cpu_total(ps: Seq<ProcInfo>, idx: Seq<int>) -> nat
    decreases idx.len(),
{
    if idx.len() == 0 {
        0
    } else {
        cpu_total(ps, idx.drop_last()) + ps[idx.last()].cpu_milli as nat
    }
}

pub open spec fn disk_total(ps: Seq<ProcInfo>, idx: Seq<int>) -> nat
    decreases idx.len(),
{
    if idx.len() == 0 {
        0
    } else {
        disk_total(ps, idx.drop_last()) + proc_disk(ps[idx.last()])
    }
}

pub open spec fn idx_view(v: Seq<usize>) -> Seq<int> {
    v.map_values(|x: usize| x as int)
}

/// A group holds exactly the kept processes below `n` of its name, at least
/// one, with their totals.
pub open spec fn group_matches(g: Group, ps: Seq<ProcInfo>, keep: Seq<bool>, n: int) -> bool {
    let m = members(ps, keep, g.name@, n);
    &&& idx_view(g.procs@) == m
    &&& m.len() > 0
    &&& g.mem_bytes == mem_total(ps, m)
    &&& g.cpu_milli == cap(cpu_total(ps, m))
    &&& g.disk_bps == cap(disk_total(ps, m))
}

/// `gs` are the groups of the kept processes below `n`: one per name, in
/// name order.
pub open spec fn groups_of(gs: Seq<Group>, ps: Seq<ProcInfo>, keep: Seq<bool>, n: int) -> bool {
    &&& names_sorted(gs)
    &&& forall|a: int| 0 <= a < gs.len() ==> group_matches(#[trigger] gs[a], ps, keep, n)
    &&& forall|j: int|
        0 <= j < n && keep[j] ==> exists|a: int|
            0 <= a < gs.len() && (#[trigger] gs[a]).name@ == ps[j].name@
}

/// No group's memory total overflows.
pub open spec fn mem_fits(ps: Seq<ProcInfo>, keep: Seq<bool>) -> bool {
    forall|name: Seq<char>| mem_total(ps, #[trigger] members(ps, keep, name, ps.len() as int)) <= u64::MAX
}

proof fn lemma_members_bound(ps: Seq<ProcInfo>, keep: Seq<bool>, name: Seq<char>, n: int)
    ensures
        forall|k: int| 0 <= k < members(ps, keep, name, n).len() ==> 0 <= #[trigger] members(ps, keep, name, n)[k] < n,
        forall|k: int| 0 <= k < members(ps, keep, name, n).len() ==> keep[#[trigger] members(ps, keep, name, n)[k]]
            && ps[members(ps, keep, name, n)[k]].name@ == name,
    decreases n,
{
    if n > 0 {
        lemma_members_bound(ps, keep, name, n - 1);
        let m = members(ps, keep, name, n - 1);
        let mm = members(ps, keep, name, n);
        assert forall|k: int| 0 <= k < mm.len() implies 0 <= #[trigger] mm[k] < n && keep[mm[k]]
            && ps[mm[k]].name@ == name by {
            if k < m.len() {
                assert(mm[k] == m[k]);
            }
        }
    }
}

proof fn lemma_members_empty(ps: Seq<ProcInfo>, keep: Seq<bool>, name: Seq<char>, n: int)
    requires
        forall|j: int| 0 <= j < n && keep[j] ==> ps[j].name@ != name,
    ensures
        members(ps, keep, name, n).len() == 0,
    decreases n,
{
    if n > 0 {
        lemma_members_empty(ps, keep, name, n - 1);
    }
}

proof fn lemma_mem_total_mono(ps: Seq<ProcInfo>, keep: Seq<bool>, name: Seq<char>, i: int, n: int)
    requires
        0 <= i <= n,
    ensures
        mem_total(ps, members(ps, keep, name, i)) <= mem_total(ps, members(ps, keep, name, n)),
    decreases n - i,
{
    if i < n {
        lemma_mem_total_mono(ps, keep, name, i, n - 1);
        let m = members(ps, keep, name, n - 1);
        if keep[n - 1] && ps[n - 1].name@ == name {
            assert(m.push(n - 1).drop_last() =~= m);
        }
    }
}

/// Whether every group's memory total fits in a `u64`: for each kept
/// process, the memory of the kept processes of its name is summed.
pub fn group_mem_fits(procs: &[ProcInfo], keep: &[bool]) -> (r: bool)
    requires
        keep@.len() == procs@.len(),
    ensures
        r == mem_fits(procs@, keep@),
{
    let ghost ps = procs@;
    let ghost kp = keep@;
    let n = procs.len();
    let mut i: usize = 0;
    while i < n
        invariant
            n == ps.len() == kp.len(),
            ps == procs@,
            kp == keep@,
            i <= n,
            forall|a: int| 0 <= a < i && kp[a] ==> mem_total(ps, #[trigger] members(ps, kp, ps[a].name@, n as int)) <= u64::MAX,
        decreases n - i,
    {
        if keep[i] {
            let name = chars_of(procs[i].name.as_str());
            let ghost nm = ps[i as int].name@;
            let mut total: u64 = 0;
            let mut j: usize = 0;
            while j < n
                invariant
                    n == ps.len() == kp.len(),
                    ps == procs@,
                    kp == keep@,
                    i < n,
                    j <= n,
                    name@ == nm,
                    nm == ps[i as int].name@,
                    total == mem_total(ps, members(ps, kp, nm, j as int)),
                decreases n - j,
            {
                let ghost m = members(ps, kp, nm, j as int);
                if keep[j] && crate::text::chars_eq(&chars_of(procs[j].name.as_str()), &name) {
                    proof {
                        assert(m.push(j as int).drop_last() =~= m);
                    }
                    match total.checked_add(procs[j].mem_bytes) {
                        Some(t) => {
                            total = t;
                        },
                        None => {
                            proof {
                                lemma_mem_total_mono(ps, kp, nm, j + 1, n as int);
                            }
                            return false;
                        },
                    }
                }
                j += 1;
            }
        }
        i += 1;
    }
    proof {
        assert forall|name: Seq<char>| mem_total(ps, #[trigger] members(ps, kp, name, ps.len() as int)) <= u64::MAX by {
            if exists|a: int| 0 <= a < n && kp[a] && ps[a].name@ == name {
                let a = choose|a: int| 0 <= a < n && kp[a] && ps[a].name@ == name;
                assert(mem_total(ps, members(ps, kp, ps[a].name@, n as int)) <= u64::MAX);
            } else {
                lemma_members_empty(ps, kp, name, n as int);
            }
        }
    }
    true
}

pub open spec fn names_sorted(gs: Seq<Group>) -> bool {
    forall|a: int, b: int| 0 <= a < b < gs.len() ==> lex_lt(gs[a].name@, gs[b].name@)
}

proof fn lemma_other_names(gs: Seq<Group>, pos: int, name: Seq<char>)
    requires
        names_sorted(gs),
        0 <= pos < gs.len(),
        gs[pos].name@ == name,
    ensures
        forall|a: int| 0 <= a < gs.len() && a != pos ==> (#[trigger] gs[a]).name@ != name,
{
    crate::order::lemma_lex_irreflexive(name);
    assert forall|a: int| 0 <= a < gs.len() && a != pos implies (#[trigger] gs[a]).name@ != name by {
        if a < pos {
            assert(lex_lt(gs[a].name@, gs[pos].name@));
        } else {
            assert(lex_lt(gs[pos].name@, gs[a].name@));
        }
    }
}

proof fn lemma_absent_name(gs: Seq<Group>, pos: int, name: Seq<char>)
    requires
        names_sorted(gs),
        0 <= pos <= gs.len(),
        forall|a: int| 0 <= a < pos ==> lex_lt(#[trigger] gs[a].name@, name),
        pos < gs.len() ==> !lex_lt(gs[pos].name@, name) && gs[pos].name@ != name,
    ensures
        forall|a: int| 0 <= a < gs.len() ==> (#[trigger] gs[a]).name@ != name,
        forall|a: int| pos <= a < gs.len() ==> lex_lt(name, (#[trigger] gs[a]).name@),
{
    crate::order::lemma_lex_irreflexive(name);
    if pos < gs.len() {
        crate::order::lemma_lex_total(gs[pos].name@, name);
    }
    assert forall|a: int| pos <= a < gs.len() implies lex_lt(name, (#[trigger] gs[a]).name@) by {
        if a > pos {
            crate::order::lemma_lex_transitive(name, gs[pos].name@, gs[a].name@);
        }
    }
    assert forall|a: int| 0 <= a < gs.len() implies (#[trigger] gs[a]).name@ != name by {
        if a >= pos {
            assert(lex_lt(name, gs[a].name@));
        } else {
            assert(lex_lt(gs[a].name@, name));
        }
    }
}

fn new_group(procs: &[ProcInfo], i: usize) -> (g: Group)
    requires
        i < procs@.len(),
    ensures
        g.name@ == procs@[i as int].name@,
        idx_view(g.procs@) == seq![i as int],
        g.mem_bytes == procs@[i as int].mem_bytes,
        g.cpu_milli == procs@[i as int].cpu_milli,
        g.disk_bps == proc_disk(procs@[i as int]),
{
    let p = &procs[i];
    let mut v: Vec<usize> = Vec::new();
    v.push(i);
    proof {
        assert(idx_view(v@) =~= seq![i as int]);
    }
    Group {
        name: p.name.clone(),
        procs: v,
        cpu_milli: p.cpu_milli,
        mem_bytes: p.mem_bytes,
        disk_bps: p.disk_read_bps.saturating_add(p.disk_write_bps),
    }
}

/// Groups the kept processes (`keep[i]` for `procs[i]`) by name: one group
/// per name, in name order, each listing its processes in list order with
/// their memory, CPU and disk totals.
pub fn build_groups(procs: &[ProcInfo], keep: &[bool]) -> (r: Vec<Group>)
    requires
        keep@.len() == procs@.len(),
        mem_fits(procs@, keep@),
    ensures
        groups_of(r@, procs@, keep@, procs@.len() as int),
{
    let ghost ps = procs@;
    let ghost kp = keep@;
    let n = procs.len();
    let mut groups: Vec<Group> = Vec::new();
    let mut i: usize = 0;
    while i < n
        invariant
            n == ps.len() == kp.len(),
            ps == procs@,
            kp == keep@,
            i <= n,
            mem_fits(ps, kp),
            groups_of(groups@, ps, kp, i as int),
        decreases n - i,
    {
        let ghost old_gs = groups@;
        if keep[i] {
            let name = chars_of(procs[i].name.as_str());
            let mut pos: usize = 0;
            while pos < groups.len() && crate::order::lex_order(
                &chars_of(groups[pos].name.as_str()),
                &name,
            ) == -1
                invariant
                    pos <= groups@.len(),
                    i < ps.len(),
                    name@ == ps[i as int].name@,
                    forall|a: int| 0 <= a < pos ==> lex_lt(#[trigger] groups@[a].name@, name@),
                decreases groups.len() - pos,
            {
                pos += 1;
            }
            let found = pos < groups.len() && crate::text::chars_eq(
                &chars_of(groups[pos].name.as_str()),
                &name,
            );
            let ghost m_old = members(ps, kp, name@, i as int);
            let ghost m_new = members(ps, kp, name@, i + 1);
            assert(m_new == m_old.push(i as int));
            assert(m_new.drop_last() =~= m_old);
            proof {
                lemma_mem_total_mono(ps, kp, name@, i + 1, n as int);
                assert(mem_total(ps, members(ps, kp, name@, n as int)) <= u64::MAX);
            }
            if found {
                proof {
                    lemma_other_names(old_gs, pos as int, name@);
                }
                let mut g = groups.remove(pos);
                assert(g == old_gs[pos as int]);
                let ghost g0 = g;
                g.procs.push(i);
                g.mem_bytes = g.mem_bytes + procs[i].mem_bytes;
                g.cpu_milli = g.cpu_milli.saturating_add(procs[i].cpu_milli);
                g.disk_bps = g.disk_bps.saturating_add(
                    procs[i].disk_read_bps.saturating_add(procs[i].disk_write_bps),
                );
                proof {
                    assert(idx_view(g.procs@) =~= idx_view(g0.procs@).push(i as int));
                    assert(group_matches(g0, ps, kp, i as int));
                }
                groups.insert(pos, g);
                proof {
                    assert(groups@ =~= old_gs.update(pos as int, g));
                    assert forall|a: int| 0 <= a < groups@.len() implies group_matches(
                        #[trigger] groups@[a],
                        ps,
                        kp,
                        i + 1,
                    ) by {
                        if a != pos {
                            assert(old_gs[a].name@ != name@);
                            assert(members(ps, kp, old_gs[a].name@, i + 1) == members(
                                ps,
                                kp,
                                old_gs[a].name@,
                                i as int,
                            ));
                        }
                    }
                    assert forall|j: int| 0 <= j < i + 1 && kp[j] implies exists|a: int|
                        0 <= a < groups@.len() && (#[trigger] groups@[a]).name@ == ps[j].name@ by {
                        if j == i {
                            assert(groups@[pos as int].name@ == ps[j].name@);
                        } else {
                            let a = choose|a: int| 0 <= a < old_gs.len() && (#[trigger] old_gs[a]).name@ == ps[j].name@;
                            assert(groups@[a].name@ == ps[j].name@);
                        }
                    }
                }
            } else {
                proof {
                    if pos < groups.len() {
                        crate::order::lemma_lex_total(old_gs[pos as int].name@, name@);
                    }
                    lemma_absent_name(old_gs, pos as int, name@);
                    assert forall|j: int| 0 <= j < i && kp[j] implies ps[j].name@ != name@ by {
                        if ps[j].name@ == name@ {
                            let a = choose|a: int| 0 <= a < old_gs.len() && (#[trigger] old_gs[a]).name@ == ps[j].name@;
                        }
                    }
                    lemma_members_empty(ps, kp, name@, i as int);
                    assert(m_new =~= seq![i as int]);
                }
                let g = new_group(procs, i);
                groups.insert(pos, g);
                proof {
                    let gs = groups@;
                    assert(gs =~= old_gs.insert(pos as int, g));
                    assert forall|a: int, b: int| 0 <= a < b < gs.len() implies lex_lt(
                        gs[a].name@,
                        gs[b].name@,
                    ) by {
                        if a < pos && b == pos {
                        } else if a == pos {
                            assert(gs[b] == old_gs[b - 1]);
                        } else if b < pos {
                        } else if a < pos {
                            assert(gs[b] == old_gs[b - 1]);
                        } else {
                            assert(gs[a] == old_gs[a - 1] && gs[b] == old_gs[b - 1]);
                        }
                    }
                    assert forall|a: int| 0 <= a < gs.len() implies group_matches(
                        #[trigger] gs[a],
                        ps,
                        kp,
                        i + 1,
                    ) by {
                        if a != pos {
                            let o = if a < pos { a } else { a - 1 };
                            assert(gs[a] == old_gs[o]);
                            assert(old_gs[o].name@ != name@);
                            assert(members(ps, kp, old_gs[o].name@, i + 1) == members(
                                ps,
                                kp,
                                old_gs[o].name@,
                                i as int,
                            ));
                        } else {
                            assert(gs[a] == g);
                            assert(g.name@ == name@);
                            assert(m_new.drop_last() =~= Seq::<int>::empty());
                            assert(m_new.last() == i);
                            assert(mem_total(ps, Seq::<int>::empty()) == 0);
                            assert(cpu_total(ps, Seq::<int>::empty()) == 0);
                            assert(disk_total(ps, Seq::<int>::empty()) == 0);
                            assert(mem_total(ps, m_new) == ps[i as int].mem_bytes);
                            assert(cpu_total(ps, m_new) == ps[i as int].cpu_milli);
                            assert(disk_total(ps, m_new) == proc_disk(ps[i as int]));
                        }
                    }
                    assert forall|j: int| 0 <= j < i + 1 && kp[j] implies exists|a: int|
                        0 <= a < gs.len() && (#[trigger] gs[a]).name@ == ps[j].name@ by {
                        if j == i {
                            assert(gs[pos as int].name@ == ps[j].name@);
                        } else {
                            let a = choose|a: int| 0 <= a < old_gs.len() && (#[trigger] old_gs[a]).name@ == ps[j].name@;
                            if a < pos {
                                assert(gs[a] == old_gs[a]);
                            } else {
                                assert(gs[a + 1] == old_gs[a]);
                            }
                        }
                    }
                }
            }
        } else {
            proof {
                assert forall|a: int| 0 <= a < groups@.len() implies group_matches(
                    #[trigger] groups@[a],
                    ps,
                    kp,
                    i + 1,
                ) by {
                    assert(members(ps, kp, groups@[a].name@, i + 1) == members(
                        ps,
                        kp,
                        groups@[a].name@,
                        i as int,
                    ));
                }
            }
        }
        i += 1;
    }
    groups
}

// ---------------------------------------------------------------------------
// Orders.
// ---------------------------------------------------------------------------

/// The lowest PID among the processes at `idx` (none when `idx` is empty).
pub open spec fn min_pid(ps: Seq<ProcInfo>, idx: Seq<int>) -> int
    decreases idx.len(),
{
    if idx.len() == 0 {
        0
    } else if idx.len() == 1 {
        ps[idx[0]].pid as int
    } else {
        let m = min_pid(ps, idx.drop_last());
        let x = ps[idx.last()].pid as int;
        if x < m {
            x
        } else {
            m
        }
    }
}

/// What groups are compared by: the lower-cased name; the lowest PID; the
/// first process's user or status; or a total. A missing value sorts first.
pub open spec fn group_key(g: Group, ps: Seq<ProcInfo>, key: SortKey) -> KeyView {
    let idx = idx_view(g.procs@);
    match key {
        SortKey::Name => (0, lowercase(g.name@)),
        SortKey::Pid => if idx.len() == 0 {
            (0, Seq::empty())
        } else {
            (min_pid(ps, idx) + 1, Seq::empty())
        },
        SortKey::User => if idx.len() == 0 {
            (0, Seq::empty())
        } else {
            (1, ps[idx[0]].user@)
        },
        SortKey::Cpu => (g.cpu_milli as int, Seq::empty()),
        SortKey::Mem => (g.mem_bytes as int, Seq::empty()),
        SortKey::Disk => (g.disk_bps as int, Seq::empty()),
        SortKey::Status => if idx.len() == 0 {
            (0, Seq::empty())
        } else {
            (1, ps[idx[0]].status@)
        },
    }
}

pub open spec fn group_keys(gs: Seq<Group>, ps: Seq<ProcInfo>, key: SortKey) -> Seq<KeyView> {
    gs.map_values(|g: Group| group_key(g, ps, key))
}

/// What processes inside a group are compared by.
pub open spec fn proc_key(p: ProcInfo, key: SortKey) -> KeyView {
    match key {
        SortKey::Name => (0, lowercase(p.name@)),
        SortKey::Pid => (p.pid as int, Seq::empty()),
        SortKey::User => (0, p.user@),
        SortKey::Cpu => (p.cpu_milli as int, Seq::empty()),
        SortKey::Mem => (p.mem_bytes as int, Seq::empty()),
        SortKey::Disk => (proc_disk(p) as int, Seq::empty()),
        SortKey::Status => (0, p.status@),
    }
}

pub open spec fn row_keys(rows: Seq<usize>, ps: Seq<ProcInfo>, key: SortKey) -> Seq<KeyView> {
    rows.map_values(|i: usize| proc_key(ps[i as int], key))
}

/// Every position a group lists is a position of the process list.
pub open spec fn positions_valid(gs: Seq<Group>, n: nat) -> bool {
    forall|a: int, k: int|
        0 <= a < gs.len() && 0 <= k < gs[a].procs@.len() ==> #[trigger] gs[a].procs@[k] < n
}

pub proof fn lemma_groups_positions(gs: Seq<Group>, ps: Seq<ProcInfo>, keep: Seq<bool>)
    requires
        groups_of(gs, ps, keep, ps.len() as int),
    ensures
        positions_valid(gs, ps.len()),
{
    assert forall|a: int, k: int|
        0 <= a < gs.len() && 0 <= k < gs[a].procs@.len() implies #[trigger] gs[a].procs@[k] < ps.len() by {
        assert(group_matches(gs[a], ps, keep, ps.len() as int));
        lemma_members_bound(ps, keep, gs[a].name@, ps.len() as int);
        assert(idx_view(gs[a].procs@)[k] == gs[a].procs@[k] as int);
    }
}

fn lowered(s: &String) -> (r: Vec<char>)
    ensures
        r@ == lowercase(s@),
{
    let l = to_lowercase(s.as_str());
    chars_of(l.as_str())
}

fn text_copy(s: &String) -> (r: Vec<char>)
    ensures
        r@ == s@,
{
    chars_of(s.as_str())
}

fn group_key_exec(g: &Group, procs: &[ProcInfo], key: SortKey) -> (r: (u64, Vec<char>))
    requires
        forall|k: int| 0 <= k < g.procs@.len() ==> #[trigger] g.procs@[k] < procs@.len(),
    ensures
        key_view(r) == group_key(*g, procs@, key),
{
    let idx = Ghost(idx_view(g.procs@));
    match key {
        SortKey::Name => (0, lowered(&g.name)),
        SortKey::Pid => {
            if g.procs.len() == 0 {
                (0, Vec::new())
            } else {
                let mut m: u32 = procs[g.procs[0]].pid;
                let mut k: usize = 1;
                proof {
                    assert(idx@.take(1).drop_last() =~= Seq::<int>::empty());
                    assert(min_pid(procs@, idx@.take(1)) == m);
                }
                while k < g.procs.len()
                    invariant
                        1 <= k <= g.procs@.len(),
                        idx@ == idx_view(g.procs@),
                        forall|j: int| 0 <= j < g.procs@.len() ==> #[trigger] g.procs@[j] < procs@.len(),
                        m == min_pid(procs@, idx@.take(k as int)),
                    decreases g.procs.len() - k,
                {
                    let x = procs[g.procs[k]].pid;
                    proof {
                        assert(idx@.take(k + 1).drop_last() =~= idx@.take(k as int));
                        assert(idx@.take(k + 1).last() == g.procs@[k as int] as int);
                    }
                    if x < m {
                        m = x;
                    }
                    k += 1;
                }
                proof {
                    assert(idx@.take(g.procs@.len() as int) =~= idx@);
                }
                (m as u64 + 1, Vec::new())
            }
        },
        SortKey::User => {
            if g.procs.len() == 0 {
                (0, Vec::new())
            } else {
                (1, text_copy(&procs[g.procs[0]].user))
            }
        },
        SortKey::Cpu => (g.cpu_milli, Vec::new()),
        SortKey::Mem => (g.mem_bytes, Vec::new()),
        SortKey::Disk => (g.disk_bps, Vec::new()),
        SortKey::Status => {
            if g.procs.len() == 0 {
                (0, Vec::new())
            } else {
                (1, text_copy(&procs[g.procs[0]].status))
            }
        },
    }
}

fn proc_key_exec(p: &ProcInfo, key: SortKey) -> (r: (u64, Vec<char>))
    ensures
        key_view(r) == proc_key(*p, key),
{
    match key {
        SortKey::Name => (0, lowered(&p.name)),
        SortKey::Pid => (p.pid as u64, Vec::new()),
        SortKey::User => (0, text_copy(&p.user)),
        SortKey::Cpu => (p.cpu_milli, Vec::new()),
        SortKey::Mem => (p.mem_bytes, Vec::new()),
        SortKey::Disk => (p.disk_read_bps.saturating_add(p.disk_write_bps), Vec::new()),
        SortKey::Status => (0, text_copy(&p.status)),
    }
}

/// Orders groups by the chosen column, stably; descending reverses the
/// comparison.
pub fn sort_groups(groups: &mut Vec<Group>, procs: &[ProcInfo], key: SortKey, desc: bool)
    requires
        positions_valid(old(groups)@, procs@.len()),
    ensures
        is_stable_sort(old(groups)@, group_keys(old(groups)@, procs@, key), desc, final(groups)@),
{
    let ghost gs = groups@;
    let mut keys: Vec<(u64, Vec<char>)> = Vec::new();
    let mut i: usize = 0;
    while i < groups.len()
        invariant
            groups@ == gs,
            positions_valid(gs, procs@.len()),
            i <= gs.len(),
            keys@.len() == i,
            forall|k: int| 0 <= k < i ==> key_view(#[trigger] keys@[k]) == group_key(gs[k], procs@, key),
        decreases gs.len() - i,
    {
        proof {
            assert forall|k: int| 0 <= k < gs[i as int].procs@.len() implies #[trigger] gs[i as int].procs@[k] < procs@.len() by {
            }
        }
        let k = group_key_exec(&groups[i], procs, key);
        keys.push(k);
        i += 1;
    }
    proof {
        assert(keys_view(keys@) =~= group_keys(gs, procs@, key));
    }
    let mut items: Vec<Group> = Vec::new();
    std::mem::swap(&mut items, groups);
    let sorted = stable_sort(items, keys, desc);
    *groups = sorted;
}

/// Orders the processes of a group (positions in `procs`) by the chosen
/// column, stably.
pub fn sort_children(rows: &mut Vec<usize>, procs: &[ProcInfo], key: SortKey, desc: bool)
    requires
        forall|k: int| 0 <= k < old(rows)@.len() ==> #[trigger] old(rows)@[k] < procs@.len(),
    ensures
        is_stable_sort(old(rows)@, row_keys(old(rows)@, procs@, key), desc, final(rows)@),
{
    let ghost rs = rows@;
    let mut keys: Vec<(u64, Vec<char>)> = Vec::new();
    let mut i: usize = 0;
    while i < rows.len()
        invariant
            rows@ == rs,
            forall|k: int| 0 <= k < rs.len() ==> #[trigger] rs[k] < procs@.len(),
            i <= rs.len(),
            keys@.len() == i,
            forall|k: int| 0 <= k < i ==> key_view(#[trigger] keys@[k]) == proc_key(procs@[rs[k] as int], key),
        decreases rs.len() - i,
    {
        let k = proc_key_exec(&procs[rows[i]], key);
        keys.push(k);
        i += 1;
    }
    proof {
        assert(keys_view(keys@) =~= row_keys(rs, procs@, key));
    }
    let mut items: Vec<usize> = Vec::new();
    std::mem::swap(&mut items, rows);
    let sorted = stable_sort(items, keys, desc);
    *rows = sorted;
}

/// Groups are ordered by the chosen column itself: after sorting by CPU,
/// memory or disk, each group's CPU share, memory total or disk rate is no
/// larger than the next one's in ascending order, and no smaller in
/// descending order; after sorting by name, no two neighbours are out of
/// order by their lower-cased names.
pub proof fn lemma_groups_by_total(gs: Seq<Group>, ps: Seq<ProcInfo>, key: SortKey, desc: bool, out: Seq<Group>)
    requires
        is_stable_sort(gs, group_keys(gs, ps, key), desc, out),
    ensures
        forall|i: int, j: int|
            #![trigger out[i], out[j]]
            0 <= i < j < out.len() ==> {
                let (a, b) = if desc {
                    (out[j], out[i])
                } else {
                    (out[i], out[j])
                };
                &&& key == SortKey::Cpu ==> a.cpu_milli <= b.cpu_milli
                &&& key == SortKey::Mem ==> a.mem_bytes <= b.mem_bytes
                &&& key == SortKey::Disk ==> a.disk_bps <= b.disk_bps
                &&& key == SortKey::Name ==> !lex_lt(lowercase(b.name@), lowercase(a.name@))
            },
{
    let ks = group_keys(gs, ps, key);
    let p = choose|p: Seq<int>| crate::ranking::sorted_by_perm(p, gs, ks, desc, out);
    assert forall|i: int, j: int| #![trigger out[i], out[j]] 0 <= i < j < out.len() implies {
        let (a, b) = if desc {
            (out[j], out[i])
        } else {
            (out[i], out[j])
        };
        &&& key == SortKey::Cpu ==> a.cpu_milli <= b.cpu_milli
        &&& key == SortKey::Mem ==> a.mem_bytes <= b.mem_bytes
        &&& key == SortKey::Disk ==> a.disk_bps <= b.disk_bps
        &&& key == SortKey::Name ==> !lex_lt(lowercase(b.name@), lowercase(a.name@))
    } by {
        assert(!crate::ranking::goes_before(ks[p[j]], ks[p[i]], desc));
        assert(out[i] == gs[p[i]]);
        assert(out[j] == gs[p[j]]);
        assert(ks[p[i]] == group_key(gs[p[i]], ps, key));
        assert(ks[p[j]] == group_key(gs[p[j]], ps, key));
        crate::order::lemma_lex_irreflexive(Seq::<char>::empty());
    }
}

/// Inside a group, the processes are ordered by the chosen column itself:
/// by PID, CPU share, memory, or disk rate (read plus write, saturating),
/// each no larger than the next in ascending order and no smaller in
/// descending order; by user or status, no two neighbours out of `str`
/// order.
pub proof fn lemma_children_by_column(rows: Seq<usize>, ps: Seq<ProcInfo>, key: SortKey, desc: bool, out: Seq<usize>)
    requires
        is_stable_sort(rows, row_keys(rows, ps, key), desc, out),
        forall|k: int| 0 <= k < rows.len() ==> #[trigger] rows[k] < ps.len(),
    ensures
        forall|i: int, j: int|
            #![trigger out[i], out[j]]
            0 <= i < j < out.len() ==> {
                let (a, b) = if desc {
                    (ps[out[j] as int], ps[out[i] as int])
                } else {
                    (ps[out[i] as int], ps[out[j] as int])
                };
                let disk_a = if a.disk_read_bps + a.disk_write_bps > u64::MAX {
                    u64::MAX as int
                } else {
                    a.disk_read_bps + a.disk_write_bps
                };
                let disk_b = if b.disk_read_bps + b.disk_write_bps > u64::MAX {
                    u64::MAX as int
                } else {
                    b.disk_read_bps + b.disk_write_bps
                };
                &&& key == SortKey::Pid ==> a.pid <= b.pid
                &&& key == SortKey::Cpu ==> a.cpu_milli <= b.cpu_milli
                &&& key == SortKey::Mem ==> a.mem_bytes <= b.mem_bytes
                &&& key == SortKey::Disk ==> disk_a <= disk_b
                &&& key == SortKey::User ==> !lex_lt(b.user@, a.user@)
                &&& key == SortKey::Status ==> !lex_lt(b.status@, a.status@)
            },
{
    let ks = row_keys(rows, ps, key);
    let p = choose|p: Seq<int>| crate::ranking::sorted_by_perm(p, rows, ks, desc, out);
    assert forall|i: int, j: int| #![trigger out[i], out[j]] 0 <= i < j < out.len() implies {
        let (a, b) = if desc {
            (ps[out[j] as int], ps[out[i] as int])
        } else {
            (ps[out[i] as int], ps[out[j] as int])
        };
        let disk_a = if a.disk_read_bps + a.disk_write_bps > u64::MAX {
            u64::MAX as int
        } else {
            a.disk_read_bps + a.disk_write_bps
        };
        let disk_b = if b.disk_read_bps + b.disk_write_bps > u64::MAX {
            u64::MAX as int
        } else {
            b.disk_read_bps + b.disk_write_bps
        };
        &&& key == SortKey::Pid ==> a.pid <= b.pid
        &&& key == SortKey::Cpu ==> a.cpu_milli <= b.cpu_milli
        &&& key == SortKey::Mem ==> a.mem_bytes <= b.mem_bytes
        &&& key == SortKey::Disk ==> disk_a <= disk_b
        &&& key == SortKey::User ==> !lex_lt(b.user@, a.user@)
        &&& key == SortKey::Status ==> !lex_lt(b.status@, a.status@)
    } by {
        assert(!crate::ranking::goes_before(ks[p[j]], ks[p[i]], desc));
        assert(out[i] == rows[p[i]]);
        assert(out[j] == rows[p[j]]);
        assert(ks[p[i]] == proc_key(ps[rows[p[i]] as int], key));
        assert(ks[p[j]] == proc_key(ps[rows[p[j]] as int], key));
        crate::order::lemma_lex_irreflexive(Seq::<char>::empty());
    }
}

/// `g` is `h` with the processes inside it ordered by the chosen column.
pub open spec fn children_sorted(h: Group, g: Group, ps: Seq<ProcInfo>, key: SortKey, desc: bool) -> bool {
    &&& g.name@ == h.name@
    &&& g.cpu_milli == h.cpu_milli
    &&& g.mem_bytes == h.mem_bytes
    &&& g.disk_bps == h.disk_bps
    &&& is_stable_sort(h.procs@, row_keys(h.procs@, ps, key), desc, g.procs@)
}

/// `after` is `before` in table order: the groups ordered by the chosen
/// column, then the processes inside each group, both stably.
pub open spec fn section_sorted(before: Seq<Group>, after: Seq<Group>, ps: Seq<ProcInfo>, key: SortKey, desc: bool) -> bool {
    exists|mid: Seq<Group>|
        {
            &&& is_stable_sort(before, group_keys(before, ps, key), desc, mid)
            &&& after.len() == mid.len()
            &&& forall|k: int| 0 <= k < mid.len() ==> children_sorted(#[trigger] mid[k], after[k], ps, key, desc)
        }
}

/// A section in table order: its groups ordered by the chosen column, then
/// the processes inside each group, both stably.
pub fn sort_section(groups: &mut Vec<Group>, procs: &[ProcInfo], key: SortKey, desc: bool)
    requires
        positions_valid(old(groups)@, procs@.len()),
    ensures
        section_sorted(old(groups)@, final(groups)@, procs@, key, desc),
        positions_valid(final(groups)@, procs@.len()),
{
    let ghost before = groups@;
    sort_groups(groups, procs, key, desc);
    let ghost mid = groups@;
    proof {
        lemma_sorted_items(before, group_keys(before, procs@, key), desc, mid);
        assert forall|a: int, k: int| 0 <= a < mid.len() && 0 <= k < mid[a].procs@.len() implies #[trigger] mid[a].procs@[k] < procs@.len() by {
            assert(is_item(before, mid[a]));
            let j = choose|j: int| 0 <= j < before.len() && before[j] == mid[a];
            assert(before[j].procs@[k] < procs@.len());
        }
    }
    let mut i: usize = 0;
    while i < groups.len()
        invariant
            groups@.len() == mid.len(),
            i <= mid.len(),
            positions_valid(mid, procs@.len()),
            forall|k: int| 0 <= k < i ==> children_sorted(#[trigger] mid[k], groups@[k], procs@, key, desc),
            forall|k: int| i <= k < mid.len() ==> #[trigger] groups@[k] == mid[k],
            positions_valid(groups@, procs@.len()),
        decreases mid.len() - i,
    {
        let ghost gs = groups@;
        proof {
            assert forall|k: int| 0 <= k < groups@[i as int].procs@.len() implies #[trigger] groups@[i as int].procs@[k] < procs@.len() by {}
        }
        sort_children(&mut groups[i].procs, procs, key, desc);
        proof {
            let g = groups@[i as int];
            lemma_sorted_items(mid[i as int].procs@, row_keys(mid[i as int].procs@, procs@, key), desc, g.procs@);
            assert forall|k: int| 0 <= k < g.procs@.len() implies #[trigger] g.procs@[k] < procs@.len() by {
                assert(is_item(mid[i as int].procs@, g.procs@[k]));
            }
            assert forall|a: int, k: int| 0 <= a < groups@.len() && 0 <= k < groups@[a].procs@.len() implies #[trigger] groups@[a].procs@[k] < procs@.len() by {
                if a != i {
                    assert(groups@[a] == gs[a]);
                }
            }
        }
        i += 1;
    }
}

} // verus!
