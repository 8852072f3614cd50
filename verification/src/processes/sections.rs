//! The two sections of the process table for one refresh: the processes
//! that pass the filter, grouped by name, split into applications and
//! background processes, each section in table order.
use vstd::prelude::*;
use crate::icons::Resolver;
use crate::processes::grouping::{
    build_groups, group_mem_fits, groups_of, lemma_groups_positions, mem_fits, positions_valid,
    section_sorted, sort_section, Group, ProcInfo,
};
use crate::processes::rows::{
    app_flags, append_section, filter_mask, filter_text, is_app_group, normalize_filter, partition_by,
    passes, ref_of, row_refs, section_rows, select, ExpandedSet, Row, RowRef, SortChoice,
};
use crate::ranking::is_item;

verus! {

/// The applications, the background processes, and whether a filter is
/// typed (which shows every group expanded).
pub struct Sections {
    pub apps: Vec<Group>,
    pub background: Vec<Group>,
    pub filter_active: bool,
}

/// Which processes pass the filter.
pub open spec fn kept(ps: Seq<ProcInfo>, filter: Seq<char>) -> Seq<bool> {
    Seq::new(ps.len(), |k: int| passes(ps[k], filter))
}

/// Which groups go to the applications section.
pub open spec fn app_marks(icons: &Resolver, gs: Seq<Group>, ps: Seq<ProcInfo>) -> Seq<bool> {
    gs.map_values(|g: Group| is_app_group(icons, g, ps))
}

/// The sections for the filter as typed: the groups of the kept processes,
/// split by `app_marks` keeping name order, each section sorted.
pub open spec fn sections_of(
    s: Sections,
    ps: Seq<ProcInfo>,
    raw_filter: Seq<char>,
    sort: SortChoice,
    icons: &Resolver,
) -> bool {
    let f = filter_text(raw_filter);
    &&& s.filter_active == (f.len() > 0)
    &&& exists|gs: Seq<Group>|
        {
            &&& groups_of(gs, ps, kept(ps, f), ps.len() as int)
            &&& section_sorted(
                select(gs, app_marks(icons, gs, ps), true),
                s.apps@,
                ps,
                sort.sort,
                sort.descending,
            )
            &&& section_sorted(
                select(gs, app_marks(icons, gs, ps), false),
                s.background@,
                ps,
                sort.sort,
                sort.descending,
            )
        }
}

proof fn lemma_select_items<T>(items: Seq<T>, flags: Seq<bool>, want: bool)
    ensures
        forall|i: int| 0 <= i < select(items, flags, want).len() ==> is_item(items, #[trigger] select(items, flags, want)[i]),
    decreases items.len(),
{
    if items.len() > 0 {
        let init = items.drop_last();
        let fl = flags.take(items.len() - 1);
        lemma_select_items(init, fl, want);
        let rest = select(init, fl, want);
        assert forall|i: int| 0 <= i < select(items, flags, want).len() implies is_item(items, #[trigger] select(items, flags, want)[i]) by {
            if i < rest.len() {
                assert(is_item(init, rest[i]));
                let j = choose|j: int| 0 <= j < init.len() && init[j] == rest[i];
                assert(items[j] == init[j]);
            } else {
                assert(items[items.len() - 1] == items.last());
            }
        }
    }
}

proof fn lemma_select_positions(gs: Seq<Group>, flags: Seq<bool>, want: bool, n: nat)
    requires
        positions_valid(gs, n),
    ensures
        positions_valid(select(gs, flags, want), n),
{
    lemma_select_items(gs, flags, want);
    let sel = select(gs, flags, want);
    assert forall|a: int, k: int| 0 <= a < sel.len() && 0 <= k < sel[a].procs@.len() implies #[trigger] sel[a].procs@[k] < n by {
        assert(is_item(gs, sel[a]));
        let j = choose|j: int| 0 <= j < gs.len() && gs[j] == sel[a];
        assert(gs[j].procs@[k] < n);
    }
}

/// Filters, groups, splits and orders the processes for one refresh.
/// `None` when some group's memory total would pass `u64::MAX` and could
/// not be held.
pub fn build_sections(procs: &[ProcInfo], raw_filter: &str, sort: &SortChoice, icons: &Resolver) -> (r: Option<Sections>)
    ensures
        match r {
            Some(s) => mem_fits(procs@, kept(procs@, filter_text(raw_filter@)))
                && sections_of(s, procs@, raw_filter@, *sort, icons) && positions_valid(s.apps@, procs@.len())
                && positions_valid(s.background@, procs@.len()),
            None => !mem_fits(procs@, kept(procs@, filter_text(raw_filter@))),
        },
{
    let filter = normalize_filter(raw_filter);
    let keep = filter_mask(procs, filter.as_str());
    let ghost f = filter_text(raw_filter@);
    let ghost ps = procs@;
    proof {
        assert(keep@ =~= kept(ps, f));
    }
    if !group_mem_fits(procs, &keep) {
        return None;
    }
    let groups = build_groups(procs, &keep);
    let ghost gs = groups@;
    proof {
        lemma_groups_positions(gs, ps, keep@);
    }
    let flags = app_flags(&groups, procs, icons);
    proof {
        assert(flags@ =~= app_marks(icons, gs, ps));
    }
    let (mut apps, mut background) = partition_by(groups, &flags);
    proof {
        lemma_select_positions(gs, flags@, true, ps.len());
        lemma_select_positions(gs, flags@, false, ps.len());
    }
    sort_section(&mut apps, procs, sort.sort, sort.descending);
    sort_section(&mut background, procs, sort.sort, sort.descending);
    let s = Sections { apps, background, filter_active: !filter.as_str().is_empty() };
    proof {
        assert(groups_of(gs, ps, kept(ps, f), ps.len() as int));
    }
    Some(s)
}

/// The visible rows: the applications section titled "Apps", then the
/// background section titled "Background processes" (the two lists of a
/// `Sections`), and what each row points at.
pub fn visible_rows<'a>(
    apps: &'a [Group],
    background: &'a [Group],
    procs: &'a [ProcInfo],
    filter_active: bool,
    expanded: &ExpandedSet,
) -> (r: (Vec<Row<'a>>, Vec<RowRef>))
    requires
        positions_valid(apps@, procs@.len()),
        positions_valid(background@, procs@.len()),
    ensures
        r.0@ == section_rows("Apps", apps, procs, filter_active, expanded@) + section_rows(
            "Background processes",
            background,
            procs,
            filter_active,
            expanded@,
        ),
        r.1@.len() == r.0@.len(),
        forall|k: int| 0 <= k < r.0@.len() ==> #[trigger] r.1@[k] == ref_of(r.0@[k]),
{
    let mut rows: Vec<Row<'a>> = Vec::new();
    proof {
        assert forall|a: int, k: int| 0 <= a < apps@.len() && 0 <= k < apps@[a].procs@.len() implies #[trigger] apps@[a].procs@[k] < procs@.len() by {}
        assert forall|a: int, k: int| 0 <= a < background@.len() && 0 <= k < background@[a].procs@.len() implies #[trigger] background@[a].procs@[k] < procs@.len() by {}
    }
    append_section(&mut rows, "Apps", apps, procs, filter_active, expanded);
    append_section(&mut rows, "Background processes", background, procs, filter_active, expanded);
    let refs = row_refs(&rows);
    (rows, refs)
}

} // verus!
