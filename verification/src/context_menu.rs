//! Right-click menus: the entries shown, the action each stands for, and what
//! an activated entry resolves to.
use vstd::prelude::*;

verus! {

/// What the open menu acts on. Copied out at activation so that dispatch does
/// not depend on the live selection.
#[derive(Debug)]
pub enum Target {
    Process(u32),
    Group(String),
    Service(usize),
    Startup(usize),
}

impl Clone for Target {
    fn clone(&self) -> (r: Self)
        ensures
            r == *self,
    {
        match self {
            Target::Process(p) => Target::Process(*p),
            Target::Group(g) => Target::Group(g.clone()),
            Target::Service(i) => Target::Service(*i),
            Target::Startup(i) => Target::Startup(*i),
        }
    }
}

/// A menu action, dispatched against the stored target.
#[derive(Clone, Copy, Debug, PartialEq, Eq, Structural)]
pub enum Act {
    EndTask,
    ForceKill,
    SuspendResume,
    EndAll,
    ForceKillAll,
    SuspendResumeAll,
    OpenLocation,
    SearchOnline,
    CopyPid,
    CopyName,
    CopyCmd,
    CopyAllPids,
    CopyUnit,
    SvcStart,
    SvcStop,
    SvcRestart,
    OpenDesktop,
    Properties,
}

/// One line of a menu as the view draws it. `action` is the index of the
/// entry's action, or -1 for a separator.
#[derive(Debug)]
pub struct MenuEntry {
    pub label: String,
    pub action: i32,
    pub enabled: bool,
    pub separator: bool,
}

// ---------------------------------------------------------------------------
// The open menu.
// ---------------------------------------------------------------------------

pub struct ContextMenu {
    pub open: bool,
    target: Option<Target>,
    acts: Vec<Act>,
}

/// What an activated entry with action index `action` resolves to.
pub open spec fn resolved(target: Option<Target>, acts: Seq<Act>, action: int) -> Option<(Target, Act)> {
    match target {
        Some(t) => if 0 <= action < acts.len() {
            Some((t, acts[action]))
        } else {
            None
        },
        None => None,
    }
}

impl Default for ContextMenu {
    fn default() -> (r: Self)
        ensures
            !r.is_open(),
            r.target_view() is None,
            r.acts_view() == Seq::<Act>::empty(),
    {
        ContextMenu { open: false, target: None, acts: Vec::new() }
    }
}

impl ContextMenu {
    pub closed spec fn is_open(&self) -> bool {
        self.open
    }

    pub closed spec fn target_view(&self) -> Option<Target> {
        self.target
    }

    pub closed spec fn acts_view(&self) -> Seq<Act> {
        self.acts@
    }

    /// Stores the target and the actions of a freshly built menu, and opens it.
    pub fn arm(&mut self, target: Target, acts: Vec<Act>)
        ensures
            final(self).is_open(),
            final(self).target_view() == Some(target),
            final(self).acts_view() == acts@,
    {
        self.target = Some(target);
        self.acts = acts;
        self.open = true;
    }

    /// Closes the menu and forgets its target and actions.
    pub fn close(&mut self)
        ensures
            !final(self).is_open(),
            final(self).target_view() is None,
            final(self).acts_view() == Seq::<Act>::empty(),
    {
        self.open = false;
        self.target = None;
        self.acts.clear();
    }

    /// The target and action of the entry whose action index is `action`.
    pub fn resolve(&self, action: usize) -> (r: Option<(Target, Act)>)
        ensures
            r == resolved(self.target_view(), self.acts_view(), action as int),
    {
        match &self.target {
            Some(t) => {
                if action < self.acts.len() {
                    Some((t.clone(), self.acts[action]))
                } else {
                    None
                }
            },
            None => None,
        }
    }
}

/// An armed menu resolves each action index to the armed target and the
/// action at that index; a closed menu resolves nothing.
pub proof fn lemma_arm_then_resolve(target: Target, acts: Seq<Act>, i: int)
    ensures
        0 <= i < acts.len() ==> resolved(Some(target), acts, i) == Some((target, acts[i])),
        resolved(None, Seq::<Act>::empty(), i) is None,
        !(0 <= i < acts.len()) ==> resolved(Some(target), acts, i) is None,
{
}

// ---------------------------------------------------------------------------
// Building a menu.
// ---------------------------------------------------------------------------

/// A requested line: a label with its action and whether it is enabled, or
/// a separator (`None`).
pub type Line = (Seq<char>, Option<(Act, bool)>);

/// How many of the lines are actions.
pub open spec fn action_count(lines: Seq<Line>) -> nat
    decreases lines.len(),
{
    if lines.len() == 0 {
        0
    } else {
        action_count(lines.drop_last()) + if lines.last().1 is Some {
            1nat
        } else {
            0nat
        }
    }
}

/// The action list of the lines: one per action line, in order.
pub open spec fn acts_of(lines: Seq<Line>) -> Seq<Act>
    decreases lines.len(),
{
    if lines.len() == 0 {
        Seq::empty()
    } else {
        match lines.last().1 {
            Some((a, _)) => acts_of(lines.drop_last()).push(a),
            None => acts_of(lines.drop_last()),
        }
    }
}

/// The entry drawn for line `k`: an action line carries the number of
/// action lines before it; a separator carries -1 and is disabled.
pub open spec fn entry_matches(e: MenuEntry, lines: Seq<Line>, k: int) -> bool {
    match lines[k].1 {
        Some((_, enabled)) => e.label@ == lines[k].0 && e.action == (action_count(lines.take(k)) as i32)
            && e.enabled == enabled && !e.separator,
        None => e.label@ == Seq::<char>::empty() && e.action == -1 && !e.enabled && e.separator,
    }
}

/// Collects menu entries and, in parallel, the actions they dispatch to.
/// Separators take no action slot.
pub struct Builder {
    entries: Vec<MenuEntry>,
    acts: Vec<Act>,
    lines: Ghost<Seq<Line>>,
}

impl Builder {
    /// The lines requested so far.
    pub closed spec fn lines(&self) -> Seq<Line> {
        self.lines@
    }

    pub closed spec fn wf(&self) -> bool {
        &&& self.entries@.len() == self.lines@.len()
        &&& forall|k: int| 0 <= k < self.lines@.len() ==> entry_matches(#[trigger] self.entries@[k], self.lines@, k)
        &&& self.acts@ == acts_of(self.lines@)
    }

    pub fn new() -> (r: Self)
        ensures
            r.wf(),
            r.lines() == Seq::<Line>::empty(),
    {
        Builder { entries: Vec::new(), acts: Vec::new(), lines: Ghost(Seq::empty()) }
    }

    /// Adds an action line.
    pub fn item(&mut self, label: &str, act: Act, enabled: bool) -> (r: &mut Self)
        requires
            old(self).wf(),
        ensures
            r.wf(),
            r.lines() == old(self).lines().push((label@, Some((act, enabled)))),
            *final(self) == *final(r),
    {
        proof {
            lemma_acts_len(self.lines@);
        }
        let mut l = String::new();
        crate::text::push_lit(&mut l, label);
        let ghost old_lines = self.lines@;
        let ghost new_lines = old_lines.push((label@, Some((act, enabled))));
        let n = self.acts.len();
        self.entries.push(MenuEntry { label: l, action: #[verifier::truncate] (n as i32), enabled, separator: false });
        self.acts.push(act);
        self.lines = Ghost(new_lines);
        proof {
            assert(new_lines.drop_last() =~= old_lines);
            assert(new_lines.take(old_lines.len() as int) =~= old_lines);
            assert forall|k: int| 0 <= k < new_lines.len() implies entry_matches(
                #[trigger] self.entries@[k],
                new_lines,
                k,
            ) by {
                if k < old_lines.len() {
                    assert(new_lines.take(k) =~= old_lines.take(k));
                    assert(new_lines[k] == old_lines[k]);
                }
            }
        }
        self
    }

    /// Adds a separator line.
    pub fn sep(&mut self) -> (r: &mut Self)
        requires
            old(self).wf(),
        ensures
            r.wf(),
            r.lines() == old(self).lines().push((Seq::<char>::empty(), None::<(Act, bool)>)),
            *final(self) == *final(r),
    {
        let ghost old_lines = self.lines@;
        let ghost new_lines = old_lines.push((Seq::<char>::empty(), None::<(Act, bool)>));
        self.entries.push(MenuEntry { label: String::new(), action: -1, enabled: false, separator: true });
        self.lines = Ghost(new_lines);
        proof {
            assert(new_lines.drop_last() =~= old_lines);
            assert forall|k: int| 0 <= k < new_lines.len() implies entry_matches(
                #[trigger] self.entries@[k],
                new_lines,
                k,
            ) by {
                if k < old_lines.len() {
                    assert(new_lines.take(k) =~= old_lines.take(k));
                    assert(new_lines[k] == old_lines[k]);
                }
            }
        }
        self
    }

    /// The entries to draw and the action list to arm the menu with.
    pub fn finish(self) -> (r: (Vec<MenuEntry>, Vec<Act>))
        requires
            self.wf(),
        ensures
            r.0@.len() == self.lines().len(),
            forall|k: int| 0 <= k < self.lines().len() ==> entry_matches(#[trigger] r.0@[k], self.lines(), k),
            r.1@ == acts_of(self.lines()),
    {
        (self.entries, self.acts)
    }
}

proof fn lemma_acts_len(lines: Seq<Line>)
    ensures
        acts_of(lines).len() == action_count(lines),
        action_count(lines) <= lines.len(),
    decreases lines.len(),
{
    if lines.len() > 0 {
        lemma_acts_len(lines.drop_last());
    }
}

/// The action index drawn on an action line picks, in the action list, the
/// action given with that line.
pub proof fn lemma_entry_action(lines: Seq<Line>, k: int)
    requires
        0 <= k < lines.len(),
        lines[k].1 is Some,
    ensures
        action_count(lines.take(k)) < acts_of(lines).len(),
        acts_of(lines)[action_count(lines.take(k)) as int] == (lines[k].1->0).0,
    decreases lines.len(),
{
    lemma_acts_len(lines);
    lemma_acts_len(lines.take(k));
    if k == lines.len() - 1 {
        assert(lines.drop_last() =~= lines.take(k));
    } else {
        lemma_entry_action(lines.drop_last(), k);
        assert(lines.drop_last().take(k) =~= lines.take(k));
        lemma_acts_len(lines.drop_last());
    }
}

} // verus!
