//! Undo / redo history of edit commands.
//!
//! Commands are applied to a document and kept on an undo stack; undoing
//! moves the newest one to the redo stack after reverting it, redoing moves it
//! back after applying it again. Commands pushed between `begin_group` and
//! `end_group` form one undo step. The undo stack keeps at most
//! [`HISTORY_CAP`] steps, dropping the oldest.

use vstd::prelude::*;
use vstd::string::*;

verus! {

/// Most undo steps kept.
pub const HISTORY_CAP: usize = 200;

/// An undoable edit of a document of type `P`.
///
/// Each edit says, as spec functions, how applying and reverting it relate
/// the document before to the document after, and what its description
/// reads.
pub trait EditCommand<P> {
    /// Applying the edit can take document `before` to `after`. An edit that
    /// states nothing of its effect keeps this default, which admits every
    /// pair.
    open spec fn applied(&self, before: P, after: P) -> bool {
        true
    }

    /// Reverting the edit can take document `before` to `after`; by default
    /// every pair.
    open spec fn reverted(&self, before: P, after: P) -> bool {
        true
    }

    /// The text of the edit's description; by default empty.
    open spec fn describes(&self) -> Seq<char> {
        Seq::empty()
    }

    /// Apply the edit.
    fn apply(&self, doc: &mut P)
        ensures
            self.applied(*old(doc), *final(doc)),
    ;

    /// Undo the edit.
    fn revert(&self, doc: &mut P)
        ensures
            self.reverted(*old(doc), *final(doc)),
    ;

    /// What the edit does, for display.
    fn description(&self) -> (r: &str)
        ensures
            r@ == self.describes(),
    ;
}

/// Command `k` applied takes document `ds[k]` to `ds[k + 1]`.
pub open spec fn apply_link<P, C: EditCommand<P>>(cmds: Seq<C>, ds: Seq<P>, k: int) -> bool {
    cmds[k].applied(ds[k], ds[k + 1])
}

/// Reverting the `j`-th command from the end takes `ds[j]` to `ds[j + 1]`.
pub open spec fn revert_link<P, C: EditCommand<P>>(cmds: Seq<C>, ds: Seq<P>, j: int) -> bool {
    cmds[cmds.len() - 1 - j].reverted(ds[j], ds[j + 1])
}

/// `ds` runs from `before` to `after` through one document per command:
/// applying command `k` takes `ds[k]` to `ds[k + 1]`.
pub open spec fn apply_chain<P, C: EditCommand<P>>(cmds: Seq<C>, ds: Seq<P>, before: P, after: P) -> bool {
    &&& ds.len() == cmds.len() + 1
    &&& ds[0] == before
    &&& ds[cmds.len() as int] == after
    &&& forall|k: int| 0 <= k < cmds.len() ==> #[trigger] apply_link(cmds, ds, k)
}

/// `ds` runs from `before` to `after` through one document per command,
/// last command first: reverting it takes `ds[0]` to `ds[1]`, and so on.
pub open spec fn revert_chain<P, C: EditCommand<P>>(cmds: Seq<C>, ds: Seq<P>, before: P, after: P) -> bool {
    &&& ds.len() == cmds.len() + 1
    &&& ds[0] == before
    &&& ds[cmds.len() as int] == after
    &&& forall|j: int| 0 <= j < cmds.len() ==> #[trigger] revert_link(cmds, ds, j)
}

/// Applying `cmds` first to last can take `before` to `after`.
pub open spec fn applied_in_order<P, C: EditCommand<P>>(cmds: Seq<C>, before: P, after: P) -> bool {
    exists|ds: Seq<P>| #[trigger] apply_chain(cmds, ds, before, after)
}

/// Reverting `cmds` last to first can take `before` to `after`.
pub open spec fn reverted_in_reverse<P, C: EditCommand<P>>(cmds: Seq<C>, before: P, after: P) -> bool {
    exists|ds: Seq<P>| #[trigger] revert_chain(cmds, ds, before, after)
}

/// Several commands that undo and redo as one step: applied in order,
/// reverted in reverse order.
pub struct GroupedCommands<C> {
    pub commands: Vec<C>,
    pub desc: String,
}

impl<C> GroupedCommands<C> {
    /// Apply every command, first to last.
    pub fn apply<P>(&self, doc: &mut P) where C: EditCommand<P>
        ensures
            applied_in_order(self.commands@, *old(doc), *final(doc)),
    {
        let ghost start = *doc;
        let ghost mut ds: Seq<P> = seq![start];
        let mut i: usize = 0;
        while i < self.commands.len()
            invariant
                i <= self.commands@.len(),
                ds.len() == i + 1,
                ds[0] == start,
                ds[i as int] == *doc,
                forall|k: int| 0 <= k < i ==> #[trigger] apply_link(self.commands@, ds, k),
            decreases self.commands@.len() - i,
        {
            let ghost prev = *doc;
            self.commands[i].apply(doc);
            proof {
                let ds2 = ds.push(*doc);
                assert forall|k: int| 0 <= k < i + 1 implies #[trigger] apply_link(self.commands@, ds2, k) by {
                    assert(ds2[k] == if k < ds.len() { ds[k] } else { *doc });
                    if k < i {
                        assert(apply_link(self.commands@, ds, k));
                        assert(ds2[k + 1] == ds[k + 1]);
                    } else {
                        assert(ds2[k] == prev && ds2[k + 1] == *doc);
                    }
                }
                ds = ds2;
            }
            i = i + 1;
        }
        proof {
            assert(apply_chain(self.commands@, ds, start, *doc));
        }
    }

    /// Revert every command, last to first.
    pub fn revert<P>(&self, doc: &mut P) where C: EditCommand<P>
        ensures
            reverted_in_reverse(self.commands@, *old(doc), *final(doc)),
    {
        let ghost start = *doc;
        let ghost mut ds: Seq<P> = seq![start];
        let ghost n = self.commands@.len();
        let mut i: usize = self.commands.len();
        while i > 0
            invariant
                i <= n,
                n == self.commands@.len(),
                ds.len() == n - i + 1,
                ds[0] == start,
                ds[n - i] == *doc,
                forall|j: int| 0 <= j < n - i ==> #[trigger] revert_link(self.commands@, ds, j),
            decreases i,
        {
            let ghost prev = *doc;
            self.commands[i - 1].revert(doc);
            proof {
                let ds2 = ds.push(*doc);
                assert forall|j: int| 0 <= j < n - i + 1 implies #[trigger] revert_link(self.commands@, ds2, j) by {
                    if j < n - i {
                        assert(revert_link(self.commands@, ds, j));
                        assert(ds2[j] == ds[j] && ds2[j + 1] == ds[j + 1]);
                    } else {
                        assert(n - 1 - j == i - 1);
                        assert(ds2[j] == prev && ds2[j + 1] == *doc);
                    }
                }
                ds = ds2;
            }
            i = i - 1;
        }
        proof {
            assert(revert_chain(self.commands@, ds, start, *doc));
        }
    }
}

/// One undo step: a single command or a group.
pub enum Step<C> {
    One(C),
    Group(GroupedCommands<C>),
}

/// Applying step `s` can take `before` to `after`.
pub open spec fn step_applied<P, C: EditCommand<P>>(s: Step<C>, before: P, after: P) -> bool {
    match s {
        Step::One(c) => c.applied(before, after),
        Step::Group(g) => applied_in_order(g.commands@, before, after),
    }
}

/// Reverting step `s` can take `before` to `after`.
pub open spec fn step_reverted<P, C: EditCommand<P>>(s: Step<C>, before: P, after: P) -> bool {
    match s {
        Step::One(c) => c.reverted(before, after),
        Step::Group(g) => reverted_in_reverse(g.commands@, before, after),
    }
}

/// The description of step `s`: its command's, or its group's own.
pub open spec fn step_describes<P, C: EditCommand<P>>(s: Step<C>) -> Seq<char> {
    match s {
        Step::One(c) => c.describes(),
        Step::Group(g) => g.desc@,
    }
}

impl<C> Step<C> {
    /// Apply the step.
    pub fn apply<P>(&self, doc: &mut P) where C: EditCommand<P>
        ensures
            step_applied(*self, *old(doc), *final(doc)),
    {
        match self {
            Step::One(c) => c.apply(doc),
            Step::Group(g) => g.apply(doc),
        }
    }

    /// Revert the step.
    pub fn revert<P>(&self, doc: &mut P) where C: EditCommand<P>
        ensures
            step_reverted(*self, *old(doc), *final(doc)),
    {
        match self {
            Step::One(c) => c.revert(doc),
            Step::Group(g) => g.revert(doc),
        }
    }

    /// The step's description: the command's, or the group's own.
    pub fn description<P>(&self) -> (r: &str) where C: EditCommand<P>
        ensures
            r@ == step_describes::<P, C>(*self),
    {
        match self {
            Step::One(c) => c.description(),
            Step::Group(g) => g.desc.as_str(),
        }
    }
}

/// Undo and redo stacks, and the commands of an open group.
pub struct History<C> {
    past: Vec<Step<C>>,
    future: Vec<Step<C>>,
    pending_group: Option<Vec<C>>,
}

/// The undo stack after recording a step: it goes on top and, past the cap,
/// the oldest step is dropped.
pub open spec fn capped_push<T>(s: Seq<T>, x: T) -> Seq<T> {
    if s.len() + 1 > HISTORY_CAP {
        s.push(x).drop_first()
    } else {
        s.push(x)
    }
}

impl<C> History<C> {
    /// The undo stack, oldest first.
    pub closed spec fn past_spec(&self) -> Seq<Step<C>> {
        self.past@
    }

    /// The redo stack; its last element is redone first.
    pub closed spec fn future_spec(&self) -> Seq<Step<C>> {
        self.future@
    }

    /// The commands of the open group, if a group is open.
    pub closed spec fn pending_spec(&self) -> Option<Seq<C>> {
        match self.pending_group {
            Some(g) => Some(g@),
            None => None,
        }
    }

    /// An empty history with no group open.
    pub fn new() -> (h: Self)
        ensures
            h.past_spec() == Seq::<Step<C>>::empty(),
            h.future_spec() == Seq::<Step<C>>::empty(),
            h.pending_spec() == Option::<Seq<C>>::None,
    {
        History { past: Vec::new(), future: Vec::new(), pending_group: None }
    }

    /// Record a step on the undo stack, clearing the redo stack.
    fn commit(&mut self, step: Step<C>)
        requires
            old(self).past_spec().len() <= HISTORY_CAP,
        ensures
            final(self).past_spec() == capped_push(old(self).past_spec(), step),
            final(self).future_spec() == Seq::<Step<C>>::empty(),
            final(self).pending_spec() == old(self).pending_spec(),
    {
        self.future.clear();
        self.past.push(step);
        if self.past.len() > HISTORY_CAP {
            self.past.remove(0);
        }
    }

    /// Add a command that has already been applied: into the open group if
    /// there is one, else onto the undo stack (clearing the redo stack).
    pub fn record(&mut self, cmd: C)
        requires
            old(self).past_spec().len() <= HISTORY_CAP,
        ensures
            final(self).past_spec().len() <= HISTORY_CAP,
            match old(self).pending_spec() {
                Some(g) => {
                    &&& final(self).pending_spec() == Some(g.push(cmd))
                    &&& final(self).past_spec() == old(self).past_spec()
                    &&& final(self).future_spec() == old(self).future_spec()
                },
                None => {
                    &&& final(self).pending_spec() == Option::<Seq<C>>::None
                    &&& final(self).past_spec() == capped_push(old(self).past_spec(), Step::One(cmd))
                    &&& final(self).future_spec() == Seq::<Step<C>>::empty()
                },
            },
    {
        match self.pending_group.take() {
            Some(mut g) => {
                g.push(cmd);
                self.pending_group = Some(g);
            },
            None => {
                self.commit(Step::One(cmd));
            },
        }
    }

    /// Apply `cmd` to `doc` and record it as [`record`](Self::record) does.
    pub fn push<P>(&mut self, cmd: C, doc: &mut P) where C: EditCommand<P>
        requires
            old(self).past_spec().len() <= HISTORY_CAP,
        ensures
            final(self).past_spec().len() <= HISTORY_CAP,
            match old(self).pending_spec() {
                Some(g) => {
                    &&& final(self).pending_spec() == Some(g.push(cmd))
                    &&& final(self).past_spec() == old(self).past_spec()
                    &&& final(self).future_spec() == old(self).future_spec()
                },
                None => {
                    &&& final(self).pending_spec() == Option::<Seq<C>>::None
                    &&& final(self).past_spec() == capped_push(old(self).past_spec(), Step::One(cmd))
                    &&& final(self).future_spec() == Seq::<Step<C>>::empty()
                },
            },
            cmd.applied(*old(doc), *final(doc)),
    {
        cmd.apply(doc);
        self.record(cmd);
    }

    /// Open a group; later pushes join it until `end_group`. Does nothing if
    /// a group is already open.
    pub fn begin_group(&mut self)
        ensures
            final(self).past_spec() == old(self).past_spec(),
            final(self).future_spec() == old(self).future_spec(),
            final(self).pending_spec() == match old(self).pending_spec() {
                Some(g) => Some(g),
                None => Some(Seq::<C>::empty()),
            },
    {
        if self.pending_group.is_none() {
            self.pending_group = Some(Vec::new());
        }
    }

    /// Close the open group and record it as one step named `desc`; an empty
    /// group is discarded. Does nothing if no group is open.
    pub fn end_group(&mut self, desc: &str)
        requires
            old(self).past_spec().len() <= HISTORY_CAP,
        ensures
            final(self).past_spec().len() <= HISTORY_CAP,
            final(self).pending_spec() == Option::<Seq<C>>::None,
            match old(self).pending_spec() {
                Some(g) => if g.len() > 0 {
                    &&& final(self).future_spec() == Seq::<Step<C>>::empty()
                    &&& final(self).past_spec() == capped_push(old(self).past_spec(), final(self).past_spec().last())
                    &&& final(self).past_spec().last() matches Step::Group(gc) && gc.commands@ == g && gc.desc@ == desc@
                } else {
                    &&& final(self).past_spec() == old(self).past_spec()
                    &&& final(self).future_spec() == old(self).future_spec()
                },
                None => {
                    &&& final(self).past_spec() == old(self).past_spec()
                    &&& final(self).future_spec() == old(self).future_spec()
                },
            },
    {
        match self.pending_group.take() {
            Some(commands) => {
                if commands.len() > 0 {
                    let group = GroupedCommands { commands, desc: desc.to_string() };
                    self.commit(Step::Group(group));
                }
            },
            None => {},
        }
    }
}

impl<C> History<C> {
    /// Revert the newest step on `doc` and move it to the redo stack; returns
    /// its description, or `None` (changing nothing) when there is nothing to
    /// undo.
    pub fn undo<P>(&mut self, doc: &mut P) -> (r: Option<String>) where C: EditCommand<P>
        ensures
            final(self).pending_spec() == old(self).pending_spec(),
            old(self).past_spec().len() == 0 ==> r.is_none() && final(self).past_spec() == old(
                self,
            ).past_spec() && final(self).future_spec() == old(self).future_spec(),
            old(self).past_spec().len() > 0 ==> r.is_some() && final(self).past_spec() == old(
                self,
            ).past_spec().drop_last() && final(self).future_spec() == old(self).future_spec().push(
                old(self).past_spec().last(),
            ),
            old(self).past_spec().len() == 0 ==> *final(doc) == *old(doc),
            old(self).past_spec().len() > 0 ==> step_reverted(old(self).past_spec().last(), *old(doc), *final(doc))
                && r.unwrap()@ == step_describes::<P, C>(old(self).past_spec().last()),
    {
        match self.past.pop() {
            None => None,
            Some(step) => {
                step.revert(doc);
                let d = String::from_str(step.description());
                self.future.push(step);
                Some(d)
            },
        }
    }

    /// Apply the step undone last on `doc` and move it back to the undo
    /// stack; returns its description, or `None` (changing nothing) when there
    /// is nothing to redo.
    pub fn redo<P>(&mut self, doc: &mut P) -> (r: Option<String>) where C: EditCommand<P>
        ensures
            final(self).pending_spec() == old(self).pending_spec(),
            old(self).future_spec().len() == 0 ==> r.is_none() && final(self).past_spec() == old(
                self,
            ).past_spec() && final(self).future_spec() == old(self).future_spec(),
            old(self).future_spec().len() > 0 ==> r.is_some() && final(self).future_spec() == old(
                self,
            ).future_spec().drop_last() && final(self).past_spec() == old(self).past_spec().push(
                old(self).future_spec().last(),
            ),
            old(self).future_spec().len() == 0 ==> *final(doc) == *old(doc),
            old(self).future_spec().len() > 0 ==> step_applied(old(self).future_spec().last(), *old(doc), *final(doc))
                && r.unwrap()@ == step_describes::<P, C>(old(self).future_spec().last()),
    {
        match self.future.pop() {
            None => None,
            Some(step) => {
                step.apply(doc);
                let d = String::from_str(step.description());
                self.past.push(step);
                Some(d)
            },
        }
    }

    /// Whether there is a step to undo.
    pub fn can_undo(&self) -> (r: bool)
        ensures
            r == (self.past_spec().len() > 0),
    {
        self.past.len() > 0
    }

    /// Whether there is a step to redo.
    pub fn can_redo(&self) -> (r: bool)
        ensures
            r == (self.future_spec().len() > 0),
    {
        self.future.len() > 0
    }

    /// Number of undo steps.
    pub fn depth(&self) -> (r: usize)
        ensures
            r == self.past_spec().len(),
    {
        self.past.len()
    }

    /// Forget everything, closing any open group.
    pub fn clear(&mut self)
        ensures
            final(self).past_spec() == Seq::<Step<C>>::empty(),
            final(self).future_spec() == Seq::<Step<C>>::empty(),
            final(self).pending_spec() == Option::<Seq<C>>::None,
    {
        self.past.clear();
        self.future.clear();
        self.pending_group = None;
    }

    /// The undo stack, oldest first.
    pub fn past_steps(&self) -> (r: &[Step<C>])
        ensures
            r@ == self.past_spec(),
    {
        self.past.as_slice()
    }

    /// The redo stack; its last element is redone first.
    pub fn future_steps(&self) -> (r: &[Step<C>])
        ensures
            r@ == self.future_spec(),
    {
        self.future.as_slice()
    }

    /// A history with the given stacks and no open group.
    pub fn from_stacks(past: Vec<Step<C>>, future: Vec<Step<C>>) -> (h: Self)
        ensures
            h.past_spec() == past@,
            h.future_spec() == future@,
            h.pending_spec() == Option::<Seq<C>>::None,
    {
        History { past, future, pending_group: None }
    }
}

/// Undoing a step and redoing it leaves both stacks as they were, and so does
/// redoing a step and undoing it.
pub proof fn lemma_undo_redo_inverse<C>(past: Seq<Step<C>>, future: Seq<Step<C>>)
    ensures
        past.len() > 0 ==> past.drop_last().push(past.last()) == past && future.push(past.last()).drop_last()
            == future && future.push(past.last()).last() == past.last(),
        future.len() > 0 ==> future.drop_last().push(future.last()) == future && past.push(future.last()).drop_last()
            == past && past.push(future.last()).last() == future.last(),
{
    if past.len() > 0 {
        assert(past.drop_last().push(past.last()) =~= past);
        assert(future.push(past.last()).drop_last() =~= future);
    }
    if future.len() > 0 {
        assert(future.drop_last().push(future.last()) =~= future);
        assert(past.push(future.last()).drop_last() =~= past);
    }
}

/// Below the cap, undoing right after recording a step takes exactly that
/// step off and leaves the undo stack as it was before; at the cap the oldest
/// step is gone for good.
pub proof fn lemma_record_then_undo<T>(past: Seq<T>, x: T)
    ensures
        past.len() < HISTORY_CAP ==> capped_push(past, x).drop_last() == past && capped_push(past, x).last() == x,
        past.len() == HISTORY_CAP ==> capped_push(past, x).drop_last() == past.drop_first() && capped_push(past, x).last() == x
            && capped_push(past, x).len() == HISTORY_CAP,
{
    if past.len() < HISTORY_CAP {
        assert(capped_push(past, x).drop_last() =~= past);
    }
    if past.len() == HISTORY_CAP {
        assert(capped_push(past, x).drop_last() =~= past.drop_first());
    }
}

/// Reverting `c` undoes applying it: from any document, apply then revert
/// comes back to it.
pub open spec fn undoes<P, C: EditCommand<P>>(c: C) -> bool {
    forall|a: P, b: P, d: P| #[trigger] c.applied(a, b) && #[trigger] c.reverted(b, d) ==> d == a
}

/// Applying a group first to last and then reverting it last to first
/// restores the document, when each command's revert undoes its apply.
pub proof fn lemma_group_undo_restores<P, C: EditCommand<P>>(cmds: Seq<C>, a: P, b: P, d: P)
    requires
        applied_in_order(cmds, a, b),
        reverted_in_reverse(cmds, b, d),
        forall|k: int| 0 <= k < cmds.len() ==> undoes(#[trigger] cmds[k]),
    ensures
        d == a,
{
    let ds = choose|ds: Seq<P>| #[trigger] apply_chain(cmds, ds, a, b);
    let es = choose|es: Seq<P>| #[trigger] revert_chain(cmds, es, b, d);
    let n = cmds.len() as int;
    assert forall|j: int| 0 <= j <= n implies #[trigger] es[j] == ds[n - j] by {
        lemma_revert_chain_tracks(cmds, ds, es, a, b, d, j);
    }
    assert(es[n] == ds[0]);
}

proof fn lemma_revert_chain_tracks<P, C: EditCommand<P>>(cmds: Seq<C>, ds: Seq<P>, es: Seq<P>, a: P, b: P, d: P, j: int)
    requires
        apply_chain(cmds, ds, a, b),
        revert_chain(cmds, es, b, d),
        forall|k: int| 0 <= k < cmds.len() ==> undoes(#[trigger] cmds[k]),
        0 <= j <= cmds.len(),
    ensures
        es[j] == ds[cmds.len() - j],
    decreases j,
{
    let n = cmds.len() as int;
    if j > 0 {
        lemma_revert_chain_tracks(cmds, ds, es, a, b, d, j - 1);
        let k = n - j;
        assert(apply_link(cmds, ds, k));
        assert(revert_link(cmds, es, j - 1));
        assert(undoes(cmds[k]));
        assert(cmds[k].applied(ds[k], ds[k + 1]));
        assert(cmds[k].reverted(es[j - 1], es[j]));
    }
}

/// Every command of step `s` has a revert that undoes its apply.
pub open spec fn step_undoable<P, C: EditCommand<P>>(s: Step<C>) -> bool {
    match s {
        Step::One(c) => undoes(c),
        Step::Group(g) => forall|k: int| 0 <= k < g.commands@.len() ==> undoes(#[trigger] g.commands@[k]),
    }
}

/// Undoing a step right after it was applied (as [`History::push`] or a
/// grouped edit followed by [`History::undo`] do) restores the document, when
/// each of its commands' revert undoes its apply.
pub proof fn lemma_step_undo_restores<P, C: EditCommand<P>>(s: Step<C>, a: P, b: P, d: P)
    requires
        step_applied(s, a, b),
        step_reverted(s, b, d),
        step_undoable(s),
    ensures
        d == a,
{
    match s {
        Step::One(c) => {
            assert(c.applied(a, b) && c.reverted(b, d));
        },
        Step::Group(g) => {
            lemma_group_undo_restores(g.commands@, a, b, d);
        },
    }
}

} // verus!
