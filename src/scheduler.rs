use vstd::prelude::*;

use crate::actions::Action;
use crate::arena::{Arena, Handle};
use crate::creatures::Creature;

verus! {

/// Why the scheduler cannot hand out the next action.
#[derive(Clone, Copy, Debug, PartialEq, Eq, Structural)]
pub enum SchedulerError {
    /// This creature has acted and must be given its next action first.
    ActionNotAssigned(Handle),
    /// No action is pending.
    QueueIsEmpty,
}

/// An action waiting for its turn, with the time left until it is due.
struct ActionEntry {
    cost: i64,
    action: Action,
}

/// A creature whose action has fired and which awaits its next one, with
/// the time it has banked toward it.
struct UnassignedEntry {
    creature: Handle,
    bonus_time: u32,
}

/// The state of a scheduler as values.
pub ghost struct SchedulerView {
    /// Pending actions in the order they were posted, each with the time
    /// left until it is due (negative when the actor is owed time).
    pub pending: Seq<(Action, int)>,
    /// Creatures awaiting an action, each with its banked time.
    pub awaiting: Seq<(Handle, nat)>,
}

/// Hands out actions in order of the time left until they are due, keeping
/// every creature to one pending action.
///
/// Times are relative to the present: when an action fires, every other
/// pending action's time shrinks by the time that has passed. A creature
/// whose action fired must be given a new one before any later action fires.
pub struct Scheduler {
    unassigned: Vec<UnassignedEntry>,
    queue: Vec<ActionEntry>,
}

/// Whether `k` is the first index of the least time left in `pending`.
pub open spec fn is_first_min(pending: Seq<(Action, int)>, k: int) -> bool {
    &&& 0 <= k < pending.len()
    &&& forall|j: int| 0 <= j < pending.len() ==> pending[k].1 <= #[trigger] pending[j].1
    &&& forall|j: int| 0 <= j < k ==> pending[k].1 < #[trigger] pending[j].1
}

/// The entry that is due next: the least time left, the earliest posted
/// among equals.
pub open spec fn first_min(pending: Seq<(Action, int)>) -> int {
    choose|k: int| is_first_min(pending, k)
}

/// Whether `k` is the first index of creature `h` in `awaiting`.
pub open spec fn is_first_of(awaiting: Seq<(Handle, nat)>, h: Handle, k: int) -> bool {
    &&& 0 <= k < awaiting.len()
    &&& awaiting[k].0 == h
    &&& forall|j: int| 0 <= j < k ==> #[trigger] awaiting[j].0 != h
}

/// Where `h` first awaits an action, or `-1` when it does not.
pub open spec fn awaiting_index(awaiting: Seq<(Handle, nat)>, h: Handle) -> int {
    if exists|k: int| is_first_of(awaiting, h, k) {
        choose|k: int| is_first_of(awaiting, h, k)
    } else {
        -1
    }
}

/// Whether some pending action belongs to `h`.
pub open spec fn is_pending(pending: Seq<(Action, int)>, h: Handle) -> bool {
    exists|i: int| 0 <= i < pending.len() && (#[trigger] pending[i]).0.spec_actor() == h
}

/// Whether no two pending actions belong to one creature.
pub open spec fn actors_unique(pending: Seq<(Action, int)>) -> bool {
    forall|i: int, j: int|
        0 <= i < pending.len() && 0 <= j < pending.len() && i != j ==> (#[trigger] pending[i]).0.spec_actor()
            != (#[trigger] pending[j]).0.spec_actor()
}

/// Whether each creature appears at most once across both lists: no turn
/// is ever held twice.
pub open spec fn turns_unique(v: SchedulerView) -> bool {
    &&& actors_unique(v.pending)
    &&& forall|i: int, j: int|
        0 <= i < v.awaiting.len() && 0 <= j < v.awaiting.len() && i != j ==> (#[trigger] v.awaiting[i]).0
            != (#[trigger] v.awaiting[j]).0
    &&& forall|i: int, j: int|
        0 <= i < v.pending.len() && 0 <= j < v.awaiting.len() ==> (#[trigger] v.pending[i]).0.spec_actor()
            != (#[trigger] v.awaiting[j]).0
}

/// `awaiting` without the entries at its end whose creature is not in `live`.
pub open spec fn prune(awaiting: Seq<(Handle, nat)>, live: Set<Handle>) -> Seq<(Handle, nat)>
    decreases awaiting.len(),
{
    if awaiting.len() > 0 && !live.contains(awaiting.last().0) {
        prune(awaiting.drop_last(), live)
    } else {
        awaiting
    }
}

/// `v` with dead creatures pruned from the end of its awaiting list.
pub open spec fn pruned(v: SchedulerView, live: Set<Handle>) -> SchedulerView {
    SchedulerView { pending: v.pending, awaiting: prune(v.awaiting, live) }
}

/// `v` after posting `action` whose cost is `cost`: the actor's banked
/// time, if it awaited an action, is taken off the cost and its awaiting
/// entry is replaced by the last one.
pub open spec fn after_post(v: SchedulerView, action: Action, cost: u32) -> SchedulerView {
    let k = awaiting_index(v.awaiting, action.spec_actor());
    if k < 0 {
        SchedulerView { pending: v.pending.push((action, cost as int)), awaiting: v.awaiting }
    } else {
        SchedulerView {
            pending: v.pending.push((action, cost - v.awaiting[k].1)),
            awaiting: v.awaiting.update(k, v.awaiting.last()).drop_last(),
        }
    }
}

/// What `peek_next` reports on a pruned state `v`.
pub open spec fn peek_result(v: SchedulerView) -> Result<Action, SchedulerError> {
    if v.awaiting.len() > 0 {
        Err(SchedulerError::ActionNotAssigned(v.awaiting[0].0))
    } else if v.pending.len() == 0 {
        Err(SchedulerError::QueueIsEmpty)
    } else {
        Ok(v.pending[first_min(v.pending)].0)
    }
}

/// Time that passes when the entry due next, of time left `cost`, fires.
pub open spec fn elapsed(cost: int) -> int {
    if cost > 0 {
        cost
    } else {
        0
    }
}

/// `v` after its due entry fired: it leaves the queue, every other entry's
/// time shrinks by the time elapsed, and its actor awaits a new action with
/// the time it was owed, if any, banked.
pub open spec fn after_pop(v: SchedulerView) -> SchedulerView {
    let i = first_min(v.pending);
    let (action, cost) = v.pending[i];
    let rest = v.pending.remove(i);
    SchedulerView {
        pending: rest.map_values(|e: (Action, int)| (e.0, e.1 - elapsed(cost))),
        awaiting: v.awaiting.push((action.spec_actor(), (elapsed(cost) - cost) as nat)),
    }
}

/// The first index of the least time left is unique.
pub proof fn lemma_first_min_unique(pending: Seq<(Action, int)>, k: int)
    requires
        is_first_min(pending, k),
    ensures
        first_min(pending) == k,
{
    let m = first_min(pending);
    assert(is_first_min(pending, m));
    if m < k {
        assert(pending[k].1 < pending[m].1);
    } else if k < m {
        assert(pending[m].1 < pending[k].1);
    }
}

/// The entry handed out next has the least time left of all pending
/// entries and was posted before every other entry with that time.
pub proof fn lemma_due_entry(pending: Seq<(Action, int)>)
    requires
        pending.len() > 0,
    ensures
        is_first_min(pending, first_min(pending)),
        forall|j: int| 0 <= j < pending.len() ==> pending[first_min(pending)].1 <= #[trigger] pending[j].1,
        forall|j: int| 0 <= j < first_min(pending) ==> pending[first_min(pending)].1 < #[trigger] pending[j].1,
    decreases pending.len(),
{
    if pending.len() == 1 {
        assert(is_first_min(pending, 0));
    } else {
        let init = pending.drop_last();
        lemma_due_entry(init);
        let k = first_min(init);
        let n = pending.len() - 1;
        assert forall|j: int| 0 <= j < n implies #[trigger] pending[j] == init[j] by {}
        assert(init[k].1 <= init[k].1);
        if pending[n].1 < init[k].1 {
            assert forall|j: int| 0 <= j < pending.len() implies pending[n].1 <= #[trigger] pending[j].1 by {
                if j < n {
                    assert(init[k].1 <= init[j].1);
                }
            }
            assert forall|j: int| 0 <= j < n implies pending[n].1 < #[trigger] pending[j].1 by {
                assert(init[k].1 <= init[j].1);
            }
            assert(is_first_min(pending, n));
        } else {
            assert forall|j: int| 0 <= j < pending.len() implies pending[k].1 <= #[trigger] pending[j].1 by {
                if j < n {
                    assert(init[k].1 <= init[j].1);
                }
            }
            assert forall|j: int| 0 <= j < k implies pending[k].1 < #[trigger] pending[j].1 by {
                assert(init[k].1 < init[j].1);
            }
            assert(is_first_min(pending, k));
        }
    }
}

/// Once an entry has fired, nothing more can be handed out until its actor
/// is given a new action, unless the actor has died, in which case its
/// awaiting entry is dropped.
pub proof fn lemma_rearm_required(v: SchedulerView, live: Set<Handle>)
    requires
        v.awaiting.len() == 0,
        v.pending.len() > 0,
    ensures
        ({
            let actor = v.pending[first_min(v.pending)].0.spec_actor();
            let next = pruned(after_pop(v), live);
            &&& live.contains(actor) ==> peek_result(next) == Err::<Action, SchedulerError>(
                SchedulerError::ActionNotAssigned(actor),
            )
            &&& !live.contains(actor) ==> next.awaiting.len() == 0
        }),
{
    let a = after_pop(v).awaiting;
    assert(prune(a.drop_last(), live) == a.drop_last());
}

/// Pruning twice prunes no more than pruning once.
pub proof fn lemma_prune_idempotent(awaiting: Seq<(Handle, nat)>, live: Set<Handle>)
    ensures
        prune(prune(awaiting, live), live) == prune(awaiting, live),
        prune(awaiting, live).len() > 0 ==> live.contains(prune(awaiting, live).last().0),
    decreases awaiting.len(),
{
    if awaiting.len() > 0 && !live.contains(awaiting.last().0) {
        lemma_prune_idempotent(awaiting.drop_last(), live);
    }
}

/// An awaiting entry of a dead creature with only dead creatures after it
/// is gone after one pruning, and stays gone however often pruning runs.
pub proof fn lemma_dead_entry_pruned(awaiting: Seq<(Handle, nat)>, live: Set<Handle>, k: int)
    requires
        0 <= k < awaiting.len(),
        forall|j: int| k <= j < awaiting.len() ==> !live.contains(#[trigger] awaiting[j].0),
    ensures
        prune(awaiting, live).len() <= k,
        prune(awaiting, live) == prune(awaiting.take(k), live),
        prune(prune(awaiting, live), live) == prune(awaiting, live),
    decreases awaiting.len(),
{
    lemma_prune_idempotent(awaiting, live);
    if awaiting.len() == k + 1 {
        assert(awaiting.drop_last() =~= awaiting.take(k));
        lemma_prune_shrinks(awaiting.take(k), live);
    } else {
        let init = awaiting.drop_last();
        assert(init.take(k) =~= awaiting.take(k));
        lemma_dead_entry_pruned(init, live, k);
    }
}

/// Pruning keeps a prefix.
proof fn lemma_prune_shrinks(awaiting: Seq<(Handle, nat)>, live: Set<Handle>)
    ensures
        prune(awaiting, live).len() <= awaiting.len(),
    decreases awaiting.len(),
{
    if awaiting.len() > 0 && !live.contains(awaiting.last().0) {
        lemma_prune_shrinks(awaiting.drop_last(), live);
    }
}

/// Whether `w` follows from `v` by one operation of a scheduler: posting an
/// action for a creature with none pending, pruning dead creatures, or
/// firing the entry due next.
pub open spec fn is_step(v: SchedulerView, w: SchedulerView) -> bool {
    ||| exists|a: Action, c: u32|
        !is_pending(v.pending, a.spec_actor()) && w == #[trigger] after_post(v, a, c)
    ||| exists|live: Set<Handle>| w == #[trigger] pruned(v, live)
    ||| v.awaiting.len() == 0 && v.pending.len() > 0 && w == after_pop(v)
}

/// Each operation of a scheduler is a step: `post_action` for a creature
/// with no pending action, the pruning that `peek_next` and `pop_next` do,
/// and the firing that a successful `pop_next` does after it.
pub proof fn lemma_operations_are_steps(v: SchedulerView, a: Action, c: u32, live: Set<Handle>)
    ensures
        !is_pending(v.pending, a.spec_actor()) ==> is_step(v, after_post(v, a, c)),
        is_step(v, pruned(v, live)),
        v.awaiting.len() == 0 && v.pending.len() > 0 ==> is_step(v, after_pop(v)),
{
}

/// Time that passes from `v` to `w`: only firing an entry takes time.
pub open spec fn step_elapsed(v: SchedulerView, w: SchedulerView) -> int {
    if w.pending.len() < v.pending.len() {
        elapsed(v.pending[first_min(v.pending)].1)
    } else {
        0
    }
}

/// Time that passes over a sequence of states.
pub open spec fn total_elapsed(trace: Seq<SchedulerView>) -> int
    decreases trace.len(),
{
    if trace.len() <= 1 {
        0
    } else {
        total_elapsed(trace.drop_last()) + step_elapsed(
            trace[trace.len() - 2],
            trace[trace.len() - 1],
        )
    }
}

/// Time left until the pending action of `h` is due.
pub open spec fn time_left(pending: Seq<(Action, int)>, h: Handle) -> int {
    pending[choose|i: int| 0 <= i < pending.len() && (#[trigger] pending[i]).0.spec_actor() == h].1
}

proof fn lemma_time_left(pending: Seq<(Action, int)>, h: Handle, i: int)
    requires
        actors_unique(pending),
        0 <= i < pending.len(),
        pending[i].0.spec_actor() == h,
    ensures
        time_left(pending, h) == pending[i].1,
{
    let j = choose|j: int| 0 <= j < pending.len() && (#[trigger] pending[j]).0.spec_actor() == h;
    assert(0 <= j < pending.len() && pending[j].0.spec_actor() == h);
    assert(j == i);
}

/// One operation keeps each creature to one pending action and shrinks
/// the time left of a creature still pending by exactly the time elapsed.
proof fn lemma_step_clock(v: SchedulerView, w: SchedulerView, h: Handle)
    requires
        actors_unique(v.pending),
        is_step(v, w),
        is_pending(v.pending, h),
        is_pending(w.pending, h),
    ensures
        actors_unique(w.pending),
        time_left(w.pending, h) + step_elapsed(v, w) == time_left(v.pending, h),
{
    let i = choose|i: int| 0 <= i < v.pending.len() && (#[trigger] v.pending[i]).0.spec_actor() == h;
    lemma_time_left(v.pending, h, i);
    if exists|a: Action, c: u32|
        !is_pending(v.pending, a.spec_actor()) && w == #[trigger] after_post(v, a, c) {
        let (a, c) = choose|a: Action, c: u32|
            !is_pending(v.pending, a.spec_actor()) && w == #[trigger] after_post(v, a, c);
        assert(w.pending[i] == v.pending[i]);
        assert(actors_unique(w.pending)) by {
            assert forall|x: int, y: int|
                0 <= x < w.pending.len() && 0 <= y < w.pending.len() && x != y implies (
                #[trigger] w.pending[x]).0.spec_actor() != (#[trigger] w.pending[y]).0.spec_actor() by {
                if x < v.pending.len() && y < v.pending.len() {
                    assert(w.pending[x] == v.pending[x] && w.pending[y] == v.pending[y]);
                } else if x < v.pending.len() {
                    assert(w.pending[x] == v.pending[x]);
                } else if y < v.pending.len() {
                    assert(w.pending[y] == v.pending[y]);
                }
            }
        }
        lemma_time_left(w.pending, h, i);
    } else if exists|live: Set<Handle>| w == #[trigger] pruned(v, live) {
        let live = choose|live: Set<Handle>| w == #[trigger] pruned(v, live);
        assert(w.pending == v.pending);
    } else {
        let m = first_min(v.pending);
        lemma_due_entry(v.pending);
        let c = v.pending[m].1;
        let rest = v.pending.remove(m);
        assert(w.pending.len() == rest.len());
        if v.pending[m].0.spec_actor() == h {
            let k = choose|k: int| 0 <= k < w.pending.len() && (#[trigger] w.pending[k]).0.spec_actor() == h;
            if k < m {
                assert(rest[k] == v.pending[k]);
            } else {
                assert(rest[k] == v.pending[k + 1]);
            }
            assert(false);
        }
        assert(actors_unique(w.pending)) by {
            assert forall|x: int, y: int|
                0 <= x < w.pending.len() && 0 <= y < w.pending.len() && x != y implies (
                #[trigger] w.pending[x]).0.spec_actor() != (#[trigger] w.pending[y]).0.spec_actor() by {
                let x0 = if x < m { x } else { x + 1 };
                let y0 = if y < m { y } else { y + 1 };
                assert(rest[x] == v.pending[x0] && rest[y] == v.pending[y0]);
            }
        }
        let k = if i < m { i } else { i - 1 };
        assert(rest[k] == v.pending[i]);
        lemma_time_left(w.pending, h, k);
    }
}

/// Relative clock: over any sequence of operations during which a creature
/// stays pending, the time left on its action shrinks by exactly the time
/// that passes, so the time passed plus the time still left always equals
/// the time it had to wait at the start.
pub proof fn lemma_relative_clock(trace: Seq<SchedulerView>, h: Handle)
    requires
        trace.len() >= 1,
        actors_unique(trace[0].pending),
        forall|k: int| 0 <= k < trace.len() - 1 ==> is_step(#[trigger] trace[k], trace[k + 1]),
        forall|k: int| 0 <= k < trace.len() ==> is_pending((#[trigger] trace[k]).pending, h),
    ensures
        actors_unique(trace.last().pending),
        time_left(trace.last().pending, h) + total_elapsed(trace) == time_left(trace[0].pending, h),
    decreases trace.len(),
{
    if trace.len() > 1 {
        let init = trace.drop_last();
        assert forall|k: int| 0 <= k < init.len() - 1 implies is_step(#[trigger] init[k], init[k + 1]) by {
            assert(init[k] == trace[k] && init[k + 1] == trace[k + 1]);
            assert(is_step(trace[k], trace[k + 1]));
        }
        assert forall|k: int| 0 <= k < init.len() implies is_pending((#[trigger] init[k]).pending, h) by {
            assert(init[k] == trace[k]);
            assert(is_pending(trace[k].pending, h));
        }
        lemma_relative_clock(init, h);
        let n = trace.len() - 1;
        assert(is_step(trace[n - 1], trace[n]));
        assert(is_pending(trace[n - 1].pending, h));
        assert(is_pending(trace[n].pending, h));
        lemma_step_clock(trace[n - 1], trace[n], h);
    }
}

spec fn pending_of(queue: Seq<ActionEntry>) -> Seq<(Action, int)> {
    queue.map_values(|e: ActionEntry| (e.action, e.cost as int))
}

spec fn awaiting_of(unassigned: Seq<UnassignedEntry>) -> Seq<(Handle, nat)> {
    unassigned.map_values(|e: UnassignedEntry| (e.creature, e.bonus_time as nat))
}

impl View for Scheduler {
    type V = SchedulerView;

    closed spec fn view(&self) -> SchedulerView {
        SchedulerView { pending: pending_of(self.queue@), awaiting: awaiting_of(self.unassigned@) }
    }
}

impl Scheduler {
    /// Times left stay within what a cost less a banked time can be, and
    /// each creature is at most once either pending or awaiting an action.
    pub open spec fn wf(&self) -> bool {
        &&& forall|i: int|
            0 <= i < self@.pending.len() ==> -(u32::MAX as int) <= (#[trigger] self@.pending[i]).1
                <= u32::MAX
        &&& turns_unique(self@)
    }

    pub fn new() -> (r: Scheduler)
        ensures
            r.wf(),
            r@.pending == Seq::<(Action, int)>::empty(),
            r@.awaiting == Seq::<(Handle, nat)>::empty(),
    {
        let r = Scheduler { unassigned: Vec::new(), queue: Vec::new() };
        assert(r@.pending =~= Seq::<(Action, int)>::empty());
        assert(r@.awaiting =~= Seq::<(Handle, nat)>::empty());
        r
    }

    /// Queues `action`, whose actor has no pending action, at its cost less
    /// any time its actor has banked.
    pub fn post_action(&mut self, creatures: &Arena<Creature>, action: Action)
        requires
            old(self).wf(),
            !is_pending(old(self)@.pending, action.spec_actor()),
        ensures
            final(self).wf(),
            final(self)@ == after_post(old(self)@, action, action.spec_cost(creatures@)),
    {
        let ghost v = self@;
        let cost = action.cost(creatures);
        let actor = *action.actor();
        let mut i: usize = 0;
        while i < self.unassigned.len()
            invariant
                self@ == v,
                0 <= i <= self.unassigned@.len(),
                forall|j: int| 0 <= j < i ==> #[trigger] v.awaiting[j].0 != actor,
            ensures
                self@ == v,
                0 <= i <= self.unassigned@.len(),
                forall|j: int| 0 <= j < i ==> #[trigger] v.awaiting[j].0 != actor,
                i < self.unassigned@.len() ==> v.awaiting[i as int].0 == actor,
            decreases self.unassigned@.len() - i,
        {
            if self.unassigned[i].creature == actor {
                break;
            }
            i += 1;
        }
        let mut time = cost as i64;
        if i < self.unassigned.len() {
            assert(is_first_of(v.awaiting, actor, i as int));
            let entry = self.unassigned.swap_remove(i);
            time = time - entry.bonus_time as i64;
            assert(awaiting_of(self.unassigned@) =~= v.awaiting.update(i as int, v.awaiting.last()).drop_last());
        } else {
            assert(!exists|k: int| is_first_of(v.awaiting, actor, k));
        }
        self.queue.push(ActionEntry { cost: time, action });
        assert(pending_of(self.queue@) =~= after_post(v, action, cost).pending);
    }

    /// Time left until the pending action of `actor` is due, if it has one.
    pub fn time_left(&self, actor: Handle) -> (r: Option<i64>)
        requires
            self.wf(),
        ensures
            r is Some <==> is_pending(self@.pending, actor),
            r matches Some(t) ==> t == time_left(self@.pending, actor),
    {
        let mut i: usize = 0;
        while i < self.queue.len()
            invariant
                self.wf(),
                0 <= i <= self@.pending.len(),
                forall|j: int| 0 <= j < i ==> (#[trigger] self@.pending[j]).0.spec_actor() != actor,
            decreases self@.pending.len() - i,
        {
            assert(self@.pending[i as int].0 == self.queue@[i as int].action);
            if *self.queue[i].action.actor() == actor {
                proof {
                    lemma_time_left(self@.pending, actor, i as int);
                }
                return Some(self.queue[i].cost);
            }
            i += 1;
        }
        None
    }

    /// The index of the entry due next.
    fn due_index(&self) -> (r: usize)
        requires
            self@.pending.len() > 0,
        ensures
            r == first_min(self@.pending),
            is_first_min(self@.pending, r as int),
    {
        let ghost pending = self@.pending;
        let mut best: usize = 0;
        let mut i: usize = 1;
        while i < self.queue.len()
            invariant
                pending == self@.pending,
                1 <= i <= pending.len(),
                0 <= best < i,
                forall|j: int| 0 <= j < i ==> pending[best as int].1 <= #[trigger] pending[j].1,
                forall|j: int| 0 <= j < best ==> pending[best as int].1 < #[trigger] pending[j].1,
            decreases pending.len() - i,
        {
            if self.queue[i].cost < self.queue[best].cost {
                best = i;
            }
            i += 1;
        }
        assert(is_first_min(pending, best as int));
        proof {
            lemma_first_min_unique(pending, best as int);
        }
        best
    }

    /// Drops dead creatures from the end of the awaiting list.
    fn prune_dead(&mut self, creatures: &Arena<Creature>)
        requires
            old(self).wf(),
        ensures
            final(self).wf(),
            final(self)@ == pruned(old(self)@, creatures@.dom()),
            final(self)@.awaiting.len() > 0 ==> creatures@.dom().contains(final(self)@.awaiting.last().0),
    {
        let ghost live = creatures@.dom();
        loop
            invariant
                live == creatures@.dom(),
                self.wf(),
                self@.pending == old(self)@.pending,
                prune(self@.awaiting, live) == prune(old(self)@.awaiting, live),
            ensures
                self.wf(),
                self@.pending == old(self)@.pending,
                self@.awaiting == prune(old(self)@.awaiting, live),
                self@.awaiting.len() > 0 ==> live.contains(self@.awaiting.last().0),
            decreases self@.awaiting.len(),
        {
            let n = self.unassigned.len();
            if n == 0 {
                assert(prune(self@.awaiting, live) == self@.awaiting);
                break;
            }
            assert(self@.awaiting.len() == n);
            assert(self@.awaiting.last().0 == self.unassigned@[n - 1].creature);
            if creatures.contains(self.unassigned[n - 1].creature) {
                assert(prune(self@.awaiting, live) == self@.awaiting);
                break;
            }
            let ghost before = self@.awaiting;
            assert(prune(before, live) == prune(before.drop_last(), live));
            self.unassigned.pop();
            assert(self@.awaiting =~= before.drop_last());
        }
    }

    /// The action due next, without taking it. Creatures that died while
    /// awaiting an action are dropped from the end of the awaiting list
    /// first; any creature still awaiting one blocks the queue.
    pub fn peek_next(&mut self, creatures: &Arena<Creature>) -> (r: Result<&Action, SchedulerError>)
        requires
            old(self).wf(),
        ensures
            final(self).wf(),
            final(self)@ == pruned(old(self)@, creatures@.dom()),
            r == match peek_result(final(self)@) {
                Ok(a) => Ok(&a),
                Err(e) => Err(e),
            },
    {
        self.prune_dead(creatures);
        if self.unassigned.len() != 0 {
            return Err(SchedulerError::ActionNotAssigned(self.unassigned[0].creature));
        }
        if self.queue.len() == 0 {
            return Err(SchedulerError::QueueIsEmpty);
        }
        let i = self.due_index();
        Ok(&self.queue[i].action)
    }

    /// Takes the action due next. Every other pending action's time shrinks
    /// by the time that passes; when the action was owed time instead, that
    /// time is banked for its actor, which now awaits a new action.
    pub fn pop_next(&mut self, creatures: &Arena<Creature>) -> (r: Result<Action, SchedulerError>)
        requires
            old(self).wf(),
        ensures
            final(self).wf(),
            ({
                let p = pruned(old(self)@, creatures@.dom());
                match peek_result(p) {
                    Ok(a) => r == Ok::<Action, SchedulerError>(a) && final(self)@ == after_pop(p),
                    Err(e) => r == Err::<Action, SchedulerError>(e) && final(self)@ == p,
                }
            }),
    {
        match self.peek_next(creatures) {
            Ok(_) => {},
            Err(e) => {
                return Err(e);
            },
        }
        let ghost v = self@;
        let i = self.due_index();
        let entry = self.queue.remove(i);
        let cost = entry.cost;
        let ghost rest = v.pending.remove(i as int);
        assert(entry.action == v.pending[i as int].0 && cost == v.pending[i as int].1);
        assert(self@.pending =~= rest);
        assert forall|k: int| 0 <= k < rest.len() implies (#[trigger] self.queue@[k]).action == rest[k].0
            && self.queue@[k].cost == rest[k].1 by {
            assert(self@.pending[k] == rest[k]);
        }
        assert forall|k: int| 0 <= k < rest.len() implies cost <= #[trigger] rest[k].1 <= u32::MAX by {
            if k < i {
                assert(rest[k] == v.pending[k]);
            } else {
                assert(rest[k] == v.pending[k + 1]);
            }
        }
        let bonus_time: u32 = if cost > 0 {
            let mut j: usize = 0;
            while j < self.queue.len()
                invariant
                    0 <= j <= self.queue@.len(),
                    self.queue@.len() == rest.len(),
                    self@.awaiting == v.awaiting,
                    0 < cost,
                    forall|k: int| 0 <= k < rest.len() ==> cost <= #[trigger] rest[k].1 <= u32::MAX,
                    forall|k: int|
                        0 <= k < j ==> (#[trigger] self.queue@[k]).action == rest[k].0
                            && self.queue@[k].cost == rest[k].1 - cost,
                    forall|k: int|
                        j <= k < rest.len() ==> (#[trigger] self.queue@[k]).action == rest[k].0
                            && self.queue@[k].cost == rest[k].1,
                decreases rest.len() - j,
            {
                let c = self.queue[j].cost;
                self.queue[j].cost = c - cost;
                j += 1;
            }
            0
        } else {
            (-cost) as u32
        };
        let actor = *entry.action.actor();
        self.unassigned.push(UnassignedEntry { creature: actor, bonus_time });
        assert(self@.pending =~= after_pop(v).pending);
        assert(self@.awaiting =~= after_pop(v).awaiting);
        Ok(entry.action)
    }
}

} // verus!
