use crate::actor_message::ActorRef;
use crate::actor_queue::{ActorQueue, PollOutcome, QueueView};
use crate::dash::{key_set, set_clear, set_contains, set_insert, set_is_empty, set_len, set_new, set_remove};
use dashmap::DashMap;
use vstd::prelude::*;

verus! {

/// The bookkeeping of a stage, as a mathematical value: its scheduler (with
/// the actors' mailboxes), the actors that are alive, and whether the stage
/// has run to completion.
pub struct StageView<M> {
    pub queue: QueueView<M>,
    pub actors: Set<u64>,
    pub completed: bool,
}

impl<M> StageView<M> {
    /// The stage's invariant: the scheduler's holds, every live actor is known
    /// to the scheduler, neither starting nor removed, and the stage is
    /// complete exactly when no actor is alive.
    pub open spec fn wf(self) -> bool {
        &&& self.queue.wf()
        &&& self.actors.finite()
        &&& forall|a: u64| #[trigger] self.actors.contains(a) ==> self.queue.known(a) && !self.queue.removed.contains(a)
            && !self.queue.starting.contains(a)
        &&& self.completed <==> self.actors == Set::<u64>::empty()
    }

    /// The state after actor `a`'s initialisation, which succeeded when `ok`:
    /// it becomes alive and schedulable, or it is removed with its mailbox.
    /// An actor whose stage was shut down meanwhile is only no longer starting.
    pub open spec fn after_init(self, a: u64, ok: bool) -> StageView<M> {
        if ok && self.queue.known(a) {
            StageView { queue: self.queue.after_started(a).0, actors: self.actors.insert(a), completed: false }
        } else if ok {
            StageView { queue: self.queue.after_started(a).0, ..self }
        } else {
            let queue = self.queue.after_remove(a);
            if self.actors == Set::<u64>::empty() {
                StageView { queue, completed: true, ..self }
            } else {
                StageView { queue, ..self }
            }
        }
    }

    /// The state after the running actor `a` handled a message, which let it
    /// continue when `ok`.
    pub open spec fn after_message(self, a: u64, ok: bool) -> StageView<M> {
        if ok {
            StageView { queue: self.queue.after_return(a).0, ..self }
        } else {
            let actors = self.actors.remove(a);
            let queue = self.queue.after_remove(a);
            if actors == Set::<u64>::empty() {
                StageView { queue, actors, completed: true }
            } else {
                StageView { queue, actors, ..self }
            }
        }
    }
}

/// What the stage's bookkeeping asks of the workers after a step.
pub struct Wakeups {
    /// A worker waiting for work should be woken.
    pub worker: bool,
    /// Threads waiting for completion should be woken.
    pub completion: bool,
}

/// The decisions of a stage: which actors are alive, when the stage has
/// completed, and the scheduling of their messages.
pub struct StageCore<M> {
    queue: ActorQueue<M>,
    actors: DashMap<u64, ()>,
    completed: bool,
}

impl<M> View for StageCore<M> {
    type V = StageView<M>;

    closed spec fn view(&self) -> StageView<M> {
        StageView { queue: self.queue@, actors: key_set(self.actors), completed: self.completed }
    }
}

impl<M> StageCore<M> {
    /// A stage without actors; it counts as complete.
    pub fn new() -> (s: Self)
        ensures
            s@.wf(),
            s@.actors == Set::<u64>::empty(),
            s@.completed,
            s@.queue.counts.dom() == Set::<u64>::empty(),
            s@.queue.next_id == 0,
    {
        StageCore { queue: ActorQueue::new(), actors: set_new(), completed: true }
    }

    /// The number of live actors.
    pub fn actor_count(&self) -> (n: usize)
        ensures
            n == self@.actors.len(),
    {
        set_len(&self.actors)
    }

    /// Whether the stage has run to completion (no actor is alive).
    pub fn is_completed(&self) -> (r: bool)
        ensures
            r == self@.completed,
    {
        self.completed
    }

    /// Whether actor `a` is alive.
    pub fn is_live(&self, a: ActorRef) -> (r: bool)
        ensures
            r == self@.actors.contains(a.0),
    {
        set_contains(&self.actors, &a.0)
    }

    /// Whether the scheduler can take one more message for `a`.
    pub fn can_accept(&self, a: ActorRef) -> (r: bool)
        ensures
            r == (self@.queue.known(a.0) ==> self@.queue.counts[a.0] < usize::MAX),
    {
        match self.queue.pending(a) {
            None => true,
            Some(n) => n < usize::MAX,
        }
    }

    /// Whether another actor can still be given a fresh reference.
    pub fn can_register(&self) -> (r: bool)
        ensures
            r == (self@.queue.next_id < u64::MAX),
    {
        self.queue.next_id() < u64::MAX
    }

    /// Registers a new actor with the scheduler, starting: messages sent to
    /// it collect in its mailbox until its initialisation has finished.
    pub fn new_actor(&mut self) -> (r: ActorRef)
        requires
            old(self)@.wf(),
            old(self)@.queue.next_id < u64::MAX,
        ensures
            final(self)@ == (StageView { queue: old(self)@.queue.after_new_actor(), ..old(self)@ }),
            final(self)@.wf(),
            r.0 == old(self)@.queue.next_id,
            final(self)@.queue.starting.contains(r.0),
            !old(self)@.actors.contains(r.0),
    {
        self.queue.new_actor()
    }

    /// Records the outcome of the initialisation of the starting actor `a`:
    /// it becomes alive when `ok`, queued at once if messages arrived
    /// meanwhile, and is removed with its mailbox otherwise (after a
    /// shutdown it only stops starting). Says whether a
    /// worker, and whether threads waiting for completion, should be woken.
    pub fn init_finished(&mut self, a: ActorRef, ok: bool) -> (w: Wakeups)
        requires
            old(self)@.wf(),
            old(self)@.queue.starting.contains(a.0),
            !old(self)@.actors.contains(a.0),
        ensures
            final(self)@ == old(self)@.after_init(a.0, ok),
            final(self)@.wf(),
            w.worker == (ok && old(self)@.queue.after_started(a.0).1),
            w.completion == (!ok && old(self)@.actors == Set::<u64>::empty()),
    {
        if ok {
            let known = self.queue.pending(a).is_some();
            let worker = self.queue.started(a);
            if known {
                self.completed = false;
                set_insert(&mut self.actors, a.0);
                assert(self@.actors.contains(a.0));
            }
            Wakeups { worker, completion: false }
        } else {
            self.queue.remove_actor(&a);
            let completion = set_is_empty(&self.actors);
            if completion {
                self.completed = true;
            }
            Wakeups { worker: false, completion }
        }
    }

    /// Sends `msg` to `to`: it goes to the back of `to`'s mailbox. Returns
    /// `false`, and changes nothing, when `to` is not known (never
    /// registered, removed, or after shutdown).
    pub fn send(&mut self, to: ActorRef, msg: M) -> (accepted: bool)
        requires
            old(self)@.wf(),
            old(self)@.queue.known(to.0) ==> old(self)@.queue.counts[to.0] < usize::MAX,
        ensures
            final(self)@ == (StageView { queue: old(self)@.queue.after_send(to.0, msg).0, ..old(self)@ }),
            accepted == old(self)@.queue.after_send(to.0, msg).1,
            accepted == old(self)@.queue.known(to.0),
            final(self)@.wf(),
    {
        self.queue.send(to, msg)
    }

    /// Hands out the next actor to run, with the oldest message of its
    /// mailbox.
    pub fn poll(&mut self) -> (r: PollOutcome<M>)
        requires
            old(self)@.wf(),
        ensures
            final(self)@ == (StageView { queue: old(self)@.queue.after_poll().0, ..old(self)@ }),
            r == old(self)@.queue.after_poll().1,
            final(self)@.wf(),
    {
        proof {
            lemma_poll_keeps_actors(old(self)@.queue);
        }
        self.queue.poll()
    }

    /// Whether the running, live actor `a`, which has handled `handled`
    /// messages in its current turn, goes on with its next message instead
    /// of giving up its worker: it does while it has handled fewer than
    /// `max_messages`, its time slice (`time_up`) is not over, and a message
    /// is in its mailbox. Then that message is taken out and returned;
    /// otherwise nothing changes, and `message_done` ends the turn.
    pub fn continue_turn(&mut self, a: ActorRef, handled: usize, max_messages: usize, time_up: bool) -> (r: Option<M>)
        requires
            old(self)@.wf(),
            old(self)@.queue.running.contains(a.0),
            old(self)@.actors.contains(a.0),
        ensures
            r is Some == (handled < max_messages && !time_up && old(self)@.queue.mail[a.0].len() > 0),
            r matches Some(m) ==> m == old(self)@.queue.mail[a.0][0] && final(self)@ == (StageView {
                queue: old(self)@.queue.after_take(a.0),
                ..old(self)@
            }),
            r is None ==> final(self)@ == old(self)@,
            final(self)@.wf(),
    {
        proof {
            assert(old(self)@.queue.mailbox_ok(a.0));
        }
        if handled >= max_messages || time_up {
            return None;
        }
        let n = match self.queue.pending(a) {
            Some(n) => n,
            None => 0,
        };
        if n == 0 {
            return None;
        }
        let m = self.queue.take_next(a);
        assert(self@.queue.counts.dom() =~= old(self)@.queue.counts.dom());
        Some(m)
    }

    /// Records that the running, live actor `a` handled a message: it goes
    /// back to the scheduler when `ok`, and is removed, with its mailbox,
    /// otherwise.
    pub fn message_done(&mut self, a: ActorRef, ok: bool) -> (w: Wakeups)
        requires
            old(self)@.wf(),
            old(self)@.queue.running.contains(a.0),
            old(self)@.actors.contains(a.0),
        ensures
            final(self)@ == old(self)@.after_message(a.0, ok),
            final(self)@.wf(),
            w.worker == (ok && old(self)@.queue.after_return(a.0).1),
            w.completion == (!ok && old(self)@.actors.remove(a.0) == Set::<u64>::empty()),
    {
        if ok {
            let worker = self.queue.return_to_queue(a);
            Wakeups { worker, completion: false }
        } else {
            set_remove(&mut self.actors, &a.0);
            self.queue.remove_actor(&a);
            let completion = set_is_empty(&self.actors);
            if completion {
                self.completed = true;
            }
            Wakeups { worker: false, completion }
        }
    }

    /// Forgets every actor and mailbox; the stage counts as complete.
    pub fn shutdown(&mut self)
        requires
            old(self)@.wf(),
        ensures
            final(self)@.queue == old(self)@.queue.after_shutdown(),
            final(self)@.actors == Set::<u64>::empty(),
            final(self)@.completed,
            final(self)@.wf(),
    {
        self.queue.shutdown();
        set_clear(&mut self.actors);
        self.completed = true;
    }
}

/// A stage has completed exactly when no actor is alive, which is when its
/// actor count is zero.
pub proof fn law_completed_iff_no_actor<M>(v: StageView<M>)
    requires
        v.wf(),
    ensures
        v.completed <==> v.actors.len() == 0,
{
    if v.actors.len() == 0 {
        assert(v.actors =~= Set::<u64>::empty());
    }
}

/// A message sent to an actor while it starts is not run before its
/// initialisation has finished; once it has, the actor is queued with that
/// message.
pub proof fn law_messages_wait_for_initialisation<M>(v: StageView<M>, a: u64, msg: M)
    requires
        v.wf(),
        v.queue.known(a),
        v.queue.starting.contains(a),
        !v.actors.contains(a),
        v.queue.counts[a] < usize::MAX,
    ensures
        !v.queue.after_send(a, msg).0.queue.contains(a),
        v.queue.after_send(a, msg).0.after_started(a).1,
        v.queue.after_send(a, msg).0.after_started(a).0.queue.contains(a),
{
    let w = v.queue.after_send(a, msg).0;
    assert(w.after_started(a).0.queue[w.queue.len() as int] == a);
}

/// Polling changes neither which actors are known, nor which are starting or
/// removed.
proof fn lemma_poll_keeps_actors<M>(v: QueueView<M>)
    ensures
        v.after_poll().0.counts.dom() == v.counts.dom(),
        v.after_poll().0.removed == v.removed,
        v.after_poll().0.starting == v.starting,
    decreases v.queue.len(),
{
    if v.counts.dom() != Set::<u64>::empty() && v.queue.len() > 0 {
        let a = v.queue[0];
        if !v.known(a) {
            lemma_poll_keeps_actors(QueueView { queue: v.queue.drop_first(), ..v });
        } else {
            assert(v.after_poll().0.counts.dom() =~= v.counts.dom());
        }
    }
}

} // verus!
