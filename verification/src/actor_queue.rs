use crate::actor_message::ActorRef;
use crate::dash::{
    counts_clear, counts_get, counts_insert, counts_is_empty, counts_new, counts_remove, key_set,
    pending_counts, set_insert, set_new, set_remove,
};
use dashmap::DashMap;
use std::collections::{HashMap, VecDeque};
use vstd::prelude::*;

verus! {

broadcast use vstd::std_specs::hash::group_hash_axioms;

/// The queue minus every occurrence of `a`, in the same order.
pub open spec fn without(s: Seq<u64>, a: u64) -> Seq<u64>
    decreases s.len(),
{
    if s.len() == 0 {
        Seq::empty()
    } else {
        let w = without(s.drop_last(), a);
        if s.last() == a {
            w
        } else {
            w.push(s.last())
        }
    }
}

proof fn lemma_without(s: Seq<u64>, a: u64)
    ensures
        forall|x: u64| #[trigger] without(s, a).contains(x) <==> (s.contains(x) && x != a),
        s.no_duplicates() ==> without(s, a).no_duplicates(),
    decreases s.len(),
{
    if s.len() > 0 {
        let d = s.drop_last();
        lemma_without(d, a);
        assert forall|x: u64| s.contains(x) <==> (d.contains(x) || x == s.last()) by {
            if s.contains(x) {
                let i = choose|i: int| 0 <= i < s.len() && s[i] == x;
                if i < s.len() - 1 {
                    assert(d[i] == x);
                }
            }
            if d.contains(x) {
                let i = choose|i: int| 0 <= i < d.len() && d[i] == x;
                assert(s[i] == x);
            }
            if x == s.last() {
                assert(s[s.len() - 1] == x);
            }
        }
        let w = without(d, a);
        if s.last() != a {
            assert forall|x: u64| #[trigger] w.push(s.last()).contains(x) <==> (w.contains(x) || x == s.last()) by {
                if w.push(s.last()).contains(x) {
                    let i = choose|i: int| 0 <= i < w.len() + 1 && w.push(s.last())[i] == x;
                    if i < w.len() {
                        assert(w[i] == x);
                    }
                }
                if w.contains(x) {
                    let i = choose|i: int| 0 <= i < w.len() && w[i] == x;
                    assert(w.push(s.last())[i] == x);
                }
                if x == s.last() {
                    assert(w.push(s.last())[w.len() as int] == x);
                }
            }
            if s.no_duplicates() {
                assert(d.no_duplicates()) by {
                    assert forall|i: int, j: int| 0 <= i < d.len() && 0 <= j < d.len() && i != j implies d[i] != d[j] by {
                        assert(d[i] == s[i] && d[j] == s[j]);
                    }
                }
                assert(!d.contains(s.last())) by {
                    if d.contains(s.last()) {
                        let i = choose|i: int| 0 <= i < d.len() && d[i] == s.last();
                        assert(s[i] == s[s.len() - 1]);
                    }
                }
                assert(w.push(s.last()).no_duplicates()) by {
                    assert forall|i: int, j: int|
                        0 <= i < w.len() + 1 && 0 <= j < w.len() + 1 && i != j implies w.push(s.last())[i]
                        != w.push(s.last())[j] by {
                        if i < w.len() && j < w.len() {
                        } else if i < w.len() {
                            assert(w.contains(w[i]));
                        } else if j < w.len() {
                            assert(w.contains(w[j]));
                        }
                    }
                }
            }
        } else {
            if s.no_duplicates() {
                assert(d.no_duplicates()) by {
                    assert forall|i: int, j: int| 0 <= i < d.len() && 0 <= j < d.len() && i != j implies d[i] != d[j] by {
                        assert(d[i] == s[i] && d[j] == s[j]);
                    }
                }
            }
        }
    }
}

/// The scheduler's state, as a mathematical value.
///
/// Every known actor has a counter of pending messages and a mailbox holding
/// those messages, oldest first. At any time a known actor is in exactly one
/// of four places: starting (registered, its initialisation still running),
/// idle (nothing pending, not running), queued (waiting for a worker), or
/// running (handed to a worker). A removed actor has stopped: it is no
/// longer known, and is recorded in `removed` so that its reference is never
/// handed out again.
pub struct QueueView<M> {
    pub counts: Map<u64, usize>,
    pub mail: Map<u64, Seq<M>>,
    pub starting: Set<u64>,
    pub idle: Set<u64>,
    pub queue: Seq<u64>,
    pub running: Set<u64>,
    pub removed: Set<u64>,
    pub next_id: u64,
}

/// What a worker gets when it polls the scheduler.
pub enum PollOutcome<M> {
    /// No actor is known (none yet, all removed, or after shutdown): there
    /// is nothing to wait for.
    Closed,
    /// Actors are known but none is queued: the worker waits for a send.
    Empty,
    /// This actor is the next to run, with the oldest message of its mailbox.
    Ready(ActorRef, M),
}

impl<M> QueueView<M> {
    /// Whether `a` is known, that is, holds a counter.
    pub open spec fn known(self, a: u64) -> bool {
        self.counts.contains_key(a)
    }

    /// Actor `a` is known exactly when it has a mailbox, and then its
    /// counter of pending messages is the length of its mailbox.
    pub open spec fn mailbox_ok(self, a: u64) -> bool {
        &&& self.known(a) <==> self.mail.contains_key(a)
        &&& self.known(a) ==> self.counts[a] == self.mail[a].len()
    }

    /// The scheduler's invariant.
    pub open spec fn wf(self) -> bool {
        &&& self.queue.no_duplicates()
        &&& forall|i: int|
            0 <= i < self.queue.len() && self.known(#[trigger] self.queue[i]) ==> self.counts[self.queue[i]] >= 1
        &&& forall|a: u64| #[trigger] self.idle.contains(a) && self.known(a) ==> self.counts[a] == 0
        &&& forall|a: u64| #[trigger] self.idle.contains(a) ==> !self.queue.contains(a) && !self.running.contains(a)
            && !self.removed.contains(a) && !self.starting.contains(a)
        &&& forall|a: u64| #[trigger] self.running.contains(a) ==> !self.queue.contains(a) && !self.removed.contains(a)
            && !self.starting.contains(a)
        &&& forall|a: u64| #[trigger] self.starting.contains(a) ==> !self.queue.contains(a) && !self.removed.contains(a)
        &&& forall|a: u64| #[trigger] self.removed.contains(a) ==> !self.queue.contains(a) && !self.known(a)
        &&& forall|a: u64|
            #[trigger] self.known(a) ==> self.idle.contains(a) || self.queue.contains(a) || self.running.contains(a)
                || self.starting.contains(a)
        &&& forall|a: u64| #[trigger] self.known(a) ==> a < self.next_id
        &&& forall|a: u64| #[trigger] self.idle.contains(a) ==> a < self.next_id
        &&& forall|a: u64| #[trigger] self.queue.contains(a) ==> a < self.next_id
        &&& forall|a: u64| #[trigger] self.running.contains(a) ==> a < self.next_id
        &&& forall|a: u64| #[trigger] self.removed.contains(a) ==> a < self.next_id
        &&& forall|a: u64| #[trigger] self.starting.contains(a) ==> a < self.next_id
        &&& forall|a: u64| #[trigger] self.mailbox_ok(a)
    }

    /// The state after a new actor was registered: known, starting, with an
    /// empty mailbox.
    pub open spec fn after_new_actor(self) -> QueueView<M> {
        QueueView {
            counts: self.counts.insert(self.next_id, 0),
            mail: self.mail.insert(self.next_id, Seq::empty()),
            starting: self.starting.insert(self.next_id),
            next_id: (self.next_id + 1) as u64,
            ..self
        }
    }

    /// The state after the starting actor `a` finished its initialisation
    /// and became schedulable, and whether a worker should be woken: it is
    /// queued when messages arrived meanwhile, idle otherwise.
    pub open spec fn after_started(self, a: u64) -> (QueueView<M>, bool) {
        if !self.known(a) {
            (QueueView { starting: self.starting.remove(a), ..self }, false)
        } else if self.counts[a] > 0 {
            (QueueView { queue: self.queue.push(a), starting: self.starting.remove(a), ..self }, true)
        } else {
            (QueueView { idle: self.idle.insert(a), starting: self.starting.remove(a), ..self }, false)
        }
    }

    /// The state after `msg` was sent to `to`, and whether it was accepted:
    /// an accepted message goes to the back of `to`'s mailbox, its counter
    /// grows by one, and an idle actor becomes queued.
    pub open spec fn after_send(self, to: u64, msg: M) -> (QueueView<M>, bool) {
        if !self.known(to) {
            (self, false)
        } else {
            let counts = self.counts.insert(to, (self.counts[to] + 1) as usize);
            let mail = self.mail.insert(to, self.mail[to].push(msg));
            if self.idle.contains(to) {
                (QueueView { counts, mail, idle: self.idle.remove(to), queue: self.queue.push(to), ..self }, true)
            } else {
                (QueueView { counts, mail, ..self }, true)
            }
        }
    }

    /// The state after a poll, and what the poll handed out. Queue entries of
    /// actors that are no longer known are dropped on the way.
    pub open spec fn after_poll(self) -> (QueueView<M>, PollOutcome<M>)
        decreases self.queue.len(),
    {
        if self.counts.dom() == Set::<u64>::empty() {
            (self, PollOutcome::Closed)
        } else if self.queue.len() == 0 {
            (self, PollOutcome::Empty)
        } else {
            let a = self.queue[0];
            if !self.known(a) {
                QueueView { queue: self.queue.drop_first(), ..self }.after_poll()
            } else {
                (
                    QueueView {
                        counts: self.counts.insert(a, (self.counts[a] - 1) as usize),
                        mail: self.mail.insert(a, self.mail[a].drop_first()),
                        queue: self.queue.drop_first(),
                        running: self.running.insert(a),
                        ..self
                    },
                    PollOutcome::Ready(ActorRef(a), self.mail[a][0]),
                )
            }
        }
    }

    /// The state after the running actor `a` was handed back, and whether a
    /// worker should be woken.
    pub open spec fn after_return(self, a: u64) -> (QueueView<M>, bool) {
        if !self.known(a) {
            (QueueView { running: self.running.remove(a), ..self }, false)
        } else if self.counts[a] > 0 {
            (QueueView { queue: self.queue.push(a), running: self.running.remove(a), ..self }, true)
        } else {
            (QueueView { idle: self.idle.insert(a), running: self.running.remove(a), ..self }, false)
        }
    }

    /// The state after the running actor `a` took the oldest message of its
    /// mailbox without giving up its worker.
    pub open spec fn after_take(self, a: u64) -> QueueView<M> {
        QueueView {
            counts: self.counts.insert(a, (self.counts[a] - 1) as usize),
            mail: self.mail.insert(a, self.mail[a].drop_first()),
            ..self
        }
    }

    /// The state after actor `a` was removed, with its mailbox.
    pub open spec fn after_remove(self, a: u64) -> QueueView<M> {
        if !self.known(a) {
            self
        } else {
            QueueView {
                counts: self.counts.remove(a),
                mail: self.mail.remove(a),
                starting: self.starting.remove(a),
                idle: self.idle.remove(a),
                queue: without(self.queue, a),
                running: self.running.remove(a),
                removed: self.removed.insert(a),
                ..self
            }
        }
    }

    /// The state after shutdown: no actor is known any more, and no mailbox
    /// is kept.
    pub open spec fn after_shutdown(self) -> QueueView<M> {
        QueueView { counts: Map::empty(), mail: Map::empty(), ..self }
    }
}

/// The scheduling state of a stage: which actors have pending messages, in
/// which order they run, which wait for messages, and the mailbox of each.
pub struct ActorQueue<M> {
    counters: DashMap<u64, usize>,
    idle: DashMap<u64, ()>,
    queue: VecDeque<u64>,
    mail: HashMap<u64, VecDeque<M>>,
    starting: Ghost<Set<u64>>,
    running: Ghost<Set<u64>>,
    removed: Ghost<Set<u64>>,
    next_id: u64,
}

/// The mailboxes, each as the sequence of its messages.
pub open spec fn mail_view<M>(m: Map<u64, VecDeque<M>>) -> Map<u64, Seq<M>> {
    Map::new(|k: u64| m.contains_key(k), |k: u64| m[k]@)
}

impl<M> View for ActorQueue<M> {
    type V = QueueView<M>;

    closed spec fn view(&self) -> QueueView<M> {
        QueueView {
            counts: pending_counts(self.counters),
            mail: mail_view(self.mail@),
            starting: self.starting@,
            idle: key_set(self.idle),
            queue: self.queue@,
            running: self.running@,
            removed: self.removed@,
            next_id: self.next_id,
        }
    }
}


proof fn lemma_push_contains(s: Seq<u64>, x: u64)
    ensures
        forall|y: u64| #[trigger] s.push(x).contains(y) <==> (s.contains(y) || y == x),
        s.no_duplicates() && !s.contains(x) ==> s.push(x).no_duplicates(),
{
    let t = s.push(x);
    assert forall|y: u64| #[trigger] t.contains(y) <==> (s.contains(y) || y == x) by {
        if t.contains(y) {
            let i = choose|i: int| 0 <= i < t.len() && t[i] == y;
            if i < s.len() {
                assert(s[i] == y);
            }
        }
        if s.contains(y) {
            let i = choose|i: int| 0 <= i < s.len() && s[i] == y;
            assert(t[i] == y);
        }
        if y == x {
            assert(t[s.len() as int] == y);
        }
    }
    if s.no_duplicates() && !s.contains(x) {
        assert forall|i: int, j: int| 0 <= i < t.len() && 0 <= j < t.len() && i != j implies t[i] != t[j] by {
            if i < s.len() && j < s.len() {
            } else if i < s.len() {
                assert(s.contains(s[i]));
            } else {
                assert(s.contains(s[j]));
            }
        }
    }
}

proof fn lemma_drop_first_contains(s: Seq<u64>)
    requires
        s.len() > 0,
        s.no_duplicates(),
    ensures
        forall|y: u64| #[trigger] s.drop_first().contains(y) <==> (s.contains(y) && y != s[0]),
        s.drop_first().no_duplicates(),
{
    let t = s.drop_first();
    assert forall|y: u64| #[trigger] t.contains(y) <==> (s.contains(y) && y != s[0]) by {
        if t.contains(y) {
            let i = choose|i: int| 0 <= i < t.len() && t[i] == y;
            assert(s[i + 1] == y);
        }
        if s.contains(y) && y != s[0] {
            let i = choose|i: int| 0 <= i < s.len() && s[i] == y;
            assert(i != 0);
            assert(t[i - 1] == y);
        }
    }
    assert forall|i: int, j: int| 0 <= i < t.len() && 0 <= j < t.len() && i != j implies t[i] != t[j] by {
        assert(t[i] == s[i + 1] && t[j] == s[j + 1]);
    }
}


/// When every counter and mailbox other than `a`'s is as it was, and `a`'s
/// counter matches its mailbox, every counter matches its mailbox.
proof fn lemma_mailboxes_follow<M>(v: QueueView<M>, w: QueueView<M>, a: u64)
    requires
        forall|x: u64| #[trigger] v.mailbox_ok(x),
        w.mailbox_ok(a),
        forall|x: u64|
            x != a ==> (#[trigger] w.counts.contains_key(x) == v.counts.contains_key(x)) && (w.mail.contains_key(x)
                == v.mail.contains_key(x)) && (v.counts.contains_key(x) ==> w.counts[x] == v.counts[x]) && (
            v.mail.contains_key(x) ==> w.mail[x] == v.mail[x]),
    ensures
        forall|x: u64| #[trigger] w.mailbox_ok(x),
{
    assert forall|x: u64| #[trigger] w.mailbox_ok(x) by {
        assert(v.mailbox_ok(x));
        if x != a {
            assert(w.counts.contains_key(x) == v.counts.contains_key(x));
        }
    }
}

/// Dropping the first queue entry, when it belongs to an actor that is no
/// longer known, keeps the scheduler's invariant.
pub(crate) proof fn lemma_skip_unknown_head<M>(v: QueueView<M>)
    requires
        v.wf(),
        v.queue.len() > 0,
        !v.known(v.queue[0]),
    ensures
        (QueueView { queue: v.queue.drop_first(), ..v }).wf(),
{
    let u = QueueView { queue: v.queue.drop_first(), ..v };
    lemma_drop_first_contains(v.queue);
    assert forall|i: int| 0 <= i < u.queue.len() && u.known(#[trigger] u.queue[i]) implies u.counts[u.queue[i]] >= 1 by {
        assert(u.queue[i] == v.queue[i + 1]);
    }
    assert forall|x: u64| #[trigger] u.known(x) implies u.idle.contains(x) || u.queue.contains(x) || u.running.contains(x)
        || u.starting.contains(x) by {
        assert(v.known(x));
    }
    assert(v.mailbox_ok(v.queue[0]));
    lemma_mailboxes_follow(v, u, v.queue[0]);
}

/// Registering a new actor keeps the scheduler's invariant.
pub proof fn law_new_actor_keeps_invariant<M>(v: QueueView<M>)
    requires
        v.wf(),
        v.next_id < u64::MAX,
    ensures
        v.after_new_actor().wf(),
{
    let w = v.after_new_actor();
    let id = v.next_id;
    assert forall|a: u64| #[trigger] w.known(a) implies w.idle.contains(a) || w.queue.contains(a) || w.running.contains(a)
        || w.starting.contains(a) by {
        if a != id {
            assert(v.known(a));
        }
    }
    assert forall|i: int| 0 <= i < w.queue.len() && w.known(#[trigger] w.queue[i]) implies w.counts[w.queue[i]] >= 1 by {
        assert(v.queue.contains(v.queue[i]));
    }
    lemma_mailboxes_follow(v, w, id);
}

/// An actor finishing its initialisation keeps the scheduler's invariant.
pub proof fn law_started_keeps_invariant<M>(v: QueueView<M>, a: u64)
    requires
        v.wf(),
        v.starting.contains(a),
    ensures
        v.after_started(a).0.wf(),
{
    let w = v.after_started(a).0;
    lemma_push_contains(v.queue, a);
    if v.known(a) && v.counts[a] > 0 {
        assert forall|i: int| 0 <= i < w.queue.len() && w.known(#[trigger] w.queue[i]) implies w.counts[w.queue[i]] >= 1 by {
            if i < v.queue.len() {
                assert(v.queue[i] == w.queue[i]);
            }
        }
    }
    assert forall|x: u64| #[trigger] w.known(x) implies w.idle.contains(x) || w.queue.contains(x) || w.running.contains(x)
        || w.starting.contains(x) by {
        assert(v.known(x));
    }
    assert(v.mailbox_ok(a));
    lemma_mailboxes_follow(v, w, a);
}

/// Recording a send keeps the scheduler's invariant.
pub proof fn law_send_keeps_invariant<M>(v: QueueView<M>, to: u64, msg: M)
    requires
        v.wf(),
        v.known(to) ==> v.counts[to] < usize::MAX,
    ensures
        v.after_send(to, msg).0.wf(),
{
    let w = v.after_send(to, msg).0;
    if v.known(to) {
        lemma_push_contains(v.queue, to);
        assert(v.mailbox_ok(to));
        assert forall|i: int| 0 <= i < w.queue.len() && w.known(#[trigger] w.queue[i]) implies w.counts[w.queue[i]] >= 1 by {
            if i < v.queue.len() {
                assert(v.queue[i] == w.queue[i]);
            }
        }
        assert forall|a: u64| #[trigger] w.known(a) implies w.idle.contains(a) || w.queue.contains(a) || w.running.contains(a)
            || w.starting.contains(a) by {
            assert(v.known(a));
        }
        lemma_mailboxes_follow(v, w, to);
    }
}

/// Polling keeps the scheduler's invariant.
pub proof fn law_poll_keeps_invariant<M>(v: QueueView<M>)
    requires
        v.wf(),
    ensures
        v.after_poll().0.wf(),
    decreases v.queue.len(),
{
    if v.counts.dom() != Set::<u64>::empty() && v.queue.len() > 0 {
        let a = v.queue[0];
        lemma_drop_first_contains(v.queue);
        if !v.known(a) {
            lemma_skip_unknown_head(v);
            law_poll_keeps_invariant(QueueView { queue: v.queue.drop_first(), ..v });
        } else {
            let w = v.after_poll().0;
            assert(v.queue.contains(a));
            assert(v.counts[a] >= 1);
            assert(v.mailbox_ok(a));
            assert forall|i: int| 0 <= i < w.queue.len() && w.known(#[trigger] w.queue[i]) implies w.counts[w.queue[i]] >= 1 by {
                assert(w.queue[i] == v.queue[i + 1]);
                assert(v.queue.contains(v.queue[i + 1]));
            }
            assert forall|x: u64| #[trigger] w.known(x) implies w.idle.contains(x) || w.queue.contains(x) || w.running.contains(x)
                || w.starting.contains(x) by {
                assert(v.known(x));
            }
            lemma_mailboxes_follow(v, w, a);
        }
    }
}

/// Handing a running actor back keeps the scheduler's invariant.
pub proof fn law_return_keeps_invariant<M>(v: QueueView<M>, a: u64)
    requires
        v.wf(),
        v.running.contains(a),
    ensures
        v.after_return(a).0.wf(),
{
    let w = v.after_return(a).0;
    lemma_push_contains(v.queue, a);
    if v.known(a) {
        assert forall|i: int| 0 <= i < w.queue.len() && w.known(#[trigger] w.queue[i]) implies w.counts[w.queue[i]] >= 1 by {
            if i < v.queue.len() {
                assert(v.queue[i] == w.queue[i]);
            }
        }
    }
    assert forall|x: u64| #[trigger] w.known(x) implies w.idle.contains(x) || w.queue.contains(x) || w.running.contains(x)
        || w.starting.contains(x) by {
        assert(v.known(x));
    }
    assert(v.mailbox_ok(a));
    lemma_mailboxes_follow(v, w, a);
}

/// A running actor taking its next message keeps the scheduler's invariant.
pub proof fn law_take_keeps_invariant<M>(v: QueueView<M>, a: u64)
    requires
        v.wf(),
        v.running.contains(a),
        v.known(a),
        v.counts[a] > 0,
    ensures
        v.after_take(a).wf(),
{
    let w = v.after_take(a);
    assert(v.mailbox_ok(a));
    assert forall|i: int| 0 <= i < w.queue.len() && w.known(#[trigger] w.queue[i]) implies w.counts[w.queue[i]] >= 1 by {
        assert(v.queue.contains(v.queue[i]));
    }
    assert forall|x: u64| #[trigger] w.known(x) implies w.idle.contains(x) || w.queue.contains(x) || w.running.contains(x)
        || w.starting.contains(x) by {
        assert(v.known(x));
    }
    lemma_mailboxes_follow(v, w, a);
}

/// Removing an actor keeps the scheduler's invariant.
pub proof fn law_remove_keeps_invariant<M>(v: QueueView<M>, a: u64)
    requires
        v.wf(),
    ensures
        v.after_remove(a).wf(),
{
    if v.known(a) {
        let w = v.after_remove(a);
        lemma_without(v.queue, a);
        assert forall|i: int| 0 <= i < w.queue.len() && w.known(#[trigger] w.queue[i]) implies w.counts[w.queue[i]] >= 1 by {
            let x = w.queue[i];
            assert(w.queue.contains(x));
            let j = choose|j: int| 0 <= j < v.queue.len() && v.queue[j] == x;
        }
        assert forall|x: u64| #[trigger] w.known(x) implies w.idle.contains(x) || w.queue.contains(x) || w.running.contains(x)
            || w.starting.contains(x) by {
            assert(v.known(x));
        }
        lemma_mailboxes_follow(v, w, a);
    }
}

/// Shutdown keeps the scheduler's invariant.
pub proof fn law_shutdown_keeps_invariant<M>(v: QueueView<M>)
    requires
        v.wf(),
    ensures
        v.after_shutdown().wf(),
{
}

impl<M> ActorQueue<M> {
    /// A scheduler that knows no actor.
    pub fn new() -> (q: Self)
        ensures
            q@.wf(),
            q@.counts.dom() == Set::<u64>::empty(),
            q@.mail == Map::<u64, Seq<M>>::empty(),
            q@.starting == Set::<u64>::empty(),
            q@.idle == Set::<u64>::empty(),
            q@.queue == Seq::<u64>::empty(),
            q@.running == Set::<u64>::empty(),
            q@.removed == Set::<u64>::empty(),
            q@.next_id == 0,
    {
        let q = ActorQueue {
            counters: counts_new(),
            idle: set_new(),
            queue: VecDeque::new(),
            mail: HashMap::new(),
            starting: Ghost(Set::empty()),
            running: Ghost(Set::empty()),
            removed: Ghost(Set::empty()),
            next_id: 0,
        };
        assert(q@.mail =~= Map::<u64, Seq<M>>::empty());
        assert(q@.queue.no_duplicates());
        q
    }

    /// The number of messages pending for `a`, or `None` when `a` is not known.
    pub fn pending(&self, a: ActorRef) -> (r: Option<usize>)
        ensures
            r == (if self@.known(a.0) {
                Some(self@.counts[a.0])
            } else {
                None
            }),
    {
        counts_get(&self.counters, &a.0)
    }

    /// The id the next registered actor will get.
    pub fn next_id(&self) -> (r: u64)
        ensures
            r == self@.next_id,
    {
        self.next_id
    }

    /// Whether no actor is known (before the first actor, or after shutdown).
    pub fn is_closed(&self) -> (r: bool)
        ensures
            r == (self@.counts.dom() == Set::<u64>::empty()),
    {
        counts_is_empty(&self.counters)
    }

    /// Registers a new actor, starting, with an empty mailbox, and returns
    /// its fresh reference.
    pub fn new_actor(&mut self) -> (r: ActorRef)
        requires
            old(self)@.wf(),
            old(self)@.next_id < u64::MAX,
        ensures
            final(self)@ == old(self)@.after_new_actor(),
            final(self)@.wf(),
            r.0 == old(self)@.next_id,
            !old(self)@.known(r.0),
            !old(self)@.idle.contains(r.0) && !old(self)@.queue.contains(r.0),
            !old(self)@.running.contains(r.0) && !old(self)@.removed.contains(r.0),
            !old(self)@.starting.contains(r.0),
    {
        proof {
            law_new_actor_keeps_invariant(self@);
        }
        let id = self.next_id;
        self.next_id = id + 1;
        counts_insert(&mut self.counters, id, 0);
        self.mail.insert(id, VecDeque::new());
        self.starting = Ghost(self.starting@.insert(id));
        assert(self@.mail =~= old(self)@.after_new_actor().mail);
        assert(self@ == old(self)@.after_new_actor());
        ActorRef(id)
    }

    /// The starting actor `a` finished its initialisation: it is queued when
    /// messages arrived meanwhile, idle otherwise. Returns whether a worker
    /// should be woken.
    pub fn started(&mut self, a: ActorRef) -> (notify: bool)
        requires
            old(self)@.wf(),
            old(self)@.starting.contains(a.0),
        ensures
            (final(self)@, notify) == old(self)@.after_started(a.0),
            final(self)@.wf(),
    {
        proof {
            law_started_keeps_invariant(self@, a.0);
        }
        let r = match counts_get(&self.counters, &a.0) {
            None => false,
            Some(n) => {
                if n > 0 {
                    self.queue.push_back(a.0);
                    true
                } else {
                    set_insert(&mut self.idle, a.0);
                    false
                }
            },
        };
        self.starting = Ghost(self.starting@.remove(a.0));
        assert(self@ == old(self)@.after_started(a.0).0);
        r
    }

    /// Sends `msg` to `to`: it goes to the back of `to`'s mailbox, the
    /// counter grows by one, and an idle actor becomes queued. Returns
    /// `false`, and changes nothing, when `to` is not known: never
    /// registered, removed, or after shutdown.
    pub fn send(&mut self, to: ActorRef, msg: M) -> (accepted: bool)
        requires
            old(self)@.wf(),
            old(self)@.known(to.0) ==> old(self)@.counts[to.0] < usize::MAX,
        ensures
            (final(self)@, accepted) == old(self)@.after_send(to.0, msg),
            accepted == old(self)@.known(to.0),
            final(self)@.wf(),
    {
        proof {
            law_send_keeps_invariant(self@, to.0, msg);
            assert(old(self)@.mailbox_ok(to.0));
        }
        let n = match counts_get(&self.counters, &to.0) {
            None => {
                return false;
            },
            Some(n) => n,
        };
        let was_idle = set_remove(&mut self.idle, &to.0);
        if was_idle {
            self.queue.push_back(to.0);
        }
        counts_insert(&mut self.counters, to.0, n + 1);
        let mut d = match self.mail.remove(&to.0) {
            Some(d) => d,
            None => VecDeque::new(),
        };
        d.push_back(msg);
        self.mail.insert(to.0, d);
        assert(self@.mail =~= old(self)@.after_send(to.0, msg).0.mail);
        assert(self@.idle =~= old(self)@.after_send(to.0, msg).0.idle);
        assert(self@ == old(self)@.after_send(to.0, msg).0);
        true
    }

    /// Takes the oldest message out of the mailbox of `a`.
    fn take_mail(&mut self, a: u64) -> (m: M)
        requires
            old(self)@.mail.contains_key(a),
            old(self)@.mail[a].len() > 0,
        ensures
            m == old(self)@.mail[a][0],
            final(self)@ == (QueueView { mail: old(self)@.mail.insert(a, old(self)@.mail[a].drop_first()), ..old(self)@ }),
    {
        let mut d = self.mail.remove(&a).unwrap();
        let m = d.pop_front().unwrap();
        self.mail.insert(a, d);
        assert(d@ =~= old(self)@.mail[a].drop_first());
        assert(self@.mail =~= old(self)@.mail.insert(a, old(self)@.mail[a].drop_first()));
        m
    }

    /// Hands out the next queued actor with the oldest message of its
    /// mailbox, taking that message off its counter; queue entries of actors
    /// that are no longer known are skipped.
    pub fn poll(&mut self) -> (r: PollOutcome<M>)
        requires
            old(self)@.wf(),
        ensures
            (final(self)@, r) == old(self)@.after_poll(),
            final(self)@.wf(),
    {
        proof {
            law_poll_keeps_invariant(self@);
        }
        loop
            invariant
                self@.wf(),
                self@.after_poll() == old(self)@.after_poll(),
            decreases self@.queue.len(),
        {
            if counts_is_empty(&self.counters) {
                return PollOutcome::Closed;
            }
            if self.queue.len() == 0 {
                return PollOutcome::Empty;
            }
            let ghost before = self@;
            let a = self.queue.pop_front().unwrap();
            assert(self@.queue =~= before.queue.drop_first());
            let n = match counts_get(&self.counters, &a) {
                None => {
                    proof {
                        lemma_skip_unknown_head(before);
                    }
                    continue;
                },
                Some(n) => n,
            };
            proof {
                assert(before.queue.contains(a));
                assert(before.mailbox_ok(a));
                law_poll_keeps_invariant(before);
            }
            counts_insert(&mut self.counters, a, n - 1);
            self.running = Ghost(self.running@.insert(a));
            let m = self.take_mail(a);
            assert(self@ == before.after_poll().0);
            return PollOutcome::Ready(ActorRef(a), m);
        }
    }

    /// Hands back the running actor `a`: queued again when messages are
    /// pending for it, idle otherwise. Returns whether a worker should be woken.
    pub fn return_to_queue(&mut self, a: ActorRef) -> (notify: bool)
        requires
            old(self)@.wf(),
            old(self)@.running.contains(a.0),
        ensures
            (final(self)@, notify) == old(self)@.after_return(a.0),
            final(self)@.wf(),
    {
        proof {
            law_return_keeps_invariant(self@, a.0);
        }
        let r = match counts_get(&self.counters, &a.0) {
            None => false,
            Some(n) => {
                if n > 0 {
                    self.queue.push_back(a.0);
                    true
                } else {
                    set_insert(&mut self.idle, a.0);
                    false
                }
            },
        };
        self.running = Ghost(self.running@.remove(a.0));
        assert(self@ == old(self)@.after_return(a.0).0);
        r
    }

    /// The running actor `a` takes the oldest message of its mailbox and
    /// keeps its worker: its counter goes down by one.
    pub fn take_next(&mut self, a: ActorRef) -> (m: M)
        requires
            old(self)@.wf(),
            old(self)@.running.contains(a.0),
            old(self)@.known(a.0),
            old(self)@.counts[a.0] > 0,
        ensures
            m == old(self)@.mail[a.0][0],
            final(self)@ == old(self)@.after_take(a.0),
            final(self)@.wf(),
    {
        proof {
            law_take_keeps_invariant(self@, a.0);
            assert(old(self)@.mailbox_ok(a.0));
        }
        let n = match counts_get(&self.counters, &a.0) {
            Some(n) => n,
            None => 1,
        };
        counts_insert(&mut self.counters, a.0, n - 1);
        self.take_mail(a.0)
    }

    /// Forgets actor `a`: its counter and mailbox are dropped, and it is
    /// neither starting, idle, queued nor running any more, so later sends to
    /// it are refused. Nothing happens when `a` is not known.
    pub fn remove_actor(&mut self, a: &ActorRef)
        requires
            old(self)@.wf(),
        ensures
            final(self)@ == old(self)@.after_remove(a.0),
            final(self)@.wf(),
    {
        proof {
            law_remove_keeps_invariant(self@, a.0);
        }
        match counts_remove(&mut self.counters, &a.0) {
            None => {
                assert(self@.counts =~= old(self)@.counts);
            },
            Some(_) => {
                set_remove(&mut self.idle, &a.0);
                self.mail.remove(&a.0);
                self.remove_from_queue(a.0);
                self.running = Ghost(self.running@.remove(a.0));
                self.starting = Ghost(self.starting@.remove(a.0));
                self.removed = Ghost(self.removed@.insert(a.0));
                assert(self@.counts =~= old(self)@.after_remove(a.0).counts);
                assert(self@.mail =~= old(self)@.after_remove(a.0).mail);
            },
        }
        assert(self@ == old(self)@.after_remove(a.0));
    }

    /// Drops every entry of `a` from the run queue, keeping the order of the
    /// others.
    fn remove_from_queue(&mut self, a: u64)
        ensures
            final(self)@ == (QueueView { queue: without(old(self)@.queue, a), ..old(self)@ }),
    {
        let ghost orig = self.queue@;
        let ghost pre = self@;
        let n = self.queue.len();
        let mut k: usize = 0;
        assert(orig.take(0) =~= Seq::<u64>::empty());
        assert(orig.skip(0) =~= orig);
        while k < n
            invariant
                k <= n,
                n == orig.len(),
                self@ == (QueueView { queue: self.queue@, ..pre }),
                self.queue@ == orig.skip(k as int) + without(orig.take(k as int), a),
            decreases n - k,
        {
            let ghost before = self.queue@;
            assert(before[0] == orig[k as int]);
            let x = self.queue.pop_front().unwrap();
            if x != a {
                self.queue.push_back(x);
            }
            proof {
                let t = orig.take(k + 1);
                assert(t.drop_last() =~= orig.take(k as int));
                assert(t.last() == x);
                assert(orig.skip(k as int).drop_first() =~= orig.skip(k + 1));
                if x != a {
                    assert(self.queue@ =~= orig.skip(k + 1) + without(orig.take(k as int), a).push(x));
                } else {
                    assert(self.queue@ =~= orig.skip(k + 1) + without(orig.take(k as int), a));
                }
            }
            k = k + 1;
        }
        assert(orig.take(n as int) =~= orig);
        assert(self.queue@ =~= without(orig, a));
    }

    /// Forgets every counter and mailbox: from now on polls report `Closed`.
    pub fn shutdown(&mut self)
        requires
            old(self)@.wf(),
        ensures
            final(self)@ == old(self)@.after_shutdown(),
            final(self)@.wf(),
    {
        counts_clear(&mut self.counters);
        self.mail.clear();
        assert(self@.counts =~= old(self)@.after_shutdown().counts);
        assert(self@.mail =~= old(self)@.after_shutdown().mail);
    }
}

/// An actor is never handed to two workers at once: the actor a poll hands
/// out was queued and not running before, and is running after.
pub proof fn law_poll_hands_out_idle_worker_free_actor<M>(v: QueueView<M>)
    requires
        v.wf(),
    ensures
        v.after_poll().1 matches PollOutcome::Ready(a, _) ==> !v.running.contains(a.0) && v.after_poll().0.running.contains(
            a.0,
        ) && v.queue.contains(a.0),
    decreases v.queue.len(),
{
    if v.counts.dom() != Set::<u64>::empty() && v.queue.len() > 0 {
        let a = v.queue[0];
        assert(v.queue.contains(a));
        if !v.known(a) {
            lemma_skip_unknown_head(v);
            law_poll_hands_out_idle_worker_free_actor(QueueView { queue: v.queue.drop_first(), ..v });
            lemma_drop_first_contains(v.queue);
        }
    }
}

/// Actors run in the order they were queued, and each with the oldest
/// message of its mailbox: when the first queued actor is known, a poll
/// hands out that actor with the first message of its mailbox.
pub proof fn law_poll_is_first_in_first_out<M>(v: QueueView<M>)
    requires
        v.wf(),
        v.counts.dom() != Set::<u64>::empty(),
        v.queue.len() > 0,
        v.known(v.queue[0]),
    ensures
        v.mail[v.queue[0]].len() > 0,
        v.after_poll().1 == PollOutcome::Ready(ActorRef(v.queue[0]), v.mail[v.queue[0]][0]),
        v.after_poll().0.queue == v.queue.drop_first(),
        v.after_poll().0.counts[v.queue[0]] == v.counts[v.queue[0]] - 1,
        v.after_poll().0.mail[v.queue[0]] == v.mail[v.queue[0]].drop_first(),
{
    assert(v.counts[v.queue[0]] >= 1);
    assert(v.mailbox_ok(v.queue[0]));
}

/// Every message sent is delivered in order: an accepted message goes to
/// the back of the mailbox, whose length is the actor's pending count.
pub proof fn law_mailbox_first_in_first_out<M>(v: QueueView<M>, to: u64, msg: M)
    requires
        v.wf(),
        v.known(to),
        v.counts[to] < usize::MAX,
    ensures
        v.after_send(to, msg).1,
        v.after_send(to, msg).0.mail[to] == v.mail[to].push(msg),
        v.after_send(to, msg).0.mail[to].len() == v.after_send(to, msg).0.counts[to],
        v.mail[to].len() == 0 ==> v.after_send(to, msg).0.mail[to][0] == msg,
{
    assert(v.mailbox_ok(to));
}

/// No message is forgotten: a known actor with pending messages is queued,
/// running, or still starting; it is never idle.
pub proof fn law_pending_actor_is_scheduled<M>(v: QueueView<M>, a: u64)
    requires
        v.wf(),
        v.known(a),
        v.counts[a] > 0,
    ensures
        v.queue.contains(a) || v.running.contains(a) || v.starting.contains(a),
        !v.idle.contains(a),
{
}

/// Every registration gives a reference that no earlier one gave: two
/// registrations in a row give different, previously unknown actors.
pub proof fn law_registrations_are_fresh<M>(v: QueueView<M>)
    requires
        v.wf(),
        v.next_id < u64::MAX - 1,
    ensures
        !v.known(v.next_id),
        !v.after_new_actor().known(v.after_new_actor().next_id),
        v.after_new_actor().next_id != v.next_id,
{
    law_new_actor_keeps_invariant(v);
}

/// A message sent to an idle actor queues it at the back; a message sent to
/// a known actor adds one to its pending count. A starting actor collects
/// messages without being queued, and is queued when it has started.
pub proof fn law_send_queues_idle_actor<M>(v: QueueView<M>, to: u64, msg: M)
    requires
        v.wf(),
        v.known(to),
        v.counts[to] < usize::MAX,
    ensures
        v.after_send(to, msg).1,
        v.after_send(to, msg).0.counts[to] == v.counts[to] + 1,
        v.idle.contains(to) ==> v.after_send(to, msg).0.queue == v.queue.push(to) && !v.after_send(
            to,
            msg,
        ).0.idle.contains(to),
        !v.idle.contains(to) ==> v.after_send(to, msg).0.queue == v.queue,
        v.starting.contains(to) ==> v.after_send(to, msg).0.after_started(to).1
            && v.after_send(to, msg).0.after_started(to).0.queue == v.queue.push(to),
{
}

/// A removed actor takes no more messages: a send to it, right after its
/// removal or at any later time, is refused and changes nothing; removing it
/// a second time changes nothing either.
pub proof fn law_removed_actor_refuses_send<M>(v: QueueView<M>, a: u64, msg: M)
    requires
        v.wf(),
        v.removed.contains(a),
    ensures
        !v.after_send(a, msg).1,
        v.after_send(a, msg).0 == v,
        v.after_remove(a) == v,
{
}

/// Removing a known actor marks it removed, drops it and its mailbox from
/// every place, and leaves every other actor's counter and mailbox as they
/// were.
pub proof fn law_remove_forgets_actor<M>(v: QueueView<M>, a: u64)
    requires
        v.wf(),
        v.known(a),
    ensures
        v.after_remove(a).removed.contains(a),
        !v.after_remove(a).known(a),
        !v.after_remove(a).mail.contains_key(a),
        !v.after_remove(a).queue.contains(a),
        !v.after_remove(a).idle.contains(a),
        !v.after_remove(a).running.contains(a),
        !v.after_remove(a).starting.contains(a),
        forall|b: u64| b != a ==> (#[trigger] v.after_remove(a).known(b) <==> v.known(b)),
        forall|b: u64| b != a && v.known(b) ==> #[trigger] v.after_remove(a).counts[b] == v.counts[b],
        forall|b: u64| b != a && v.known(b) ==> #[trigger] v.after_remove(a).mail[b] == v.mail[b],
{
    lemma_without(v.queue, a);
}

/// Once no actor is known (none was registered, every one was removed, or
/// the scheduler was shut down) a poll answers `Closed` at once.
pub proof fn law_poll_closes_without_actors<M>(v: QueueView<M>)
    requires
        v.wf(),
        forall|a: u64| !v.known(a),
    ensures
        v.after_poll() == (v, PollOutcome::<M>::Closed),
{
    assert forall|a: u64| !v.counts.dom().contains(a) by {
        assert(!v.known(a));
    }
    assert(v.counts.dom() =~= Set::<u64>::empty());
}

} // verus!
