use actrs::actor_queue::{ActorQueue, PollOutcome};
use actrs::stage::StageCore;
use actrs::ActorRef;
use std::collections::HashMap;

/// The most messages an actor handles in one turn, as in `Stage::new`.
const MAX_MESSAGES: usize = 10;

/// A stage run on one thread, with actors whose state is an `i32` that each
/// message adds to. `turns` records each turn: the actor and how many
/// messages it handled.
struct SumStage {
    core: StageCore<i32>,
    states: HashMap<u64, i32>,
    turns: Vec<(u64, usize)>,
}

impl SumStage {
    fn new() -> Self {
        SumStage { core: StageCore::new(), states: HashMap::new(), turns: Vec::new() }
    }

    fn add_actor(&mut self, init: i32) -> ActorRef {
        let r = self.core.new_actor();
        self.core.init_finished(r, true);
        self.states.insert(r.0, init);
        r
    }

    fn send(&mut self, to: ActorRef, msg: i32) {
        assert!(self.core.send(to, msg));
    }

    fn run(&mut self) {
        while let PollOutcome::Ready(a, first) = self.core.poll() {
            let mut handled = 0;
            let mut msg = first;
            loop {
                let s = self.states[&a.0] + msg;
                self.states.insert(a.0, s);
                handled += 1;
                match self.core.continue_turn(a, handled, MAX_MESSAGES, false) {
                    Some(next) => msg = next,
                    None => break,
                }
            }
            self.turns.push((a.0, handled));
            self.core.message_done(a, true);
        }
    }
}

#[test]
fn test_stage_send_accumulates_messages() {
    let mut stage = SumStage::new();
    let actor_ref = stage.add_actor(0);

    stage.send(actor_ref, 10);
    stage.send(actor_ref, 20);

    stage.run();
    assert_eq!(stage.states[&actor_ref.0], 30);
}

#[test]
fn test_stage_batches_more_than_limit() {
    let mut stage = SumStage::new();
    let actor_ref = stage.add_actor(0);

    for _ in 0..11 {
        stage.send(actor_ref, 1);
    }

    stage.run();
    assert_eq!(stage.states[&actor_ref.0], 11);
    // ten messages in the first turn, the last one in a second turn
    assert_eq!(stage.turns, vec![(actor_ref.0, 10), (actor_ref.0, 1)]);
}

#[test]
fn turn_ends_at_limit_and_other_actor_runs() {
    let mut stage = SumStage::new();
    let a = stage.add_actor(0);
    let b = stage.add_actor(0);
    for _ in 0..12 {
        stage.send(a, 1);
    }
    stage.send(b, 5);
    stage.run();
    assert_eq!(stage.turns, vec![(a.0, 10), (b.0, 1), (a.0, 2)]);
    assert_eq!(stage.states[&a.0], 12);
    assert_eq!(stage.states[&b.0], 5);
}

#[test]
fn turn_ends_when_time_is_up() {
    let mut core = StageCore::new();
    let a = core.new_actor();
    core.init_finished(a, true);
    assert!(core.send(a, 0));
    assert!(core.send(a, 0));
    assert!(matches!(core.poll(), PollOutcome::Ready(r, _) if r == a));
    assert_eq!(core.continue_turn(a, 1, MAX_MESSAGES, true), None);
    assert_eq!(core.continue_turn(a, 1, MAX_MESSAGES, false), Some(0));
    assert_eq!(core.continue_turn(a, 2, MAX_MESSAGES, false), None);
}

#[test]
fn test_multiple_actors_unique_refs() {
    let mut stage = SumStage::new();
    let ref1 = stage.add_actor(0);
    let ref2 = stage.add_actor(0);

    assert_ne!(ref1, ref2);
}

#[test]
fn queue_runs_actors_in_send_order() {
    let mut q = ActorQueue::new();
    let a = q.new_actor();
    q.started(a);
    let b = q.new_actor();
    q.started(b);
    assert_eq!(a, ActorRef(0));
    assert_eq!(b, ActorRef(1));
    assert!(matches!(q.poll(), PollOutcome::Empty));
    assert!(q.send(b, 0));
    assert!(q.send(a, 0));
    assert!(q.send(b, 0));
    assert_eq!(q.pending(b), Some(2));
    assert!(matches!(q.poll(), PollOutcome::Ready(r, _) if r == b));
    assert_eq!(q.pending(b), Some(1));
    assert!(matches!(q.poll(), PollOutcome::Ready(r, _) if r == a));
    // b is running: it is not handed out again until it is returned
    assert!(matches!(q.poll(), PollOutcome::Empty));
    assert!(q.return_to_queue(b));
    assert!(!q.return_to_queue(a));
    assert!(matches!(q.poll(), PollOutcome::Ready(r, _) if r == b));
    assert_eq!(q.pending(b), Some(0));
    assert!(!q.return_to_queue(b));
    assert!(matches!(q.poll(), PollOutcome::Empty));
}

#[test]
fn queue_rejects_unknown_actor() {
    let mut q = ActorQueue::new();
    assert!(matches!(q.poll(), PollOutcome::Closed));
    assert!(!q.send(ActorRef(7), 0));
    assert_eq!(q.pending(ActorRef(7)), None);
    assert!(q.is_closed());
}

#[test]
fn removed_actor_is_not_scheduled() {
    let mut q = ActorQueue::new();
    let a = q.new_actor();
    q.started(a);
    let b = q.new_actor();
    q.started(b);
    assert!(q.send(a, 0));
    assert!(q.send(b, 0));
    q.remove_actor(&a);
    // the actor and its pending message are forgotten
    assert_eq!(q.pending(a), None);
    assert!(matches!(q.poll(), PollOutcome::Ready(r, _) if r == b));
    assert!(matches!(q.poll(), PollOutcome::Empty));
}

#[test]
fn removed_actor_refuses_messages() {
    let mut q = ActorQueue::new();
    let a = q.new_actor();
    q.started(a);
    let b = q.new_actor();
    q.started(b);
    q.remove_actor(&a);
    assert!(!q.send(a, 0));
    assert_eq!(q.pending(a), None);
    q.remove_actor(&a);
    assert!(q.send(b, 0));
    assert_eq!(q.pending(b), Some(1));
}

#[test]
fn poll_closes_once_every_actor_is_removed() {
    let mut q = ActorQueue::new();
    let a = q.new_actor();
    q.started(a);
    let b = q.new_actor();
    q.started(b);
    assert!(q.send(a, 0));
    q.remove_actor(&a);
    q.remove_actor(&b);
    assert!(matches!(q.poll(), PollOutcome::Closed));
    assert!(q.is_closed());
}

#[test]
fn shutdown_closes_the_queue() {
    let mut q = ActorQueue::new();
    let a = q.new_actor();
    q.started(a);
    assert!(q.send(a, 0));
    q.shutdown();
    assert!(matches!(q.poll(), PollOutcome::Closed));
    assert!(!q.send(a, 0));
    // a new actor after shutdown gets a fresh reference, and stale queue
    // entries are skipped
    let b = q.new_actor();
    q.started(b);
    assert_eq!(b, ActorRef(1));
    assert!(q.send(b, 0));
    assert!(matches!(q.poll(), PollOutcome::Ready(r, _) if r == b));
}

#[test]
fn stage_completes_when_last_actor_stops() {
    let mut core = StageCore::new();
    assert!(core.is_completed());
    assert_eq!(core.actor_count(), 0);
    let a = core.new_actor();
    core.init_finished(a, true);
    let b = core.new_actor();
    core.init_finished(b, true);
    assert!(!core.is_completed());
    assert_eq!(core.actor_count(), 2);
    assert!(core.is_live(a));
    assert!(core.send(a, 0));
    assert!(core.send(b, 0));
    assert!(matches!(core.poll(), PollOutcome::Ready(r, _) if r == a));
    let w = core.message_done(a, false);
    assert!(!w.completion);
    assert!(!core.is_live(a));
    assert_eq!(core.actor_count(), 1);
    assert!(matches!(core.poll(), PollOutcome::Ready(r, _) if r == b));
    let w = core.message_done(b, false);
    assert!(w.completion);
    assert!(core.is_completed());
    assert_eq!(core.actor_count(), 0);
}

#[test]
fn failed_initialisation_removes_actor() {
    let mut core: StageCore<i32> = StageCore::new();
    let a = core.new_actor();
    assert!(core.init_finished(a, false).completion);
    assert!(core.is_completed());
    assert!(!core.is_live(a));
    let b = core.new_actor();
    core.init_finished(b, true);
    let c = core.new_actor();
    assert!(!core.init_finished(c, false).completion);
    assert!(!core.is_completed());
}

#[test]
fn stage_shutdown_forgets_actors() {
    let mut core: StageCore<i32> = StageCore::new();
    let a = core.new_actor();
    core.init_finished(a, true);
    core.shutdown();
    assert!(core.is_completed());
    assert_eq!(core.actor_count(), 0);
    assert!(matches!(core.poll(), PollOutcome::Closed));
}

#[test]
fn requeued_actor_wakes_a_worker() {
    let mut core = StageCore::new();
    let a = core.new_actor();
    core.init_finished(a, true);
    assert!(core.send(a, 0));
    assert!(core.send(a, 0));
    assert!(matches!(core.poll(), PollOutcome::Ready(r, _) if r == a));
    let w = core.message_done(a, true);
    assert!(w.worker);
    assert!(!w.completion);
    assert!(matches!(core.poll(), PollOutcome::Ready(r, _) if r == a));
    let w = core.message_done(a, true);
    assert!(!w.worker);
}

#[test]
fn mailbox_delivers_messages_in_send_order() {
    let mut core: StageCore<&str> = StageCore::new();
    let a = core.new_actor();
    core.init_finished(a, true);
    assert!(core.send(a, "first"));
    assert!(core.send(a, "second"));
    assert!(core.send(a, "third"));
    assert!(matches!(core.poll(), PollOutcome::Ready(r, "first") if r == a));
    assert_eq!(core.continue_turn(a, 1, MAX_MESSAGES, false), Some("second"));
    let w = core.message_done(a, true);
    assert!(w.worker);
    assert!(matches!(core.poll(), PollOutcome::Ready(r, "third") if r == a));
    core.message_done(a, false);
    assert!(!core.send(a, "late"));
    assert!(matches!(core.poll(), PollOutcome::Closed));
}

#[test]
fn messages_wait_for_initialisation() {
    let mut core: StageCore<&str> = StageCore::new();
    let a = core.new_actor();
    assert!(core.send(a, "early"));
    // the actor is still starting: nothing runs yet
    assert!(matches!(core.poll(), PollOutcome::Empty));
    let w = core.init_finished(a, true);
    assert!(w.worker);
    assert!(matches!(core.poll(), PollOutcome::Ready(r, "early") if r == a));
}

#[test]
fn failed_initialisation_drops_early_messages() {
    let mut core: StageCore<&str> = StageCore::new();
    let a = core.new_actor();
    assert!(core.send(a, "early"));
    let w = core.init_finished(a, false);
    assert!(!w.worker);
    assert!(w.completion);
    assert!(!core.send(a, "late"));
    assert!(matches!(core.poll(), PollOutcome::Closed));
}
