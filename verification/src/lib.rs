//! A convention-based decision engine for a cooperative card game.
//!
//! The library holds a per-turn snapshot of the game (hands, discard pile,
//! play stacks), query functions over it (card lookup, playability and
//! criticality under uncertainty, hint-focus resolution), a bank of
//! suspendable reasoning tasks, and a priority-queue scheduler that the
//! `Brain` drains once per turn to produce a single action.

use vstd::prelude::*;

pub mod flags;
pub mod model;
pub mod priority_queue;
pub mod thoughts;

pub use flags::{Color, ColorFlags, NumberFlags};
pub use model::{
    Card, CardId, CardType, Focus, GameState, Hint, PlayerCard, PlayerHand, TeammateCard,
    TeammateHand,
};
pub use priority_queue::PriorityQueue;
pub use thoughts::{
    Action, DiscardThought, EarlyGameThought, FinesseThought, FinessedThought, FiveSaveThought,
    FiveStallThought, PlayThought, Poll, PromptThought, PromptedThought, SaveThought, Thought,
    ThoughtType, TwoSaveThought,
};

use priority_queue::{bands_wf, pop_step, push_front_spec, push_spec};

verus! {

/// A per-card association of reasoning tasks, available to external
/// triggering logic.
pub struct Thoughts(pub Vec<(CardId, Vec<ThoughtType>)>);

/// The fixed priority at which each task variant is requeued after a
/// polling cycle (lower values are served first). External triggering uses
/// the same table for initial insertion, except the early-game seed.
pub open spec fn requeue_priority_spec(t: ThoughtType) -> usize {
    match t {
        ThoughtType::Prompt(_) => 20,
        ThoughtType::Prompted(_) => 20,
        ThoughtType::Finesse(_) => 10,
        ThoughtType::Finessed(_) => 10,
        ThoughtType::Play(_) => 5,
        ThoughtType::FiveSave(_) => 6,
        ThoughtType::TwoSave(_) => 6,
        ThoughtType::Save(_) => 9,
        ThoughtType::FiveStall(_) => 1,
        ThoughtType::EarlyGame(_) => 5,
        ThoughtType::Discard(_) => 0,
    }
}

fn requeue_priority(t: &ThoughtType) -> (p: usize)
    ensures
        p == requeue_priority_spec(*t),
{
    match t {
        ThoughtType::Prompt(_) => 20,
        ThoughtType::Prompted(_) => 20,
        ThoughtType::Finesse(_) => 10,
        ThoughtType::Finessed(_) => 10,
        ThoughtType::Play(_) => 5,
        ThoughtType::FiveSave(_) => 6,
        ThoughtType::TwoSave(_) => 6,
        ThoughtType::Save(_) => 9,
        ThoughtType::FiveStall(_) => 1,
        ThoughtType::EarlyGame(_) => 5,
        ThoughtType::Discard(_) => 0,
    }
}

/// Some band of the queue holds a fallback discard task.
pub open spec fn queue_has_discard(bands: Seq<(usize, Seq<ThoughtType>)>) -> bool {
    exists|bi: int, j: int|
        0 <= bi < bands.len() && 0 <= j < bands[bi].1.len() && (#[trigger] bands[bi].1[j])
            is Discard
}

pub open spec fn first_band_len(bands: Seq<(usize, Seq<ThoughtType>)>) -> nat {
    if bands.len() == 0 {
        0
    } else {
        bands[0].1.len()
    }
}

/// Draining the queue on a snapshot: tasks are polled in ascending priority
/// order, within a band from the tail, until one yields an action. The
/// result is that action, the stash of pending tasks in poll order, and how
/// many tasks were polled; a queue that drains without an action yields
/// nothing.
pub open spec fn drain_spec(bands: Seq<(usize, Seq<ThoughtType>)>, s: GameState) -> Option<
    (Action, Seq<ThoughtType>, nat),
>
    decreases bands.len(), first_band_len(bands),
{
    if bands.len() == 0 {
        None
    } else if bands[0].1.len() == 0 {
        None
    } else {
        let t = bands[0].1.last();
        let rest = pop_step(bands);
        match t.poll_result(s) {
            Poll::Pending(Some(a)) => Some((a, seq![t], 1nat)),
            Poll::Pending(None) => match drain_spec(rest, s) {
                Some(r2) => Some((r2.0, seq![t] + r2.1, (r2.2 + 1) as nat)),
                None => None,
            },
            Poll::Finished(Some(a)) => Some((a, Seq::empty(), 1nat)),
            Poll::Finished(None) => match drain_spec(rest, s) {
                Some(r2) => Some((r2.0, r2.1, (r2.2 + 1) as nat)),
                None => None,
            },
        }
    }
}

/// The queue after `k` pops.
pub open spec fn drop_items(bands: Seq<(usize, Seq<ThoughtType>)>, k: nat) -> Seq<
    (usize, Seq<ThoughtType>),
>
    decreases k,
{
    if k == 0 {
        bands
    } else {
        drop_items(pop_step(bands), (k - 1) as nat)
    }
}

/// The queue after the stash is requeued: walking the stash from its tail,
/// each task is front-inserted at its requeue priority, so the stash ends
/// up at the front of its bands in poll order.
pub open spec fn requeue_all(
    stash: Seq<ThoughtType>,
    bands: Seq<(usize, Seq<ThoughtType>)>,
) -> Seq<(usize, Seq<ThoughtType>)>
    decreases stash.len(),
{
    if stash.len() == 0 {
        bands
    } else {
        requeue_all(
            stash.drop_last(),
            push_front_spec(bands, stash.last(), requeue_priority_spec(stash.last())),
        )
    }
}

proof fn lemma_drop_items_step(bands: Seq<(usize, Seq<ThoughtType>)>, k: nat)
    ensures
        drop_items(bands, (k + 1) as nat) == pop_step(drop_items(bands, k)),
    decreases k,
{
    if k == 0 {
        assert(drop_items(bands, 1nat) == drop_items(pop_step(bands), 0nat));
        assert(drop_items(pop_step(bands), 0nat) == pop_step(bands));
    } else {
        lemma_drop_items_step(pop_step(bands), (k - 1) as nat);
        assert(drop_items(bands, (k + 1) as nat) == drop_items(pop_step(bands), k));
        assert(drop_items(bands, k) == drop_items(pop_step(bands), (k - 1) as nat));
    }
}

proof fn lemma_pop_step_wf(bands: Seq<(usize, Seq<ThoughtType>)>)
    requires
        bands_wf(bands),
        bands.len() > 0,
    ensures
        bands_wf(pop_step(bands)),
{
}

/// A queue holding a fallback discard task always drains to a decision: the
/// discard task offers an action on every poll, so the drain stops at it at
/// the latest.
proof fn lemma_discard_drains(bands: Seq<(usize, Seq<ThoughtType>)>, s: GameState)
    requires
        bands_wf(bands),
        queue_has_discard(bands),
    ensures
        drain_spec(bands, s) is Some,
    decreases bands.len(), first_band_len(bands),
{
    let (bi, j) = choose|bi: int, j: int|
        0 <= bi < bands.len() && 0 <= j < bands[bi].1.len() && (#[trigger] bands[bi].1[j])
            is Discard;
    let t = bands[0].1.last();
    match t.poll_result(s) {
        Poll::Pending(Some(_)) => {},
        Poll::Finished(Some(_)) => {},
        _ => {
            // The popped task yields no action, so it is not the discard
            // task: that one always offers a discard.
            assert(!(t is Discard));
            let rest = pop_step(bands);
            lemma_pop_step_wf(bands);
            if bands[0].1.len() <= 1 {
                assert(bi >= 1);
                assert(rest[bi - 1].1[j] is Discard);
            } else {
                if bi == 0 {
                    assert(j < bands[0].1.len() - 1);
                    assert(rest[0].1[j] is Discard);
                } else {
                    assert(rest[bi].1[j] is Discard);
                }
            }
            assert(queue_has_discard(rest));
            lemma_discard_drains(rest, s);
        },
    }
}

/// The orchestrator: it owns the scheduler, drains it once per decision
/// call, and requeues the surviving tasks.
pub struct Brain {
    pub thoughts: PriorityQueue<ThoughtType>,
}

/// The queue a fresh brain starts with: the early-game convention alone, at
/// its one-time seed priority of ten — deliberately different from the
/// requeue priority of five it gets on every later cycle.
pub open spec fn initial_queue() -> Seq<(usize, Seq<ThoughtType>)> {
    seq![(10usize, seq![ThoughtType::EarlyGame(EarlyGameThought {  })])]
}

impl Brain {
    pub fn new() -> (r: Brain)
        ensures
            r.thoughts.wf(),
            r.thoughts.bands_view() == initial_queue(),
    {
        let mut queue = PriorityQueue::<ThoughtType>::new();
        queue.push(ThoughtType::EarlyGame(EarlyGameThought {}), 10);
        proof {
            assert(queue.bands_view() =~~= initial_queue());
        }
        Brain { thoughts: queue }
    }

    /// Inject an externally constructed task at a priority of the trigger's
    /// choosing; the requeue table gives the conventional values.
    pub fn enqueue(&mut self, thought: ThoughtType, priority: usize)
        requires
            old(self).thoughts.wf(),
        ensures
            final(self).thoughts.wf(),
            final(self).thoughts.bands_view() == push_spec(
                old(self).thoughts.bands_view(),
                thought,
                priority,
            ),
    {
        self.thoughts.push(thought, priority);
    }

    /// Produce one decision: poll tasks in ascending priority order (within
    /// a band, from the tail) until one yields an action. Finished tasks
    /// retire; pending ones are requeued afterwards at the fixed requeue
    /// priorities, front-inserted in reverse stash order. The queue must
    /// hold a fallback discard task, which guarantees a decision.
    #[verifier::loop_isolation(false)]
    pub fn play(&mut self, game_state: &GameState) -> (r: Action)
        requires
            old(self).thoughts.wf(),
            game_state.wf(),
            game_state.player_hand.0@.len() > 0,
            queue_has_discard(old(self).thoughts.bands_view()),
        ensures
            final(self).thoughts.wf(),
            drain_spec(old(self).thoughts.bands_view(), *game_state) matches Some(d) && r == d.0
                && final(self).thoughts.bands_view() == requeue_all(
                d.1,
                drop_items(old(self).thoughts.bands_view(), d.2),
            ),
    {
        let ghost q0 = self.thoughts.bands_view();
        proof {
            lemma_discard_drains(q0, *game_state);
            match drain_spec(q0, *game_state) {
                Some(dd) => {
                    assert(drain_spec(q0, *game_state) == Some(dd));
                },
                None => {
                    assert(false);
                },
            }
        }
        let ghost d = choose|dd: (Action, Seq<ThoughtType>, nat)|
            drain_spec(q0, *game_state) == Some(dd);
        let mut stash: Vec<ThoughtType> = Vec::new();
        let ghost mut polled: nat = 0;
        let mut result: Option<Action> = None;
        while result.is_none()
            invariant
                self.thoughts.wf(),
                polled <= d.2,
                self.thoughts.bands_view() == drop_items(q0, polled),
                (result is None) ==> (match drain_spec(self.thoughts.bands_view(), *game_state) {
                    Some(rem) => rem.0 == d.0 && stash@ + rem.1 == d.1 && polled + rem.2 == d.2,
                    None => false,
                }),
                result matches Some(a) ==> a == d.0 && polled == d.2 && stash@ == d.1,
            decreases d.2 - polled,
        {
            let ghost cur = self.thoughts.bands_view();
            proof {
                assert(cur.len() > 0 && cur[0].1.len() > 0);
            }
            let mut thought = self.thoughts.pop().unwrap();
            let ghost t = cur[0].1.last();
            let p = thought.poll(game_state);
            proof {
                polled = polled + 1;
                lemma_drop_items_step(q0, (polled - 1) as nat);
            }
            match p {
                Poll::Pending(a_opt) => {
                    let ghost stash_old = stash@;
                    stash.push(thought);
                    proof {
                        match drain_spec(pop_step(cur), *game_state) {
                            Some(r2) => {
                                assert(stash_old + (seq![t] + r2.1) =~= stash_old.push(t) + r2.1);
                            },
                            None => {},
                        }
                        assert(stash_old + seq![t] =~= stash_old.push(t));
                    }
                    if let Some(a) = a_opt {
                        result = Some(a);
                    }
                },
                Poll::Finished(a_opt) => {
                    if let Some(a) = a_opt {
                        proof {
                            assert(stash@ + Seq::<ThoughtType>::empty() =~= stash@);
                        }
                        result = Some(a);
                    }
                },
            }
        }
        let ghost drained = self.thoughts.bands_view();
        while stash.len() > 0
            invariant
                self.thoughts.wf(),
                requeue_all(d.1, drained) == requeue_all(stash@, self.thoughts.bands_view()),
            decreases stash@.len(),
        {
            let t = stash.pop().unwrap();
            let pri = requeue_priority(&t);
            self.thoughts.push_front(t, pri);
        }
        result.unwrap()
    }
}

} // verus!
