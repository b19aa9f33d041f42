//! The reasoning tasks: eleven convention state machines, each polled once
//! per decision cycle against the current snapshot, suspending or deciding.

use vstd::prelude::*;

use crate::flags::Color;
use crate::model::{
    card_playable_spec, focus_spec, own_chop_from, team_chop_from, CardId, CardType, Focus,
    GameState, Hint,
};

verus! {

/// A decision the brain can emit.
#[derive(Clone, Copy, Debug, PartialEq, Eq, Structural)]
pub enum Action {
    Play(CardId),
    Discard(CardId),
    Hint(usize, Hint),
}

/// The outcome of polling one reasoning task: a pending task stays queued
/// for the next cycle, a finished task retires; either may surface an
/// action.
#[derive(Clone, Copy, Debug)]
pub enum Poll {
    Pending(Option<Action>),
    Finished(Option<Action>),
}

/// One suspendable convention task. Polling is a pure classification of
/// (task state, snapshot): it never changes the task and never touches the
/// snapshot.
pub trait Thought: Sized {
    /// The outcome polling yields on the given snapshot.
    spec fn poll_result(self, s: GameState) -> Poll;

    fn poll(&mut self, game_state: &GameState) -> (r: Poll)
        requires
            game_state.wf(),
            game_state.player_hand.0@.len() > 0,
        ensures
            r == old(self).poll_result(*game_state),
            *final(self) == *old(self),
    ;
}

/// A prompt in progress: intermediate cards that must be played before the
/// hinted target is safe.
#[derive(Clone, Debug)]
pub struct PromptThought {
    pub prompted: Vec<CardId>,
    pub hinted: CardId,
}

/// The agent believes it is being prompted and should play the card.
#[derive(Clone, Copy, Debug)]
pub struct PromptedThought {
    pub prompted: CardId,
    pub hinted: CardId,
}

/// A finesse in progress, tracked like a prompt.
#[derive(Clone, Debug)]
pub struct FinesseThought {
    pub finessed: Vec<CardId>,
    pub hinted: CardId,
}

/// The agent believes it is being finessed and should play the card.
#[derive(Clone, Copy, Debug)]
pub struct FinessedThought {
    pub card: CardId,
}

/// A card clued playable on a recorded turn; trusted unconditionally.
#[derive(Clone, Copy, Debug)]
pub struct PlayThought {
    pub card: CardId,
    pub turn: usize,
}

/// A five saved by hint; played as soon as it becomes playable.
#[derive(Clone, Copy, Debug)]
pub struct FiveSaveThought {
    pub card: CardId,
}

/// A two saved by hint; played as soon as it becomes playable.
#[derive(Clone, Copy, Debug)]
pub struct TwoSaveThought {
    pub card: CardId,
}

/// A critical card saved by hint; played as soon as it becomes playable.
#[derive(Clone, Copy, Debug)]
pub struct SaveThought {
    pub card: CardId,
}

/// A five hinted as a stall; played as soon as it becomes playable.
#[derive(Clone, Copy, Debug)]
pub struct FiveStallThought {
    pub card: CardId,
}

/// The early-game hinting convention; holds no state and scans the snapshot.
#[derive(Clone, Copy, Debug)]
pub struct EarlyGameThought {}

/// The guaranteed fallback: always offers to discard the chop (or the first
/// slot when every slot is touched) and never finishes.
#[derive(Clone, Copy, Debug)]
pub struct DiscardThought {}

/// The closed sum of all task variants, as the scheduler stores them.
#[derive(Clone, Debug)]
pub enum ThoughtType {
    Prompt(PromptThought),
    Prompted(PromptedThought),
    Finesse(FinesseThought),
    Finessed(FinessedThought),
    Play(PlayThought),
    FiveSave(FiveSaveThought),
    TwoSave(TwoSaveThought),
    Save(SaveThought),
    FiveStall(FiveStallThought),
    EarlyGame(EarlyGameThought),
    Discard(DiscardThought),
}

/// Polling a prompt or finesse line: play the target once every tracked card
/// has been played; give up once any tracked card is discarded; else wait.
pub open spec fn line_poll_spec(s: GameState, watched: Seq<CardId>, hinted: CardId) -> Poll {
    if forall|k: int|
        0 <= k < watched.len() ==> (#[trigger] s.resolve_spec(watched[k])) is Played {
        Poll::Finished(Some(Action::Play(hinted)))
    } else if exists|k: int|
        0 <= k < watched.len() && (#[trigger] s.resolve_spec(watched[k])) is Discarded {
        Poll::Finished(None)
    } else {
        Poll::Pending(None)
    }
}

/// Polling a save or stall task: play the tracked card once it is playable,
/// else wait.
pub open spec fn save_poll_spec(s: GameState, card: CardId) -> Poll {
    if card_playable_spec(s, s.resolve_spec(card)) {
        Poll::Finished(Some(Action::Play(card)))
    } else {
        Poll::Pending(None)
    }
}

/// The card the fallback discard offers: the own-hand chop, or the first
/// slot when every slot is touched.
pub open spec fn discard_target(s: GameState) -> CardId {
    match own_chop_from(s.player_hand.0@, 0) {
        Some(i) => s.player_hand.0@[i].0,
        None => s.player_hand.0@[0].0,
    }
}

/// Polling the fallback discard: always pending with a discard offer.
pub open spec fn discard_poll_spec(s: GameState) -> Poll {
    Poll::Pending(Some(Action::Discard(discard_target(s))))
}

/// The card a focus lands on, whichever form it takes.
pub open spec fn focus_card_id(f: Focus) -> CardId {
    match f {
        Focus::Chop(id, _) => id,
        Focus::NewCard(id, _) => id,
        Focus::LeftMost(id, _) => id,
    }
}

/// The early-game test on one known identity: playable, or unplayed and
/// critical.
pub open spec fn eg_candidate(s: GameState, crit: bool, c: Color, n: usize) -> bool {
    if crit {
        !s.on_stack(c, n) && s.critical_at(c, n)
    } else {
        s.playable_num(c, n)
    }
}

/// The first teammate card at or after (p, i), scanning player order then
/// index order, that is an untouched early-game candidate and that a number
/// hint — or failing that a color hint — would focus; paired with the hint
/// that focuses it.
pub open spec fn hintable_from(s: GameState, crit: bool, p: int, i: int) -> Option<(int, Hint)>
    decreases s.team_hands@.len() - p, s.team_hands@[p].hand@.len() - i + 1 when p >= 0 && i >= 0
{
    if p < 0 || i < 0 || p >= s.team_hands@.len() {
        None
    } else if i >= s.team_hands@[p].hand@.len() {
        hintable_from(s, crit, p + 1, 0)
    } else {
        let slot = s.team_hands@[p].hand@[i];
        if eg_candidate(s, crit, slot.1, slot.2) && !slot.3 {
            if focus_card_id(focus_spec(s.team_hands@[p].hand@, Hint::Number(slot.2))) == slot.0 {
                Some((p, Hint::Number(slot.2)))
            } else if focus_card_id(focus_spec(s.team_hands@[p].hand@, Hint::Color(slot.1)))
                == slot.0 {
                Some((p, Hint::Color(slot.1)))
            } else {
                hintable_from(s, crit, p, i + 1)
            }
        } else {
            hintable_from(s, crit, p, i + 1)
        }
    }
}

/// The first player at or after `p` whose chop is an untouched two whose
/// color has already played its two, and whom a number-two hint would focus
/// on that chop.
pub open spec fn two_save_from(s: GameState, p: int) -> Option<int>
    decreases s.team_hands@.len() - p when p >= 0
{
    if p < 0 || p >= s.team_hands@.len() {
        None
    } else {
        match team_chop_from(s.team_hands@[p].hand@, 0) {
            Some(ci) => {
                let slot = s.team_hands@[p].hand@[ci];
                if slot.2 == 2 && s.on_stack(slot.1, 2) && !slot.3 && focus_card_id(
                    focus_spec(s.team_hands@[p].hand@, Hint::Number(2)),
                ) == slot.0 {
                    Some(p)
                } else {
                    two_save_from(s, p + 1)
                }
            },
            None => two_save_from(s, p + 1),
        }
    }
}

/// The first teammate card at or after (p, i) that is an untouched five
/// whose color's stack has reached two; hinted without a focus check.
pub open spec fn five_stall_from(s: GameState, p: int, i: int) -> Option<int>
    decreases s.team_hands@.len() - p, s.team_hands@[p].hand@.len() - i + 1 when p >= 0 && i >= 0
{
    if p < 0 || i < 0 || p >= s.team_hands@.len() {
        None
    } else if i >= s.team_hands@[p].hand@.len() {
        five_stall_from(s, p + 1, 0)
    } else {
        let slot = s.team_hands@[p].hand@[i];
        if slot.2 == 5 && s.on_stack(slot.1, 2) && !slot.3 {
            Some(p)
        } else {
            five_stall_from(s, p, i + 1)
        }
    }
}

/// Polling the early-game convention: with no hint tokens, wait. Otherwise
/// offer the first hint for a playable candidate, then for a critical
/// candidate, then a two-save on a chop, then a five stall; with nothing to
/// hint, retire.
pub open spec fn early_game_poll_spec(s: GameState) -> Poll {
    if s.hint_count == 0 {
        Poll::Pending(None)
    } else {
        match hintable_from(s, false, 0, 0) {
            Some(ph) => Poll::Pending(Some(Action::Hint(ph.0 as usize, ph.1))),
            None => match hintable_from(s, true, 0, 0) {
                Some(ph) => Poll::Pending(Some(Action::Hint(ph.0 as usize, ph.1))),
                None => match two_save_from(s, 0) {
                    Some(p) => Poll::Pending(Some(Action::Hint(p as usize, Hint::Number(2)))),
                    None => match five_stall_from(s, 0, 0) {
                        Some(p) => Poll::Pending(Some(Action::Hint(p as usize, Hint::Number(5)))),
                        None => Poll::Finished(None),
                    },
                },
            },
        }
    }
}

impl Thought for PromptThought {
    open spec fn poll_result(self, s: GameState) -> Poll {
        line_poll_spec(s, self.prompted@, self.hinted)
    }

    #[verifier::loop_isolation(false)]
    fn poll(&mut self, game_state: &GameState) -> (r: Poll) {
        let mut all_played = true;
        let mut any_discarded = false;
        let mut k: usize = 0;
        while k < self.prompted.len()
            invariant
                k <= self.prompted@.len(),
                all_played <==> (forall|j: int|
                    0 <= j < k ==> (#[trigger] game_state.resolve_spec(self.prompted@[j]))
                        is Played),
                any_discarded <==> (exists|j: int|
                    0 <= j < k && (#[trigger] game_state.resolve_spec(self.prompted@[j]))
                        is Discarded),
            decreases self.prompted@.len() - k,
        {
            let card = self.prompted[k].resolve(game_state);
            match card.typ {
                CardType::Played(_, _) => {},
                CardType::Discarded(_, _) => {
                    all_played = false;
                    any_discarded = true;
                },
                _ => {
                    all_played = false;
                },
            }
            k += 1;
        }
        if all_played {
            return Poll::Finished(Some(Action::Play(self.hinted)));
        }
        if any_discarded {
            return Poll::Finished(None);
        }
        Poll::Pending(None)
    }
}

impl Thought for PromptedThought {
    open spec fn poll_result(self, s: GameState) -> Poll {
        Poll::Finished(Some(Action::Play(self.prompted)))
    }

    fn poll(&mut self, game_state: &GameState) -> (r: Poll) {
        Poll::Finished(Some(Action::Play(self.prompted)))
    }
}

impl Thought for FinesseThought {
    open spec fn poll_result(self, s: GameState) -> Poll {
        line_poll_spec(s, self.finessed@, self.hinted)
    }

    #[verifier::loop_isolation(false)]
    fn poll(&mut self, game_state: &GameState) -> (r: Poll) {
        let mut all_played = true;
        let mut any_discarded = false;
        let mut k: usize = 0;
        while k < self.finessed.len()
            invariant
                k <= self.finessed@.len(),
                all_played <==> (forall|j: int|
                    0 <= j < k ==> (#[trigger] game_state.resolve_spec(self.finessed@[j]))
                        is Played),
                any_discarded <==> (exists|j: int|
                    0 <= j < k && (#[trigger] game_state.resolve_spec(self.finessed@[j]))
                        is Discarded),
            decreases self.finessed@.len() - k,
        {
            let card = self.finessed[k].resolve(game_state);
            match card.typ {
                CardType::Played(_, _) => {},
                CardType::Discarded(_, _) => {
                    all_played = false;
                    any_discarded = true;
                },
                _ => {
                    all_played = false;
                },
            }
            k += 1;
        }
        if all_played {
            return Poll::Finished(Some(Action::Play(self.hinted)));
        }
        if any_discarded {
            return Poll::Finished(None);
        }
        Poll::Pending(None)
    }
}

impl Thought for FinessedThought {
    open spec fn poll_result(self, s: GameState) -> Poll {
        Poll::Finished(Some(Action::Play(self.card)))
    }

    fn poll(&mut self, game_state: &GameState) -> (r: Poll) {
        Poll::Finished(Some(Action::Play(self.card)))
    }
}

impl Thought for PlayThought {
    open spec fn poll_result(self, s: GameState) -> Poll {
        Poll::Finished(Some(Action::Play(self.card)))
    }

    fn poll(&mut self, game_state: &GameState) -> (r: Poll) {
        Poll::Finished(Some(Action::Play(self.card)))
    }
}

impl Thought for FiveSaveThought {
    open spec fn poll_result(self, s: GameState) -> Poll {
        save_poll_spec(s, self.card)
    }

    fn poll(&mut self, game_state: &GameState) -> (r: Poll) {
        let card = self.card.resolve(game_state);
        if card.is_playable(game_state) {
            Poll::Finished(Some(Action::Play(self.card)))
        } else {
            Poll::Pending(None)
        }
    }
}

impl Thought for TwoSaveThought {
    open spec fn poll_result(self, s: GameState) -> Poll {
        save_poll_spec(s, self.card)
    }

    fn poll(&mut self, game_state: &GameState) -> (r: Poll) {
        let card = self.card.resolve(game_state);
        if card.is_playable(game_state) {
            Poll::Finished(Some(Action::Play(self.card)))
        } else {
            Poll::Pending(None)
        }
    }
}

impl Thought for SaveThought {
    open spec fn poll_result(self, s: GameState) -> Poll {
        save_poll_spec(s, self.card)
    }

    fn poll(&mut self, game_state: &GameState) -> (r: Poll) {
        let card = self.card.resolve(game_state);
        if card.is_playable(game_state) {
            Poll::Finished(Some(Action::Play(self.card)))
        } else {
            Poll::Pending(None)
        }
    }
}

impl Thought for FiveStallThought {
    open spec fn poll_result(self, s: GameState) -> Poll {
        save_poll_spec(s, self.card)
    }

    fn poll(&mut self, game_state: &GameState) -> (r: Poll) {
        let card = self.card.resolve(game_state);
        if card.is_playable(game_state) {
            Poll::Finished(Some(Action::Play(self.card)))
        } else {
            Poll::Pending(None)
        }
    }
}

/// Scan all teammate positions for the first untouched early-game candidate
/// that a number hint — or failing that a color hint — would focus.
#[verifier::loop_isolation(false)]
fn find_hintable(game_state: &GameState, crit: bool) -> (r: Option<(usize, Hint)>)
    requires
        game_state.wf(),
    ensures
        match hintable_from(*game_state, crit, 0, 0) {
            Some(ph) => r == Some(((ph.0 as usize), ph.1)),
            None => r is None,
        },
{
    let mut p: usize = 0;
    while p < game_state.team_hands.len()
        invariant
            p <= game_state.team_hands@.len(),
            hintable_from(*game_state, crit, 0, 0) == hintable_from(*game_state, crit, p as int, 0),
        decreases game_state.team_hands@.len() - p,
    {
        let hand_len = game_state.team_hands[p].hand.len();
        let mut i: usize = 0;
        while i < hand_len
            invariant
                p < game_state.team_hands@.len(),
                hand_len == game_state.team_hands@[p as int].hand@.len(),
                i <= hand_len,
                hintable_from(*game_state, crit, 0, 0) == hintable_from(
                    *game_state,
                    crit,
                    p as int,
                    i as int,
                ),
            decreases hand_len - i,
        {
            let slot = game_state.team_hands[p].hand[i];
            let candidate = if crit {
                game_state.is_critical_num(slot.1, slot.2)
            } else {
                game_state.is_playable_num(slot.1, slot.2)
            };
            if candidate && !slot.3 {
                let hint_n = Hint::Number(slot.2);
                proof {
                    crate::model::lemma_matching_from_some(
                        game_state.team_hands@[p as int].hand@,
                        hint_n,
                        0,
                        i as int,
                    );
                }
                let f = game_state.get_focus_for_hint(p, hint_n);
                let fid = match f {
                    Focus::Chop(id, _) => id,
                    Focus::NewCard(id, _) => id,
                    Focus::LeftMost(id, _) => id,
                };
                if fid == slot.0 {
                    return Some((p, hint_n));
                }
                let hint_c = Hint::Color(slot.1);
                proof {
                    crate::model::lemma_matching_from_some(
                        game_state.team_hands@[p as int].hand@,
                        hint_c,
                        0,
                        i as int,
                    );
                }
                let f2 = game_state.get_focus_for_hint(p, hint_c);
                let fid2 = match f2 {
                    Focus::Chop(id, _) => id,
                    Focus::NewCard(id, _) => id,
                    Focus::LeftMost(id, _) => id,
                };
                if fid2 == slot.0 {
                    return Some((p, hint_c));
                }
            }
            i += 1;
        }
        p += 1;
    }
    None
}

/// Scan players for a two-save hint: an untouched two on the chop whose
/// color has already played its two, focusable by a number-two hint.
#[verifier::loop_isolation(false)]
fn find_two_save(game_state: &GameState) -> (r: Option<usize>)
    requires
        game_state.wf(),
    ensures
        match two_save_from(*game_state, 0) {
            Some(p) => r == Some(p as usize),
            None => r is None,
        },
{
    let mut p: usize = 0;
    while p < game_state.team_hands.len()
        invariant
            p <= game_state.team_hands@.len(),
            two_save_from(*game_state, 0) == two_save_from(*game_state, p as int),
        decreases game_state.team_hands@.len() - p,
    {
        let chop = game_state.team_hands[p].get_chop();
        if let Some((cid, ccol, cnum, ctouched, cidx)) = chop {
            if cnum == 2 && game_state.on_stack_exec(ccol, 2) && !ctouched {
                proof {
                    let hand_view = game_state.team_hands@[p as int].hand@;
                    crate::model::lemma_team_chop_in_range(hand_view, 0);
                    match team_chop_from(hand_view, 0) {
                        Some(j) => {
                            assert(hand_view[j].2 == 2);
                            crate::model::lemma_matching_from_some(
                                hand_view,
                                Hint::Number(2),
                                0,
                                j,
                            );
                        },
                        None => {
                            assert(false);
                        },
                    }
                }
                let f = game_state.get_focus_for_hint(p, Hint::Number(2));
                let fid = match f {
                    Focus::Chop(id, _) => id,
                    Focus::NewCard(id, _) => id,
                    Focus::LeftMost(id, _) => id,
                };
                if fid == cid {
                    return Some(p);
                }
            }
        }
        p += 1;
    }
    None
}

/// Scan all teammate positions for an untouched five whose color's stack
/// has reached two; no focus check is applied here.
#[verifier::loop_isolation(false)]
fn find_five_stall(game_state: &GameState) -> (r: Option<usize>)
    requires
        game_state.wf(),
    ensures
        match five_stall_from(*game_state, 0, 0) {
            Some(p) => r == Some(p as usize),
            None => r is None,
        },
{
    let mut p: usize = 0;
    while p < game_state.team_hands.len()
        invariant
            p <= game_state.team_hands@.len(),
            five_stall_from(*game_state, 0, 0) == five_stall_from(*game_state, p as int, 0),
        decreases game_state.team_hands@.len() - p,
    {
        let hand_len = game_state.team_hands[p].hand.len();
        let mut i: usize = 0;
        while i < hand_len
            invariant
                p < game_state.team_hands@.len(),
                hand_len == game_state.team_hands@[p as int].hand@.len(),
                i <= hand_len,
                five_stall_from(*game_state, 0, 0) == five_stall_from(
                    *game_state,
                    p as int,
                    i as int,
                ),
            decreases hand_len - i,
        {
            let slot = game_state.team_hands[p].hand[i];
            if slot.2 == 5 && game_state.on_stack_exec(slot.1, 2) && !slot.3 {
                return Some(p);
            }
            i += 1;
        }
        p += 1;
    }
    None
}

impl Thought for EarlyGameThought {
    open spec fn poll_result(self, s: GameState) -> Poll {
        early_game_poll_spec(s)
    }

    fn poll(&mut self, game_state: &GameState) -> (r: Poll) {
        if game_state.hint_count == 0 {
            return Poll::Pending(None);
        }
        if let Some((p, h)) = find_hintable(game_state, false) {
            return Poll::Pending(Some(Action::Hint(p, h)));
        }
        if let Some((p, h)) = find_hintable(game_state, true) {
            return Poll::Pending(Some(Action::Hint(p, h)));
        }
        if let Some(p) = find_two_save(game_state) {
            return Poll::Pending(Some(Action::Hint(p, Hint::Number(2))));
        }
        if let Some(p) = find_five_stall(game_state) {
            return Poll::Pending(Some(Action::Hint(p, Hint::Number(5))));
        }
        Poll::Finished(None)
    }
}

impl Thought for DiscardThought {
    open spec fn poll_result(self, s: GameState) -> Poll {
        discard_poll_spec(s)
    }

    fn poll(&mut self, game_state: &GameState) -> (r: Poll) {
        match game_state.player_hand.get_chop() {
            Some((id, _)) => Poll::Pending(Some(Action::Discard(id))),
            None => Poll::Pending(Some(Action::Discard(game_state.player_hand.0[0].0))),
        }
    }
}

impl Thought for ThoughtType {
    open spec fn poll_result(self, s: GameState) -> Poll {
        match self {
            ThoughtType::Prompt(t) => t.poll_result(s),
            ThoughtType::Prompted(t) => t.poll_result(s),
            ThoughtType::Finesse(t) => t.poll_result(s),
            ThoughtType::Finessed(t) => t.poll_result(s),
            ThoughtType::Play(t) => t.poll_result(s),
            ThoughtType::FiveSave(t) => t.poll_result(s),
            ThoughtType::TwoSave(t) => t.poll_result(s),
            ThoughtType::Save(t) => t.poll_result(s),
            ThoughtType::FiveStall(t) => t.poll_result(s),
            ThoughtType::EarlyGame(t) => t.poll_result(s),
            ThoughtType::Discard(t) => t.poll_result(s),
        }
    }

    fn poll(&mut self, game_state: &GameState) -> (r: Poll) {
        match self {
            ThoughtType::Prompt(t) => t.poll(game_state),
            ThoughtType::Prompted(t) => t.poll(game_state),
            ThoughtType::Finesse(t) => t.poll(game_state),
            ThoughtType::Finessed(t) => t.poll(game_state),
            ThoughtType::Play(t) => t.poll(game_state),
            ThoughtType::FiveSave(t) => t.poll(game_state),
            ThoughtType::TwoSave(t) => t.poll(game_state),
            ThoughtType::Save(t) => t.poll(game_state),
            ThoughtType::FiveStall(t) => t.poll(game_state),
            ThoughtType::EarlyGame(t) => t.poll(game_state),
            ThoughtType::Discard(t) => t.poll(game_state),
        }
    }
}

} // verus!
