use analytical::{
    Action, Brain, CardId, Color, ColorFlags, DiscardThought, EarlyGameThought, FinesseThought,
    FinessedThought, FiveSaveThought, FiveStallThought, Focus, GameState, Hint, NumberFlags,
    PlayThought, PlayerHand, Poll, PriorityQueue, PromptThought, PromptedThought, SaveThought,
    TeammateHand, Thought, ThoughtType, TwoSaveThought,
};

fn empty_stacks() -> Vec<Vec<(CardId, usize)>> {
    vec![vec![], vec![], vec![], vec![], vec![]]
}

fn own_slot(id: usize, touched: bool) -> (CardId, ColorFlags, NumberFlags, bool) {
    (CardId(id), ColorFlags::empty(), NumberFlags::empty(), touched)
}

fn quiet_state() -> GameState {
    // One teammate with nothing worth hinting, an own hand with a chop at
    // slot one, and no hint tokens spent.
    GameState {
        team_hands: vec![TeammateHand {
            hand: vec![(CardId(50), Color::Purple, 4, true)],
            empathy: vec![],
        }],
        player_hand: PlayerHand(vec![own_slot(60, true), own_slot(61, false)]),
        discarded: vec![],
        played: empty_stacks(),
        hint_count: 8,
        turn_counter: 0,
    }
}

#[test]
fn queue_serves_lowest_priority_band_from_the_tail() {
    let mut q: PriorityQueue<i32> = PriorityQueue::new();
    q.push(10, 5);
    q.push(20, 1);
    q.push(30, 5);
    assert_eq!(q.pop(), Some(20)); // the lowest band first
    assert_eq!(q.pop(), Some(30)); // within a band, from the tail
    assert_eq!(q.pop(), Some(10));
    assert_eq!(q.pop(), None);
}

#[test]
fn queue_front_insertion_delays_service() {
    let mut q: PriorityQueue<i32> = PriorityQueue::new();
    q.push(1, 5);
    q.push_front(2, 5);
    // The band reads [2, 1]; pops take the tail first.
    assert_eq!(q.pop(), Some(1));
    assert_eq!(q.pop(), Some(2));
}

#[test]
fn queue_peek_reads_the_front_of_the_lowest_band() {
    let mut q: PriorityQueue<i32> = PriorityQueue::new();
    assert!(q.peek().is_none());
    q.push(1, 5);
    q.push(2, 5);
    q.push(3, 9);
    // Peek reads the first item even though pop takes the tail.
    assert_eq!(q.peek(), Some(&1));
    assert_eq!(q.pop(), Some(2));
}

#[test]
fn prompt_finishes_with_the_target_once_all_tracked_cards_played() {
    let mut played = empty_stacks();
    played[0] = vec![(CardId(1), 1), (CardId(2), 2)];
    let s = GameState {
        team_hands: vec![],
        player_hand: PlayerHand(vec![own_slot(9, false)]),
        discarded: vec![],
        played,
        hint_count: 3,
        turn_counter: 0,
    };
    let mut prompt = PromptThought { prompted: vec![CardId(1), CardId(2)], hinted: CardId(9) };
    let p = prompt.poll(&s);
    assert!(matches!(p, Poll::Finished(Some(Action::Play(id))) if id == CardId(9)));
}

#[test]
fn prompt_gives_up_on_a_discarded_tracked_card() {
    let s = GameState {
        team_hands: vec![],
        player_hand: PlayerHand(vec![own_slot(9, false)]),
        discarded: vec![(CardId(1), Color::Blue, 2)],
        played: empty_stacks(),
        hint_count: 3,
        turn_counter: 0,
    };
    let mut prompt = PromptThought { prompted: vec![CardId(1)], hinted: CardId(9) };
    assert!(matches!(prompt.poll(&s), Poll::Finished(None)));
}

#[test]
fn prompt_waits_while_the_line_plays_out() {
    let s = GameState {
        team_hands: vec![TeammateHand {
            hand: vec![(CardId(1), Color::Blue, 1, true)],
            empathy: vec![],
        }],
        player_hand: PlayerHand(vec![own_slot(9, false)]),
        discarded: vec![],
        played: empty_stacks(),
        hint_count: 3,
        turn_counter: 0,
    };
    let mut prompt = PromptThought { prompted: vec![CardId(1)], hinted: CardId(9) };
    assert!(matches!(prompt.poll(&s), Poll::Pending(None)));
}

#[test]
fn retired_prompt_does_not_influence_the_next_decision() {
    // A finished prompt must yield its play and then stay gone: the next
    // decision falls through to the fallback discard.
    let mut played = empty_stacks();
    played[0] = vec![(CardId(1), 1)];
    let s = GameState {
        team_hands: vec![],
        player_hand: PlayerHand(vec![own_slot(60, true), own_slot(61, false)]),
        discarded: vec![],
        played,
        hint_count: 0,
        turn_counter: 0,
    };
    let mut brain = Brain { thoughts: PriorityQueue::new() };
    brain.enqueue(
        ThoughtType::Prompt(PromptThought { prompted: vec![CardId(1)], hinted: CardId(9) }),
        20,
    );
    brain.enqueue(ThoughtType::Discard(DiscardThought {}), 30);

    let first = brain.play(&s);
    assert_eq!(first, Action::Play(CardId(9)));

    let second = brain.play(&s);
    assert_eq!(second, Action::Discard(CardId(61)));
}

#[test]
fn discard_offers_the_chop_and_never_finishes() {
    let s = quiet_state();
    let mut discard = DiscardThought {};
    let p = discard.poll(&s);
    assert!(matches!(p, Poll::Pending(Some(Action::Discard(id))) if id == CardId(61)));

    // With every own slot touched, slot zero is the fallback target.
    let mut all_touched = quiet_state();
    all_touched.player_hand = PlayerHand(vec![own_slot(60, true), own_slot(61, true)]);
    let p2 = discard.poll(&all_touched);
    assert!(matches!(p2, Poll::Pending(Some(Action::Discard(id))) if id == CardId(60)));
}

#[test]
fn pending_discard_and_finished_early_game_yield_the_discard() {
    // The queue holds only an always-pending discard task and an early-game
    // task that finds nothing to hint: the decision is the chop discard.
    let s = quiet_state();
    let mut brain = Brain { thoughts: PriorityQueue::new() };
    brain.enqueue(ThoughtType::EarlyGame(EarlyGameThought {}), 10);
    brain.enqueue(ThoughtType::Discard(DiscardThought {}), 30);

    // The early-game task is polled first (band ten), retires with nothing,
    // and the discard decides.
    assert_eq!(brain.play(&s), Action::Discard(CardId(61)));
    // The early-game task retired; the discard keeps deciding.
    assert_eq!(brain.play(&s), Action::Discard(CardId(61)));
}

#[test]
fn fresh_brain_discards_once_a_discard_task_arrives() {
    let s = quiet_state();
    let mut brain = Brain::new();
    brain.enqueue(ThoughtType::Discard(DiscardThought {}), 0);
    // The discard band (zero) is served before the early-game seed (ten).
    assert_eq!(brain.play(&s), Action::Discard(CardId(61)));
}

#[test]
fn early_game_waits_without_hint_tokens() {
    let mut s = quiet_state();
    s.hint_count = 0;
    let mut eg = EarlyGameThought {};
    assert!(matches!(eg.poll(&s), Poll::Pending(None)));
}

#[test]
fn early_game_hints_a_playable_card_by_number() {
    let s = GameState {
        team_hands: vec![TeammateHand {
            hand: vec![(CardId(1), Color::Blue, 1, false)],
            empathy: vec![],
        }],
        player_hand: PlayerHand(vec![own_slot(60, false)]),
        discarded: vec![],
        played: empty_stacks(),
        hint_count: 8,
        turn_counter: 0,
    };
    let mut eg = EarlyGameThought {};
    let p = eg.poll(&s);
    assert!(matches!(p, Poll::Pending(Some(Action::Hint(0, Hint::Number(1))))));
}

#[test]
fn early_game_falls_back_to_a_color_hint_when_the_number_misfocuses() {
    // Player zero holds two ones; a number-one hint focuses the chop (the
    // Green one at index zero), so the playable Blue one at index one can
    // only be focused by its color hint.
    let mut played = empty_stacks();
    played[2] = vec![(CardId(100), 1)]; // Green: its one is already played
    let s = GameState {
        team_hands: vec![TeammateHand {
            hand: vec![(CardId(1), Color::Green, 1, false), (CardId(2), Color::Blue, 1, false)],
            empathy: vec![],
        }],
        player_hand: PlayerHand(vec![own_slot(60, false)]),
        discarded: vec![],
        played,
        hint_count: 8,
        turn_counter: 0,
    };
    let mut eg = EarlyGameThought {};
    let p = eg.poll(&s);
    assert!(matches!(p, Poll::Pending(Some(Action::Hint(0, Hint::Color(Color::Blue))))));
}

#[test]
fn early_game_hints_a_critical_card_when_nothing_is_playable() {
    // The Red four has one copy discarded and is not playable: step two
    // finds it.
    let s = GameState {
        team_hands: vec![TeammateHand {
            hand: vec![(CardId(1), Color::Red, 4, false)],
            empathy: vec![],
        }],
        player_hand: PlayerHand(vec![own_slot(60, false)]),
        discarded: vec![(CardId(5), Color::Red, 4)],
        played: empty_stacks(),
        hint_count: 8,
        turn_counter: 0,
    };
    let mut eg = EarlyGameThought {};
    let p = eg.poll(&s);
    assert!(matches!(p, Poll::Pending(Some(Action::Hint(0, Hint::Number(4))))));
}

#[test]
fn early_game_saves_a_useful_two_on_the_chop() {
    // The Blue two on the chop is neither playable (Blue two already
    // played) nor critical, but its number's save rule applies: Blue has
    // played its two, so the chop two is materially useful.
    let mut played = empty_stacks();
    played[0] = vec![(CardId(100), 1), (CardId(101), 2)];
    let s = GameState {
        team_hands: vec![TeammateHand {
            hand: vec![(CardId(1), Color::Blue, 2, false)],
            empathy: vec![],
        }],
        player_hand: PlayerHand(vec![own_slot(60, false)]),
        discarded: vec![],
        played,
        hint_count: 8,
        turn_counter: 0,
    };
    let mut eg = EarlyGameThought {};
    let p = eg.poll(&s);
    assert!(matches!(p, Poll::Pending(Some(Action::Hint(0, Hint::Number(2))))));
}

#[test]
fn early_game_stalls_on_a_five_without_a_focus_check() {
    // The Blue five is not critical here (one copy of it was discarded, so
    // its criticality count is off the rule) and not playable, but Blue has
    // reached two: the five-stall fires.
    let mut played = empty_stacks();
    played[0] = vec![(CardId(100), 1), (CardId(101), 2)];
    let s = GameState {
        team_hands: vec![TeammateHand {
            hand: vec![(CardId(1), Color::Blue, 5, false)],
            empathy: vec![],
        }],
        player_hand: PlayerHand(vec![own_slot(60, false)]),
        discarded: vec![(CardId(6), Color::Blue, 5)],
        played,
        hint_count: 8,
        turn_counter: 0,
    };
    let mut eg = EarlyGameThought {};
    let p = eg.poll(&s);
    assert!(matches!(p, Poll::Pending(Some(Action::Hint(0, Hint::Number(5))))));
}

#[test]
fn early_game_finishes_with_nothing_to_hint() {
    let s = quiet_state();
    let mut eg = EarlyGameThought {};
    assert!(matches!(eg.poll(&s), Poll::Finished(None)));
}

#[test]
fn save_plays_its_card_once_playable() {
    // The saved card sits in the own hand, known to be the Blue one; the
    // Blue stack is empty, so it is playable now.
    let s = GameState {
        team_hands: vec![],
        player_hand: PlayerHand(vec![(
            CardId(60),
            ColorFlags::from_color(Color::Blue),
            NumberFlags::from_number(1),
            true,
        )]),
        discarded: vec![],
        played: empty_stacks(),
        hint_count: 3,
        turn_counter: 0,
    };
    let mut save = FiveSaveThought { card: CardId(60) };
    let p = save.poll(&s);
    assert!(matches!(p, Poll::Finished(Some(Action::Play(id))) if id == CardId(60)));
}

#[test]
fn save_waits_while_its_card_is_unplayable() {
    let s = GameState {
        team_hands: vec![],
        player_hand: PlayerHand(vec![(
            CardId(60),
            ColorFlags::from_color(Color::Blue),
            NumberFlags::from_number(5),
            true,
        )]),
        discarded: vec![],
        played: empty_stacks(),
        hint_count: 3,
        turn_counter: 0,
    };
    let mut save = FiveSaveThought { card: CardId(60) };
    assert!(matches!(save.poll(&s), Poll::Pending(None)));
}

#[test]
fn requeued_tasks_keep_their_cycle_order() {
    // Two save tasks share a band; after a cycle in which both stay
    // pending, the next cycle polls them in the same order.
    let s = GameState {
        team_hands: vec![],
        player_hand: PlayerHand(vec![own_slot(60, false)]),
        discarded: vec![],
        played: empty_stacks(),
        hint_count: 0,
        turn_counter: 0,
    };
    let mut brain = Brain { thoughts: PriorityQueue::new() };
    brain.enqueue(ThoughtType::Save(analytical::SaveThought { card: CardId(70) }), 9);
    brain.enqueue(ThoughtType::Save(analytical::SaveThought { card: CardId(71) }), 9);
    brain.enqueue(ThoughtType::Discard(DiscardThought {}), 30);

    // Both saves stay pending (their cards are in the deck, never
    // playable), then the discard decides.
    assert_eq!(brain.play(&s), Action::Discard(CardId(60)));
    // The discard was requeued at band zero, so it decides at once on the
    // next cycle; the surviving saves sit in band nine in their poll order.
    assert_eq!(brain.play(&s), Action::Discard(CardId(60)));
    assert_eq!(brain.thoughts.bands.len(), 2);
    assert_eq!(brain.thoughts.bands[1].0, 9);
    assert!(matches!(
        brain.thoughts.bands[1].1[0],
        ThoughtType::Save(analytical::SaveThought { card: CardId(71) })
    ));
}

#[test]
fn unconditional_play_variants_always_play_their_card() {
    let s = quiet_state();

    let mut prompted = PromptedThought { prompted: CardId(1), hinted: CardId(2) };
    assert!(matches!(prompted.poll(&s), Poll::Finished(Some(Action::Play(id))) if id == CardId(1)));

    let mut finessed = FinessedThought { card: CardId(3) };
    assert!(matches!(finessed.poll(&s), Poll::Finished(Some(Action::Play(id))) if id == CardId(3)));

    let mut play = PlayThought { card: CardId(4), turn: 7 };
    assert!(matches!(play.poll(&s), Poll::Finished(Some(Action::Play(id))) if id == CardId(4)));

    // A finesse line behaves like a prompt line: discarded evidence breaks it.
    let mut broken = GameState {
        team_hands: vec![],
        player_hand: PlayerHand(vec![own_slot(9, false)]),
        discarded: vec![(CardId(5), Color::Red, 1)],
        played: empty_stacks(),
        hint_count: 1,
        turn_counter: 0,
    };
    let mut finesse = FinesseThought { finessed: vec![CardId(5)], hinted: CardId(6) };
    assert!(matches!(finesse.poll(&broken), Poll::Finished(None)));
    broken.discarded.clear();
    broken.played[3] = vec![(CardId(5), 1)];
    assert!(matches!(
        finesse.poll(&broken),
        Poll::Finished(Some(Action::Play(id))) if id == CardId(6)
    ));
}

#[test]
fn stall_variants_share_the_save_behavior() {
    // The card is a teammate's Blue one on empty stacks: playable now.
    let s = GameState {
        team_hands: vec![TeammateHand {
            hand: vec![(CardId(1), Color::Blue, 1, true)],
            empathy: vec![],
        }],
        player_hand: PlayerHand(vec![own_slot(60, false)]),
        discarded: vec![],
        played: empty_stacks(),
        hint_count: 1,
        turn_counter: 0,
    };
    let mut two = TwoSaveThought { card: CardId(1) };
    assert!(matches!(two.poll(&s), Poll::Finished(Some(Action::Play(id))) if id == CardId(1)));
    let mut save = SaveThought { card: CardId(1) };
    assert!(matches!(save.poll(&s), Poll::Finished(Some(Action::Play(_)))));
    let mut stall = FiveStallThought { card: CardId(1) };
    assert!(matches!(stall.poll(&s), Poll::Finished(Some(Action::Play(_)))));
    // A card still in the deck is never playable: all of them wait.
    let mut waiting = SaveThought { card: CardId(99) };
    assert!(matches!(waiting.poll(&s), Poll::Pending(None)));
}

#[test]
fn state_level_focus_matches_the_hand_level_focus() {
    let s = GameState {
        team_hands: vec![TeammateHand {
            hand: vec![(CardId(1), Color::Blue, 2, false), (CardId(2), Color::Green, 2, false)],
            empathy: vec![],
        }],
        player_hand: PlayerHand(vec![own_slot(60, false)]),
        discarded: vec![],
        played: empty_stacks(),
        hint_count: 1,
        turn_counter: 0,
    };
    let via_state = s.get_focus_for_hint(0, Hint::Number(2));
    let via_hand = s.team_hands[0].determine_focus_for_hint(Hint::Number(2));
    assert_eq!(via_state, via_hand);
    assert_eq!(via_state, Focus::Chop(CardId(1), 0));
}
