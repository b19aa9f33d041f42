use analytical::{
    Card, CardId, CardType, Color, ColorFlags, Focus, GameState, Hint, NumberFlags, PlayerHand,
    TeammateHand,
};

fn empty_stacks() -> Vec<Vec<(CardId, usize)>> {
    vec![vec![], vec![], vec![], vec![], vec![]]
}

fn bare_state(played: Vec<Vec<(CardId, usize)>>) -> GameState {
    GameState {
        team_hands: vec![],
        player_hand: PlayerHand(vec![]),
        discarded: vec![],
        played,
        hint_count: 0,
        turn_counter: 0,
    }
}

fn cf(colors: &[Color]) -> ColorFlags {
    let mut f = ColorFlags::empty();
    for c in colors {
        f = f.union(ColorFlags::from_color(*c));
    }
    f
}

fn nf(numbers: &[usize]) -> NumberFlags {
    let mut f = NumberFlags::empty();
    for n in numbers {
        f = f.union(NumberFlags::from_number(*n));
    }
    f
}

#[test]
fn flags_membership() {
    let blue = ColorFlags::from_color(Color::Blue);
    assert!(blue.contains(Color::Blue));
    assert!(!blue.contains(Color::Red));
    let both = blue.union(ColorFlags::from_color(Color::Red));
    assert!(both.contains(Color::Blue));
    assert!(both.contains(Color::Red));
    assert!(!both.contains(Color::Green));
    assert!(!ColorFlags::empty().contains(Color::Purple));

    let two = NumberFlags::from_number(2);
    assert!(two.contains_number(2));
    assert!(!two.contains_number(5));
    assert!(!two.contains_number(0));
    assert!(!two.contains_number(6));
    assert!(!NumberFlags::empty().contains_number(1));
}

#[test]
fn playable_on_empty_stacks() {
    let s = bare_state(empty_stacks());
    assert!(s.is_playable(cf(&[Color::Blue]), nf(&[1])));
    assert!(!s.is_playable(cf(&[Color::Blue]), nf(&[2])));
}

#[test]
fn playable_is_a_conjunction_over_all_candidates() {
    let s = bare_state(empty_stacks());
    // A one is playable and a two is not, so the pair together is not.
    assert!(!s.is_playable(cf(&[Color::Blue]), nf(&[1, 2])));
    // Both colors have empty stacks, so a one of either color is playable.
    assert!(s.is_playable(cf(&[Color::Blue, Color::Red]), nf(&[1])));
}

#[test]
fn playable_follows_stack_top() {
    let mut played = empty_stacks();
    played[0] = vec![(CardId(100), 1)]; // Blue stack holds its one
    let s = bare_state(played);
    assert!(s.is_playable(cf(&[Color::Blue]), nf(&[2])));
    assert!(!s.is_playable(cf(&[Color::Blue]), nf(&[1])));
    assert!(!s.is_playable(cf(&[Color::Blue]), nf(&[3])));
    // Red's stack is still empty, so a two of {Blue, Red} is not safe.
    assert!(!s.is_playable(cf(&[Color::Blue, Color::Red]), nf(&[2])));
}

#[test]
fn five_is_critical_from_the_start() {
    let s = bare_state(empty_stacks());
    assert!(s.is_critical(cf(&[Color::Blue]), nf(&[5])));
    assert!(!s.is_critical(cf(&[Color::Blue]), nf(&[1])));
}

#[test]
fn one_is_critical_after_two_discards() {
    let mut s = bare_state(empty_stacks());
    s.discarded = vec![(CardId(1), Color::Blue, 1)];
    assert!(!s.is_critical(cf(&[Color::Blue]), nf(&[1])));
    s.discarded.push((CardId(2), Color::Blue, 1));
    assert!(s.is_critical(cf(&[Color::Blue]), nf(&[1])));
}

#[test]
fn middle_numbers_critical_after_one_discard() {
    let mut s = bare_state(empty_stacks());
    assert!(!s.is_critical(cf(&[Color::Green]), nf(&[3])));
    s.discarded = vec![(CardId(7), Color::Green, 3)];
    assert!(s.is_critical(cf(&[Color::Green]), nf(&[3])));
    // The second copy gone makes the identity dead, not critical.
    s.discarded.push((CardId(8), Color::Green, 3));
    assert!(!s.is_critical(cf(&[Color::Green]), nf(&[3])));
}

#[test]
fn critical_never_reports_a_played_identity() {
    // Blue one is on its stack and two copies are discarded: still not
    // critical, because it is already played.
    let mut played = empty_stacks();
    played[0] = vec![(CardId(100), 1)];
    let mut s = bare_state(played);
    s.discarded = vec![(CardId(1), Color::Blue, 1), (CardId(2), Color::Blue, 1)];
    assert!(!s.is_critical(cf(&[Color::Blue]), nf(&[1])));
}

fn zoned_state() -> GameState {
    let mut played = empty_stacks();
    played[3] = vec![(CardId(20), 1)]; // Red stack
    GameState {
        team_hands: vec![TeammateHand {
            hand: vec![(CardId(40), Color::Green, 4, true), (CardId(41), Color::Purple, 2, false)],
            empathy: vec![],
        }],
        player_hand: PlayerHand(vec![(
            CardId(30),
            ColorFlags::from_color(Color::Blue),
            NumberFlags::from_number(1),
            false,
        )]),
        discarded: vec![(CardId(10), Color::Yellow, 3)],
        played,
        hint_count: 4,
        turn_counter: 9,
    }
}

#[test]
fn get_card_resolves_each_zone_exactly_once() {
    let s = zoned_state();

    let discarded = s.get_card(CardId(10));
    assert_eq!(discarded.id, CardId(10));
    assert!(matches!(discarded.typ, CardType::Discarded(Color::Yellow, 3)));

    let played = s.get_card(CardId(20));
    assert_eq!(played.id, CardId(20));
    assert!(matches!(played.typ, CardType::Played(Color::Red, 1)));

    let own = s.get_card(CardId(30));
    assert!(matches!(own.typ, CardType::PlayerHand(pc) if pc.index == 0 && !pc.touched));

    let team = s.get_card(CardId(40));
    assert!(matches!(
        team.typ,
        CardType::TeamHand(tc) if tc.player == 0 && tc.index == 0 && tc.color == Color::Green
            && tc.number == 4 && tc.touched
    ));

    let unseen = s.get_card(CardId(99));
    assert!(matches!(unseen.typ, CardType::InDeck));
}

#[test]
fn resolve_matches_get_card() {
    let s = zoned_state();
    let c = CardId(41).resolve(&s);
    assert!(matches!(
        c.typ,
        CardType::TeamHand(tc) if tc.player == 0 && tc.index == 1 && tc.number == 2
    ));
}

#[test]
fn card_queries_follow_zone_identity() {
    let s = zoned_state();
    // The own-hand card is known to be the Blue one: playable on an empty
    // Blue stack, not critical.
    let own = s.get_card(CardId(30));
    assert!(own.is_playable(&s));
    assert!(!own.is_critical(&s));
    // A card still in the deck is neither.
    let unseen = s.get_card(CardId(99));
    assert!(!unseen.is_playable(&s));
    assert!(!unseen.is_critical(&s));
}

#[test]
fn focus_single_newly_touched_card() {
    // Hand [(untouched, 2, Blue), (untouched, 4, Red)], hint Number(2):
    // only index 0 is newly touched, so it is the focus.
    let hand = TeammateHand {
        hand: vec![(CardId(1), Color::Blue, 2, false), (CardId(2), Color::Red, 4, false)],
        empathy: vec![],
    };
    assert_eq!(hand.determine_focus_for_hint(Hint::Number(2)), Focus::NewCard(CardId(1), 0));
}

#[test]
fn focus_skips_already_touched_match() {
    // Hand [(touched, 2, Blue), (untouched, 4, Red) = chop, (untouched, 2,
    // Green)], hint Number(2): index 0 was already touched, index 2 is the
    // single newly touched slot, so it is the focus despite a chop existing.
    let hand = TeammateHand {
        hand: vec![
            (CardId(1), Color::Blue, 2, true),
            (CardId(2), Color::Red, 4, false),
            (CardId(3), Color::Green, 2, false),
        ],
        empathy: vec![],
    };
    assert_eq!(hand.determine_focus_for_hint(Hint::Number(2)), Focus::NewCard(CardId(3), 2));
}

#[test]
fn focus_lands_on_chop_with_two_newly_touched() {
    // Hand [(untouched, 2, Blue) = chop, (untouched, 2, Green)], hint
    // Number(2): both are newly touched and the chop is among the matches,
    // so the chop is the focus.
    let hand = TeammateHand {
        hand: vec![(CardId(1), Color::Blue, 2, false), (CardId(2), Color::Green, 2, false)],
        empathy: vec![],
    };
    assert_eq!(hand.determine_focus_for_hint(Hint::Number(2)), Focus::Chop(CardId(1), 0));
}

#[test]
fn focus_falls_back_to_leftmost_touched_match() {
    // Every match was already touched: the leftmost match is the focus.
    let hand = TeammateHand {
        hand: vec![(CardId(1), Color::Blue, 3, true), (CardId(2), Color::Red, 3, true)],
        empathy: vec![],
    };
    assert_eq!(hand.determine_focus_for_hint(Hint::Number(3)), Focus::LeftMost(CardId(1), 0));
}

#[test]
fn focus_is_deterministic() {
    let hand = TeammateHand {
        hand: vec![(CardId(1), Color::Blue, 2, false), (CardId(2), Color::Green, 2, false)],
        empathy: vec![],
    };
    let first = hand.determine_focus_for_hint(Hint::Number(2));
    let second = hand.determine_focus_for_hint(Hint::Number(2));
    assert_eq!(first, second);
}

#[test]
fn hint_applies_by_color_or_number() {
    assert!(Hint::Color(Color::Blue).applies_to_card((Color::Blue, 4)));
    assert!(!Hint::Color(Color::Blue).applies_to_card((Color::Red, 4)));
    assert!(Hint::Number(4).applies_to_card((Color::Red, 4)));
    assert!(!Hint::Number(4).applies_to_card((Color::Red, 2)));
}

#[test]
fn teammate_chop_is_leftmost_untouched() {
    let hand = TeammateHand {
        hand: vec![
            (CardId(1), Color::Blue, 1, true),
            (CardId(2), Color::Red, 2, false),
            (CardId(3), Color::Green, 3, false),
        ],
        empathy: vec![],
    };
    assert_eq!(hand.get_chop(), Some((CardId(2), Color::Red, 2, false, 1)));

    let all_touched = TeammateHand {
        hand: vec![(CardId(1), Color::Blue, 1, true)],
        empathy: vec![],
    };
    assert_eq!(all_touched.get_chop(), None);
}

#[test]
fn own_chop_is_leftmost_untouched() {
    let hand = PlayerHand(vec![
        (CardId(1), ColorFlags::empty(), NumberFlags::empty(), true),
        (CardId(2), ColorFlags::empty(), NumberFlags::empty(), false),
    ]);
    let (id, pc) = hand.get_chop().unwrap();
    assert_eq!(id, CardId(2));
    assert_eq!(pc.index, 1);

    let all_touched =
        PlayerHand(vec![(CardId(1), ColorFlags::empty(), NumberFlags::empty(), true)]);
    assert!(all_touched.get_chop().is_none());
}

#[test]
fn chop_for_teammate_is_a_team_card() {
    let s = zoned_state();
    let chop: Card = s.get_chop_for_teammate(0).unwrap();
    assert_eq!(chop.id, CardId(41));
    assert!(matches!(chop.typ, CardType::TeamHand(tc) if tc.index == 1 && tc.player == 0));
}

#[test]
fn teammate_scans_keep_player_and_hand_order() {
    let mut played = empty_stacks();
    played[0] = vec![(CardId(100), 1)]; // Blue next is 2
    let s = GameState {
        team_hands: vec![
            TeammateHand {
                hand: vec![(CardId(1), Color::Blue, 2, false), (CardId(2), Color::Red, 5, false)],
                empathy: vec![],
            },
            TeammateHand {
                hand: vec![(CardId(3), Color::Blue, 2, true), (CardId(4), Color::Green, 1, false)],
                empathy: vec![],
            },
        ],
        player_hand: PlayerHand(vec![]),
        discarded: vec![(CardId(9), Color::Yellow, 4)],
        played,
        hint_count: 2,
        turn_counter: 0,
    };

    let playable = s.playable_cards_in_teammate_hands();
    let playable_ids: Vec<CardId> = playable.iter().map(|(id, _)| *id).collect();
    // Blue 2 (both copies) and Green 1 are playable, in (player, index) order.
    assert_eq!(playable_ids, vec![CardId(1), CardId(3), CardId(4)]);
    assert_eq!(playable[0].1.player, 0);
    assert_eq!(playable[1].1.player, 1);
    assert_eq!(playable[2].1.index, 1);

    let critical = s.critical_cards_in_teammate_hands();
    let critical_ids: Vec<CardId> = critical.iter().map(|(id, _)| *id).collect();
    // Only the Red five is critical; the discarded Yellow four is elsewhere.
    assert_eq!(critical_ids, vec![CardId(2)]);
}
