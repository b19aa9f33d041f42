//! The per-turn game snapshot and the query layer over it: card lookup by
//! zone, playability and criticality under uncertainty, chop computation and
//! hint-focus resolution.

use vstd::prelude::*;

use crate::flags::{color_index, color_index_spec, Color, ColorFlags, NumberFlags};

verus! {

/// Opaque identifier of one physical card; present in exactly one zone at a
/// time when the state is well formed.
#[derive(Clone, Copy, Debug, PartialEq, Eq, Structural)]
pub struct CardId(pub usize);

/// A hint given to a player: either a color or a number (one through five).
#[derive(Clone, Copy, Debug, PartialEq, Eq, Structural)]
pub enum Hint {
    Color(Color),
    Number(usize),
}

/// The resolved target of a hint, carrying the focused card and its hand
/// index.
#[derive(Clone, Copy, Debug, PartialEq, Eq, Structural)]
pub enum Focus {
    Chop(CardId, usize),
    NewCard(CardId, usize),
    LeftMost(CardId, usize),
}

/// An exactly-known card in a teammate's hand.
#[derive(Clone, Copy, Debug, PartialEq, Eq, Structural)]
pub struct TeammateCard {
    pub player: usize,
    pub color: Color,
    pub number: usize,
    pub touched: bool,
    pub index: usize,
}

/// A card in the agent's own hand, known only as candidate sets.
#[derive(Clone, Copy, Debug, PartialEq, Eq, Structural)]
pub struct PlayerCard {
    pub color: ColorFlags,
    pub number: NumberFlags,
    pub touched: bool,
    pub index: usize,
}

/// The zone-tagged view of a resolved card.
#[derive(Clone, Copy, Debug, PartialEq, Eq, Structural)]
pub enum CardType {
    Played(Color, usize),
    Discarded(Color, usize),
    InDeck,
    TeamHand(TeammateCard),
    PlayerHand(PlayerCard),
}

/// A resolved card: its identifier together with its current zone view.
#[derive(Clone, Copy, Debug, PartialEq, Eq, Structural)]
pub struct Card {
    pub id: CardId,
    pub typ: CardType,
}

/// A teammate's hand: exactly-known slots, plus the candidate sets the
/// teammate themself could deduce (an extension point, not consumed here).
pub struct TeammateHand {
    pub hand: Vec<(CardId, Color, usize, bool)>,
    pub empathy: Vec<(CardId, ColorFlags, NumberFlags, bool)>,
}

/// The agent's own hand: candidate sets only, since its cards face away.
pub struct PlayerHand(pub Vec<(CardId, ColorFlags, NumberFlags, bool)>);

/// Immutable-per-turn snapshot of the whole game.
pub struct GameState {
    pub team_hands: Vec<TeammateHand>,
    pub player_hand: PlayerHand,
    pub discarded: Vec<(CardId, Color, usize)>,
    /// One play stack per color, indexed by `color_index`; each stack holds
    /// the successfully played cards, numbers contiguous from one.
    pub played: Vec<Vec<(CardId, usize)>>,
    pub hint_count: usize,
    pub turn_counter: usize,
}

impl Hint {
    /// The hint names this card's color or number.
    pub open spec fn applies_spec(self, color: Color, number: usize) -> bool {
        match self {
            Hint::Color(c) => c == color,
            Hint::Number(n) => n == number,
        }
    }

    pub fn applies_to_card(&self, card: (Color, usize)) -> (r: bool)
        ensures
            r == self.applies_spec(card.0, card.1),
    {
        match *self {
            Hint::Color(c) => c == card.0,
            Hint::Number(n) => n == card.1,
        }
    }
}

impl TeammateHand {
    /// Every slot's number lies in the playable domain.
    pub open spec fn wf(self) -> bool {
        forall|i: int|
            0 <= i < self.hand@.len() ==> 1 <= (#[trigger] self.hand@[i]).2 <= 5
    }
}

impl GameState {
    pub open spec fn stack_at(self, ci: int) -> Seq<(CardId, usize)> {
        self.played@[ci]@
    }

    /// The stack at a color index is contiguous from one: the card at
    /// position `j` carries number `j + 1`.
    pub open spec fn stack_wf(self, ci: int) -> bool {
        self.stack_at(ci).len() <= 5 && forall|j: int|
            0 <= j < self.stack_at(ci).len() ==> (#[trigger] self.stack_at(ci)[j]).1 == j + 1
    }

    /// Well-formedness of the snapshot: five stacks, each contiguous from
    /// one, and every number recorded in a teammate hand or the discard
    /// pile lies in one..=five.
    pub open spec fn wf(self) -> bool {
        &&& self.played@.len() == 5
        &&& forall|ci: int| 0 <= ci < 5 ==> self.stack_wf(ci)
        &&& forall|p: int|
            0 <= p < self.team_hands@.len() ==> (#[trigger] self.team_hands@[p]).wf()
        &&& forall|k: int|
            0 <= k < self.discarded@.len() ==> 1 <= (#[trigger] self.discarded@[k]).2 <= 5
    }

    pub open spec fn stack_height(self, c: Color) -> nat {
        self.stack_at(color_index_spec(c) as int).len()
    }

    /// The single identity (c, n) is immediately playable: it extends its
    /// color's stack by one.
    pub open spec fn playable_num(self, c: Color, n: usize) -> bool {
        n == self.stack_height(c) + 1
    }

    /// The number n has already been played on color c's stack.
    pub open spec fn on_stack(self, c: Color, n: usize) -> bool {
        exists|j: int|
            0 <= j < self.stack_at(color_index_spec(c) as int).len()
                && (#[trigger] self.stack_at(color_index_spec(c) as int)[j]).1 == n
    }

    /// How many copies of (c, n) lie in the discard pile.
    pub open spec fn discard_count(self, c: Color, n: usize) -> nat {
        count_discards_from(self.discarded@, c, n, 0)
    }

    /// The criticality rule for an identity not yet played: number one is
    /// critical once two of its three copies are discarded, number five from
    /// the start, numbers two to four once one of their two copies is
    /// discarded.
    pub open spec fn critical_at(self, c: Color, n: usize) -> bool {
        if n == 1 {
            self.discard_count(c, n) == 2
        } else if n == 5 {
            self.discard_count(c, n) == 0
        } else {
            self.discard_count(c, n) == 1
        }
    }

    /// Exact playability of one fully known identity.
    pub(crate) fn is_playable_num(&self, c: Color, n: usize) -> (r: bool)
        requires
            self.wf(),
        ensures
            r == self.playable_num(c, n),
    {
        let ci = color_index(c) as usize;
        proof {
            assert(self.stack_wf(ci as int));
        }
        let h = self.played[ci].len();
        n == h + 1
    }

    #[verifier::loop_isolation(false)]
    pub(crate) fn on_stack_exec(&self, c: Color, n: usize) -> (r: bool)
        requires
            self.wf(),
        ensures
            r == self.on_stack(c, n),
    {
        let ci = color_index(c) as usize;
        let stack = &self.played[ci];
        let mut j: usize = 0;
        while j < stack.len()
            invariant
                j <= stack@.len(),
                forall|j2: int| 0 <= j2 < j ==> (#[trigger] stack@[j2]).1 != n,
            decreases stack@.len() - j,
        {
            if stack[j].1 == n {
                proof {
                    assert(self.stack_at(color_index_spec(c) as int)[j as int].1 == n);
                }
                return true;
            }
            j += 1;
        }
        false
    }

    #[verifier::loop_isolation(false)]
    pub(crate) fn discard_count_exec(&self, c: Color, n: usize) -> (cnt: usize)
        ensures
            cnt == self.discard_count(c, n),
    {
        let mut cnt: usize = 0;
        let mut k: usize = 0;
        while k < self.discarded.len()
            invariant
                k <= self.discarded@.len(),
                cnt <= k,
                cnt + count_discards_from(self.discarded@, c, n, k as int) == self.discard_count(c, n),
            decreases self.discarded@.len() - k,
        {
            let entry = self.discarded[k];
            if entry.1 == c && entry.2 == n {
                cnt += 1;
            }
            k += 1;
        }
        cnt
    }

    /// Exact criticality of one fully known identity: not yet played and
    /// meeting the criticality rule.
    pub(crate) fn is_critical_num(&self, c: Color, n: usize) -> (r: bool)
        requires
            self.wf(),
        ensures
            r == (!self.on_stack(c, n) && self.critical_at(c, n)),
    {
        if self.on_stack_exec(c, n) {
            return false;
        }
        let d = self.discard_count_exec(c, n);
        if n == 1 {
            d == 2
        } else if n == 5 {
            d == 0
        } else {
            d == 1
        }
    }

    /// True iff every identity consistent with the candidate sets is
    /// immediately playable; the conjunction over the whole cross-product.
    #[verifier::loop_isolation(false)]
    pub fn is_playable(&self, color: ColorFlags, number: NumberFlags) -> (r: bool)
        requires
            self.wf(),
        ensures
            r <==> (forall|c: Color, n: usize|
                #[trigger] color.has(c) && #[trigger] number.has(n) ==> self.playable_num(c, n)),
    {
        let mut ci: u8 = 0;
        while ci < 5
            invariant
                ci <= 5,
                forall|c: Color, n: usize|
                    #[trigger] color.has(c) && #[trigger] number.has(n)
                        && color_index_spec(c) < ci ==> self.playable_num(c, n),
            decreases 5 - ci,
        {
            let c = crate::flags::color_from_index(ci);
            if color.contains(c) {
                let mut n: usize = 1;
                while n <= 5
                    invariant
                        1 <= n <= 6,
                        forall|n2: usize| #[trigger] number.has(n2) && n2 < n ==> self.playable_num(c, n2),
                    decreases 6 - n,
                {
                    if number.contains_number(n) {
                        if !self.is_playable_num(c, n) {
                            assert(color.has(c) && number.has(n) && !self.playable_num(c, n));
                            return false;
                        }
                    }
                    n += 1;
                }
            }
            proof {
                assert forall|c2: Color, n2: usize|
                    #[trigger] color.has(c2) && #[trigger] number.has(n2)
                        && color_index_spec(c2) < ci + 1 implies self.playable_num(c2, n2) by {
                    if color_index_spec(c2) == ci {
                        crate::flags::lemma_color_roundtrip(c2);
                        assert(c2 == c);
                    }
                }
            }
            ci += 1;
        }
        true
    }

    /// True iff some identity consistent with the candidate sets is not yet
    /// on its stack and meets the criticality rule.
    #[verifier::loop_isolation(false)]
    pub fn is_critical(&self, color: ColorFlags, number: NumberFlags) -> (r: bool)
        requires
            self.wf(),
        ensures
            r <==> (exists|c: Color, n: usize|
                #[trigger] color.has(c) && #[trigger] number.has(n)
                    && !self.on_stack(c, n) && self.critical_at(c, n)),
    {
        let mut ci: u8 = 0;
        while ci < 5
            invariant
                ci <= 5,
                forall|c: Color, n: usize|
                    #[trigger] color.has(c) && #[trigger] number.has(n)
                        && color_index_spec(c) < ci
                        ==> !(!self.on_stack(c, n) && self.critical_at(c, n)),
            decreases 5 - ci,
        {
            let c = crate::flags::color_from_index(ci);
            if color.contains(c) {
                let mut n: usize = 1;
                while n <= 5
                    invariant
                        1 <= n <= 6,
                        forall|n2: usize|
                            #[trigger] number.has(n2) && n2 < n
                                ==> !(!self.on_stack(c, n2) && self.critical_at(c, n2)),
                    decreases 6 - n,
                {
                    if number.contains_number(n) {
                        if self.is_critical_num(c, n) {
                            assert(color.has(c) && number.has(n)
                                && !self.on_stack(c, n) && self.critical_at(c, n));
                            return true;
                        }
                    }
                    n += 1;
                }
            }
            proof {
                assert forall|c2: Color, n2: usize|
                    #[trigger] color.has(c2) && #[trigger] number.has(n2)
                        && color_index_spec(c2) < ci + 1
                        implies !(!self.on_stack(c2, n2) && self.critical_at(c2, n2)) by {
                    if color_index_spec(c2) == ci {
                        crate::flags::lemma_color_roundtrip(c2);
                        assert(c2 == c);
                    }
                }
            }
            ci += 1;
        }
        false
    }
}

/// Copies of (c, n) in the discard entries from position `k` on.
pub open spec fn count_discards_from(
    s: Seq<(CardId, Color, usize)>,
    c: Color,
    n: usize,
    k: int,
) -> nat
    decreases s.len() - k when k >= 0
{
    if k < 0 || k >= s.len() {
        0
    } else {
        (if s[k].1 == c && s[k].2 == n {
            1nat
        } else {
            0nat
        }) + count_discards_from(s, c, n, k + 1)
    }
}

/// First discard entry at or after position `k` holding the identifier.
pub open spec fn find_in_discard(s: Seq<(CardId, Color, usize)>, id: CardId, k: int) -> Option<
    int,
>
    decreases s.len() - k when k >= 0
{
    if k < 0 || k >= s.len() {
        None
    } else if s[k].0 == id {
        Some(k)
    } else {
        find_in_discard(s, id, k + 1)
    }
}

/// First own-hand slot at or after position `k` holding the identifier.
pub open spec fn find_in_own(
    s: Seq<(CardId, ColorFlags, NumberFlags, bool)>,
    id: CardId,
    k: int,
) -> Option<int>
    decreases s.len() - k when k >= 0
{
    if k < 0 || k >= s.len() {
        None
    } else if s[k].0 == id {
        Some(k)
    } else {
        find_in_own(s, id, k + 1)
    }
}

impl GameState {
    /// First stack position at or after (ci, j), in color-index then stack
    /// order, holding the identifier.
    pub open spec fn find_in_stacks(self, id: CardId, ci: int, j: int) -> Option<(int, int)>
        decreases 5 - ci, self.stack_at(ci).len() - j + 1 when ci >= 0 && j >= 0
    {
        if ci < 0 || j < 0 || ci >= 5 {
            None
        } else if j >= self.stack_at(ci).len() {
            self.find_in_stacks(id, ci + 1, 0)
        } else if self.stack_at(ci)[j].0 == id {
            Some((ci, j))
        } else {
            self.find_in_stacks(id, ci, j + 1)
        }
    }

    /// First teammate-hand position at or after (p, i), in player then index
    /// order, holding the identifier.
    pub open spec fn find_in_team(self, id: CardId, p: int, i: int) -> Option<(int, int)>
        decreases self.team_hands@.len() - p, self.team_hands@[p].hand@.len() - i + 1 when p >= 0
            && i >= 0
    {
        if p < 0 || i < 0 || p >= self.team_hands@.len() {
            None
        } else if i >= self.team_hands@[p].hand@.len() {
            self.find_in_team(id, p + 1, 0)
        } else if self.team_hands@[p].hand@[i].0 == id {
            Some((p, i))
        } else {
            self.find_in_team(id, p, i + 1)
        }
    }

    /// The zone-tagged view of a card identifier: the zones are searched in
    /// the order discard pile, play stacks, own hand, teammate hands, and a
    /// card found nowhere is still in the deck.
    pub open spec fn resolve_spec(self, id: CardId) -> CardType {
        match find_in_discard(self.discarded@, id, 0) {
            Some(k) => CardType::Discarded(self.discarded@[k].1, self.discarded@[k].2),
            None => match self.find_in_stacks(id, 0, 0) {
                Some((ci, j)) => CardType::Played(
                    crate::flags::color_from_index_spec(ci),
                    self.stack_at(ci)[j].1,
                ),
                None => match find_in_own(self.player_hand.0@, id, 0) {
                    Some(k) => CardType::PlayerHand(
                        PlayerCard {
                            color: self.player_hand.0@[k].1,
                            number: self.player_hand.0@[k].2,
                            touched: self.player_hand.0@[k].3,
                            index: k as usize,
                        },
                    ),
                    None => match self.find_in_team(id, 0, 0) {
                        Some((p, i)) => CardType::TeamHand(
                            TeammateCard {
                                player: p as usize,
                                color: self.team_hands@[p].hand@[i].1,
                                number: self.team_hands@[p].hand@[i].2,
                                touched: self.team_hands@[p].hand@[i].3,
                                index: i as usize,
                            },
                        ),
                        None => CardType::InDeck,
                    },
                },
            },
        }
    }

    /// Resolve a card identifier to its zone-tagged view; the search order
    /// is the one `resolve_spec` fixes.
    #[verifier::loop_isolation(false)]
    pub fn get_card(&self, id: CardId) -> (r: Card)
        requires
            self.wf(),
        ensures
            r.id == id,
            r.typ == self.resolve_spec(id),
    {
        let mut k: usize = 0;
        while k < self.discarded.len()
            invariant
                k <= self.discarded@.len(),
                find_in_discard(self.discarded@, id, 0) == find_in_discard(
                    self.discarded@,
                    id,
                    k as int,
                ),
            decreases self.discarded@.len() - k,
        {
            let entry = self.discarded[k];
            if entry.0 == id {
                return Card { id, typ: CardType::Discarded(entry.1, entry.2) };
            }
            k += 1;
        }
        let mut ci: usize = 0;
        while ci < 5
            invariant
                ci <= 5,
                self.find_in_stacks(id, 0, 0) == self.find_in_stacks(id, ci as int, 0),
            decreases 5 - ci,
        {
            let stack = &self.played[ci];
            let mut j: usize = 0;
            while j < stack.len()
                invariant
                    ci < 5,
                    j <= stack@.len(),
                    self.find_in_stacks(id, 0, 0) == self.find_in_stacks(id, ci as int, j as int),
                decreases stack@.len() - j,
            {
                let entry = stack[j];
                if entry.0 == id {
                    return Card {
                        id,
                        typ: CardType::Played(crate::flags::color_from_index(ci as u8), entry.1),
                    };
                }
                j += 1;
            }
            ci += 1;
        }
        let mut k: usize = 0;
        while k < self.player_hand.0.len()
            invariant
                k <= self.player_hand.0@.len(),
                find_in_own(self.player_hand.0@, id, 0) == find_in_own(
                    self.player_hand.0@,
                    id,
                    k as int,
                ),
            decreases self.player_hand.0@.len() - k,
        {
            let entry = self.player_hand.0[k];
            if entry.0 == id {
                return Card {
                    id,
                    typ: CardType::PlayerHand(
                        PlayerCard { color: entry.1, number: entry.2, touched: entry.3, index: k },
                    ),
                };
            }
            k += 1;
        }
        let mut p: usize = 0;
        while p < self.team_hands.len()
            invariant
                p <= self.team_hands@.len(),
                self.find_in_team(id, 0, 0) == self.find_in_team(id, p as int, 0),
            decreases self.team_hands@.len() - p,
        {
            let hand = &self.team_hands[p].hand;
            let mut i: usize = 0;
            while i < hand.len()
                invariant
                    p < self.team_hands@.len(),
                    i <= hand@.len(),
                    self.find_in_team(id, 0, 0) == self.find_in_team(id, p as int, i as int),
                decreases hand@.len() - i,
            {
                let entry = hand[i];
                if entry.0 == id {
                    return Card {
                        id,
                        typ: CardType::TeamHand(
                            TeammateCard {
                                player: p,
                                color: entry.1,
                                number: entry.2,
                                touched: entry.3,
                                index: i,
                            },
                        ),
                    };
                }
                i += 1;
            }
            p += 1;
        }
        Card { id, typ: CardType::InDeck }
    }

    /// The identifier lies in the discard pile.
    pub open spec fn in_discard(self, id: CardId) -> bool {
        exists|k: int| 0 <= k < self.discarded@.len() && (#[trigger] self.discarded@[k]).0 == id
    }

    /// The identifier lies on one of the five play stacks.
    pub open spec fn on_some_stack(self, id: CardId) -> bool {
        exists|ci: int, j: int|
            0 <= ci < 5 && 0 <= j < self.stack_at(ci).len() && (#[trigger] self.stack_at(ci)[j]).0
                == id
    }

    /// The identifier lies in the agent's own hand.
    pub open spec fn in_own_hand(self, id: CardId) -> bool {
        exists|k: int|
            0 <= k < self.player_hand.0@.len() && (#[trigger] self.player_hand.0@[k]).0 == id
    }

    /// The identifier lies in some teammate's hand.
    pub open spec fn in_team_hands(self, id: CardId) -> bool {
        exists|p: int, i: int|
            0 <= p < self.team_hands@.len() && 0 <= i < self.team_hands@[p].hand@.len() && (
            #[trigger] self.team_hands@[p].hand@[i]).0 == id
    }

    /// Each card identifier occupies at most one zone.
    pub open spec fn zones_disjoint(self) -> bool {
        &&& forall|id: CardId|
            #[trigger] self.in_discard(id) ==> !self.on_some_stack(id) && !self.in_own_hand(id)
                && !self.in_team_hands(id)
        &&& forall|id: CardId|
            #[trigger] self.on_some_stack(id) ==> !self.in_own_hand(id) && !self.in_team_hands(id)
        &&& forall|id: CardId| #[trigger] self.in_own_hand(id) ==> !self.in_team_hands(id)
    }
}

proof fn lemma_find_in_discard_iff(s: Seq<(CardId, Color, usize)>, id: CardId, k: int)
    requires
        0 <= k <= s.len(),
    ensures
        (find_in_discard(s, id, k) is Some) <==> (exists|j: int|
            k <= j < s.len() && (#[trigger] s[j]).0 == id),
        match find_in_discard(s, id, k) {
            Some(f) => k <= f < s.len() && s[f].0 == id,
            None => true,
        },
    decreases s.len() - k,
{
    if k < s.len() && s[k].0 != id {
        lemma_find_in_discard_iff(s, id, k + 1);
    }
}

proof fn lemma_find_in_own_iff(
    s: Seq<(CardId, ColorFlags, NumberFlags, bool)>,
    id: CardId,
    k: int,
)
    requires
        0 <= k <= s.len(),
    ensures
        (find_in_own(s, id, k) is Some) <==> (exists|j: int|
            k <= j < s.len() && (#[trigger] s[j]).0 == id),
        match find_in_own(s, id, k) {
            Some(f) => k <= f < s.len() && s[f].0 == id,
            None => true,
        },
    decreases s.len() - k,
{
    if k < s.len() && s[k].0 != id {
        lemma_find_in_own_iff(s, id, k + 1);
    }
}

proof fn lemma_find_in_stacks_iff(s: GameState, id: CardId, ci: int, j: int)
    requires
        0 <= ci <= 5,
        0 <= j,
        ci < 5 ==> j <= s.stack_at(ci).len(),
        ci == 5 ==> j == 0,
    ensures
        (s.find_in_stacks(id, ci, j) is Some) <==> ((exists|b: int|
            ci < 5 && j <= b < s.stack_at(ci).len() && (#[trigger] s.stack_at(ci)[b]).0 == id)
            || (exists|a: int, b: int|
            ci < a < 5 && 0 <= b < s.stack_at(a).len() && (#[trigger] s.stack_at(a)[b]).0 == id)),
        match s.find_in_stacks(id, ci, j) {
            Some(f) => 0 <= f.0 < 5 && 0 <= f.1 < s.stack_at(f.0).len() && s.stack_at(f.0)[f.1].0
                == id,
            None => true,
        },
    decreases 5 - ci, s.stack_at(ci).len() - j + 1,
{
    if ci >= 5 {
    } else if j >= s.stack_at(ci).len() {
        lemma_find_in_stacks_iff(s, id, ci + 1, 0);
        assert forall|b: int|
            ci < 5 && j <= b < s.stack_at(ci).len() implies !((#[trigger] s.stack_at(ci)[b]).0
            == id) by {}
    } else if s.stack_at(ci)[j].0 == id {
    } else {
        lemma_find_in_stacks_iff(s, id, ci, j + 1);
    }
}

proof fn lemma_find_in_team_iff(s: GameState, id: CardId, p: int, i: int)
    requires
        0 <= p <= s.team_hands@.len(),
        0 <= i,
        p < s.team_hands@.len() ==> i <= s.team_hands@[p].hand@.len(),
        p == s.team_hands@.len() ==> i == 0,
    ensures
        (s.find_in_team(id, p, i) is Some) <==> ((exists|b: int|
            p < s.team_hands@.len() && i <= b < s.team_hands@[p].hand@.len() && (
            #[trigger] s.team_hands@[p].hand@[b]).0 == id) || (exists|a: int, b: int|
            p < a < s.team_hands@.len() && 0 <= b < s.team_hands@[a].hand@.len() && (
            #[trigger] s.team_hands@[a].hand@[b]).0 == id)),
        match s.find_in_team(id, p, i) {
            Some(f) => 0 <= f.0 < s.team_hands@.len() && 0 <= f.1
                < s.team_hands@[f.0].hand@.len() && s.team_hands@[f.0].hand@[f.1].0 == id,
            None => true,
        },
    decreases s.team_hands@.len() - p, s.team_hands@[p].hand@.len() - i + 1,
{
    if p >= s.team_hands@.len() {
    } else if i >= s.team_hands@[p].hand@.len() {
        lemma_find_in_team_iff(s, id, p + 1, 0);
        assert forall|b: int|
            p < s.team_hands@.len() && i <= b < s.team_hands@[p].hand@.len() implies !((
        #[trigger] s.team_hands@[p].hand@[b]).0 == id) by {}
    } else if s.team_hands@[p].hand@[i].0 == id {
    } else {
        lemma_find_in_team_iff(s, id, p, i + 1);
    }
}

/// Round trip: in a well-formed snapshot whose zones are disjoint, a card
/// identifier held by some zone resolves to exactly that zone's tagged view,
/// and an identifier held by no zone resolves to the deck.
pub proof fn lemma_resolve_round_trip(s: GameState, id: CardId)
    requires
        s.wf(),
        s.zones_disjoint(),
    ensures
        s.in_discard(id) ==> s.resolve_spec(id) is Discarded,
        s.on_some_stack(id) ==> s.resolve_spec(id) is Played,
        s.in_own_hand(id) ==> s.resolve_spec(id) is PlayerHand,
        s.in_team_hands(id) ==> s.resolve_spec(id) is TeamHand,
        !s.in_discard(id) && !s.on_some_stack(id) && !s.in_own_hand(id) && !s.in_team_hands(id)
            ==> s.resolve_spec(id) is InDeck,
{
    lemma_find_in_discard_iff(s.discarded@, id, 0);
    lemma_find_in_stacks_iff(s, id, 0, 0);
    lemma_find_in_own_iff(s.player_hand.0@, id, 0);
    lemma_find_in_team_iff(s, id, 0, 0);
    assert((find_in_discard(s.discarded@, id, 0) is Some) <==> s.in_discard(id));
    assert((s.find_in_stacks(id, 0, 0) is Some) <==> s.on_some_stack(id));
    assert((find_in_own(s.player_hand.0@, id, 0) is Some) <==> s.in_own_hand(id));
    assert((s.find_in_team(id, 0, 0) is Some) <==> s.in_team_hands(id));
}

/// The chop of a teammate hand: the leftmost untouched slot at or after `i`.
pub open spec fn team_chop_from(s: Seq<(CardId, Color, usize, bool)>, i: int) -> Option<int>
    decreases s.len() - i when i >= 0
{
    if i < 0 || i >= s.len() {
        None
    } else if !s[i].3 {
        Some(i)
    } else {
        team_chop_from(s, i + 1)
    }
}

/// The chop of the agent's own hand: the leftmost untouched slot at or after
/// `i`.
pub open spec fn own_chop_from(
    s: Seq<(CardId, ColorFlags, NumberFlags, bool)>,
    i: int,
) -> Option<int>
    decreases s.len() - i when i >= 0
{
    if i < 0 || i >= s.len() {
        None
    } else if !s[i].3 {
        Some(i)
    } else {
        own_chop_from(s, i + 1)
    }
}

/// The leftmost slot at or after `i` the hint applies to.
pub open spec fn matching_from(s: Seq<(CardId, Color, usize, bool)>, h: Hint, i: int) -> Option<
    int,
>
    decreases s.len() - i when i >= 0
{
    if i < 0 || i >= s.len() {
        None
    } else if h.applies_spec(s[i].1, s[i].2) {
        Some(i)
    } else {
        matching_from(s, h, i + 1)
    }
}

/// The leftmost slot at or after `i` the hint applies to that was untouched
/// before the hint.
pub open spec fn newly_from(s: Seq<(CardId, Color, usize, bool)>, h: Hint, i: int) -> Option<int>
    decreases s.len() - i when i >= 0
{
    if i < 0 || i >= s.len() {
        None
    } else if h.applies_spec(s[i].1, s[i].2) && !s[i].3 {
        Some(i)
    } else {
        newly_from(s, h, i + 1)
    }
}

/// How many slots at or after `i` the hint applies to that were untouched
/// before the hint.
pub open spec fn count_newly_from(s: Seq<(CardId, Color, usize, bool)>, h: Hint, i: int) -> nat
    decreases s.len() - i when i >= 0
{
    if i < 0 || i >= s.len() {
        0
    } else {
        (if h.applies_spec(s[i].1, s[i].2) && !s[i].3 {
            1nat
        } else {
            0nat
        }) + count_newly_from(s, h, i + 1)
    }
}

/// The fallback focus once the chop rule does not fire: the unique newly
/// touched slot when exactly one exists, else the leftmost hinted slot.
pub open spec fn focus_fallback(s: Seq<(CardId, Color, usize, bool)>, h: Hint, cnt: nat) -> Focus {
    if cnt == 1 {
        match newly_from(s, h, 0) {
            Some(i) => Focus::NewCard(s[i].0, i as usize),
            None => Focus::NewCard(CardId(0), 0),
        }
    } else {
        match matching_from(s, h, 0) {
            Some(i) => Focus::LeftMost(s[i].0, i as usize),
            None => Focus::LeftMost(CardId(0), 0),
        }
    }
}

/// The slot a hint focuses: the chop when at least two slots are newly
/// touched and the hint applies to the chop (which is untouched by
/// definition); else the unique newly touched slot when exactly one exists;
/// else the leftmost hinted slot.
pub open spec fn focus_spec(s: Seq<(CardId, Color, usize, bool)>, h: Hint) -> Focus {
    let cnt = count_newly_from(s, h, 0);
    match team_chop_from(s, 0) {
        Some(ci) => {
            if cnt >= 2 && h.applies_spec(s[ci].1, s[ci].2) {
                Focus::Chop(s[ci].0, ci as usize)
            } else {
                focus_fallback(s, h, cnt)
            }
        },
        None => focus_fallback(s, h, cnt),
    }
}

impl TeammateHand {
    /// The chop: the leftmost untouched slot, with its contents and index.
    #[verifier::loop_isolation(false)]
    pub fn get_chop(&self) -> (r: Option<(CardId, Color, usize, bool, usize)>)
        ensures
            match team_chop_from(self.hand@, 0) {
                Some(i) => r == Some(
                    (self.hand@[i].0, self.hand@[i].1, self.hand@[i].2, self.hand@[i].3, i as usize),
                ),
                None => r is None,
            },
    {
        let mut i: usize = 0;
        while i < self.hand.len()
            invariant
                i <= self.hand@.len(),
                team_chop_from(self.hand@, 0) == team_chop_from(self.hand@, i as int),
            decreases self.hand@.len() - i,
        {
            let slot = self.hand[i];
            if !slot.3 {
                return Some((slot.0, slot.1, slot.2, slot.3, i));
            }
            i += 1;
        }
        None
    }

    /// Resolve which slot the hint focuses, per `focus_spec`. At least one
    /// slot must match the hint; a hint that touches nothing has no focus.
    #[verifier::loop_isolation(false)]
    pub fn determine_focus_for_hint(&self, hint: Hint) -> (r: Focus)
        requires
            matching_from(self.hand@, hint, 0) is Some,
        ensures
            r == focus_spec(self.hand@, hint),
    {
        let ghost s = self.hand@;
        let mut cnt: usize = 0;
        let mut first_newly: Option<usize> = None;
        let mut first_match: Option<usize> = None;
        let mut chop: Option<usize> = None;
        let mut i: usize = 0;
        while i < self.hand.len()
            invariant
                i <= s.len(),
                cnt <= i,
                count_newly_from(s, hint, 0) == cnt + count_newly_from(s, hint, i as int),
                match first_newly {
                    Some(k) => k < i && newly_from(s, hint, 0) == Some(k as int),
                    None => cnt == 0 && newly_from(s, hint, 0) == newly_from(s, hint, i as int),
                },
                match first_match {
                    Some(k) => k < i && matching_from(s, hint, 0) == Some(k as int),
                    None => matching_from(s, hint, 0) == matching_from(s, hint, i as int),
                },
                match chop {
                    Some(k) => k < i && team_chop_from(s, 0) == Some(k as int),
                    None => team_chop_from(s, 0) == team_chop_from(s, i as int),
                },
            decreases s.len() - i,
        {
            let slot = self.hand[i];
            let applies = hint.applies_to_card((slot.1, slot.2));
            if applies && first_match.is_none() {
                first_match = Some(i);
            }
            if applies && !slot.3 {
                cnt += 1;
                if first_newly.is_none() {
                    first_newly = Some(i);
                }
            }
            if !slot.3 && chop.is_none() {
                chop = Some(i);
            }
            i += 1;
        }
        if cnt >= 2 {
            if let Some(ci) = chop {
                let cslot = self.hand[ci];
                if hint.applies_to_card((cslot.1, cslot.2)) {
                    return Focus::Chop(cslot.0, ci);
                }
            }
        }
        if cnt == 1 {
            let k = first_newly.unwrap();
            return Focus::NewCard(self.hand[k].0, k);
        }
        let k = first_match.unwrap();
        Focus::LeftMost(self.hand[k].0, k)
    }
}

/// The own-hand chop entry at index `i`, as `PlayerHand::get_chop` returns
/// it.
pub open spec fn own_chop_entry(s: Seq<(CardId, ColorFlags, NumberFlags, bool)>, i: int) -> (
    CardId,
    PlayerCard,
) {
    (s[i].0, PlayerCard { color: s[i].1, number: s[i].2, touched: s[i].3, index: i as usize })
}

impl PlayerHand {
    /// The chop of the agent's own hand: the leftmost untouched slot.
    #[verifier::loop_isolation(false)]
    pub fn get_chop(&self) -> (r: Option<(CardId, PlayerCard)>)
        ensures
            match own_chop_from(self.0@, 0) {
                Some(i) => r == Some(own_chop_entry(self.0@, i)),
                None => r is None,
            },
    {
        let mut i: usize = 0;
        while i < self.0.len()
            invariant
                i <= self.0@.len(),
                own_chop_from(self.0@, 0) == own_chop_from(self.0@, i as int),
            decreases self.0@.len() - i,
        {
            let slot = self.0[i];
            if !slot.3 {
                return Some(
                    (slot.0, PlayerCard { color: slot.1, number: slot.2, touched: slot.3, index: i }),
                );
            }
            i += 1;
        }
        None
    }
}

impl GameState {
    /// Resolve a hint's focus in the given teammate's hand.
    pub fn get_focus_for_hint(&self, player: usize, hint: Hint) -> (r: Focus)
        requires
            player < self.team_hands@.len(),
            matching_from(self.team_hands@[player as int].hand@, hint, 0) is Some,
        ensures
            r == focus_spec(self.team_hands@[player as int].hand@, hint),
    {
        self.team_hands[player].determine_focus_for_hint(hint)
    }

    /// The resolved card view of teammate `p`'s slot `i`.
    pub open spec fn team_card_at(self, p: int, i: int) -> Card {
        Card {
            id: self.team_hands@[p].hand@[i].0,
            typ: CardType::TeamHand(
                TeammateCard {
                    player: p as usize,
                    color: self.team_hands@[p].hand@[i].1,
                    number: self.team_hands@[p].hand@[i].2,
                    touched: self.team_hands@[p].hand@[i].3,
                    index: i as usize,
                },
            ),
        }
    }

    /// The teammate's chop as a resolved card view, if any slot is
    /// untouched.
    pub fn get_chop_for_teammate(&self, player: usize) -> (r: Option<Card>)
        requires
            player < self.team_hands@.len(),
        ensures
            match team_chop_from(self.team_hands@[player as int].hand@, 0) {
                Some(i) => r == Some(self.team_card_at(player as int, i)),
                None => r is None,
            },
    {
        match self.team_hands[player].get_chop() {
            Some((id, color, number, touched, index)) => Some(
                Card {
                    id,
                    typ: CardType::TeamHand(
                        TeammateCard { player, color, number, touched, index },
                    ),
                },
            ),
            None => None,
        }
    }
}

impl CardId {
    /// Resolve this identifier against a snapshot; see `GameState::get_card`.
    pub fn resolve(&self, game_state: &GameState) -> (r: Card)
        requires
            game_state.wf(),
        ensures
            r.id == *self,
            r.typ == game_state.resolve_spec(*self),
    {
        game_state.get_card(*self)
    }
}

/// True iff every identity consistent with the card's zone view is
/// immediately playable; a card still in the deck is never playable.
pub open spec fn card_playable_spec(s: GameState, t: CardType) -> bool {
    match t {
        CardType::InDeck => false,
        CardType::Played(c, n) => s.playable_num(c, n),
        CardType::Discarded(c, n) => s.playable_num(c, n),
        CardType::TeamHand(tc) => s.playable_num(tc.color, tc.number),
        CardType::PlayerHand(pc) => forall|c: Color, n: usize|
            #[trigger] pc.color.has(c) && #[trigger] pc.number.has(n) ==> s.playable_num(c, n),
    }
}

/// True iff some identity consistent with the card's zone view is not yet
/// played and meets the criticality rule; a card still in the deck never is.
pub open spec fn card_critical_spec(s: GameState, t: CardType) -> bool {
    match t {
        CardType::InDeck => false,
        CardType::Played(c, n) => !s.on_stack(c, n) && s.critical_at(c, n),
        CardType::Discarded(c, n) => !s.on_stack(c, n) && s.critical_at(c, n),
        CardType::TeamHand(tc) => !s.on_stack(tc.color, tc.number) && s.critical_at(
            tc.color,
            tc.number,
        ),
        CardType::PlayerHand(pc) => exists|c: Color, n: usize|
            #[trigger] pc.color.has(c) && #[trigger] pc.number.has(n) && !s.on_stack(c, n)
                && s.critical_at(c, n),
    }
}

impl Card {
    /// Playability of this card's identity, under uncertainty for an
    /// own-hand card.
    pub fn is_playable(&self, game_state: &GameState) -> (r: bool)
        requires
            game_state.wf(),
        ensures
            r == card_playable_spec(*game_state, self.typ),
    {
        match self.typ {
            CardType::InDeck => false,
            CardType::Played(c, n) => game_state.is_playable_num(c, n),
            CardType::Discarded(c, n) => game_state.is_playable_num(c, n),
            CardType::TeamHand(tc) => game_state.is_playable_num(tc.color, tc.number),
            CardType::PlayerHand(pc) => game_state.is_playable(pc.color, pc.number),
        }
    }

    /// Criticality of this card's identity, under uncertainty for an
    /// own-hand card.
    pub fn is_critical(&self, game_state: &GameState) -> (r: bool)
        requires
            game_state.wf(),
        ensures
            r == card_critical_spec(*game_state, self.typ),
    {
        match self.typ {
            CardType::InDeck => false,
            CardType::Played(c, n) => game_state.is_critical_num(c, n),
            CardType::Discarded(c, n) => game_state.is_critical_num(c, n),
            CardType::TeamHand(tc) => game_state.is_critical_num(tc.color, tc.number),
            CardType::PlayerHand(pc) => game_state.is_critical(pc.color, pc.number),
        }
    }
}

impl GameState {
    /// The exactly-known contents of teammate `p`'s slot `i`.
    pub open spec fn team_card_entry(self, p: int, i: int) -> TeammateCard {
        TeammateCard {
            player: p as usize,
            color: self.team_hands@[p].hand@[i].1,
            number: self.team_hands@[p].hand@[i].2,
            touched: self.team_hands@[p].hand@[i].3,
            index: i as usize,
        }
    }

    /// The teammate cards from position (p, i) on, in player order then
    /// index order, whose known identity is immediately playable.
    pub open spec fn playable_team_from(self, p: int, i: int) -> Seq<(CardId, TeammateCard)>
        decreases self.team_hands@.len() - p, self.team_hands@[p].hand@.len() - i + 1 when p >= 0
            && i >= 0
    {
        if p < 0 || i < 0 || p >= self.team_hands@.len() {
            Seq::empty()
        } else if i >= self.team_hands@[p].hand@.len() {
            self.playable_team_from(p + 1, 0)
        } else {
            let slot = self.team_hands@[p].hand@[i];
            let rest = self.playable_team_from(p, i + 1);
            if self.playable_num(slot.1, slot.2) {
                seq![(slot.0, self.team_card_entry(p, i))] + rest
            } else {
                rest
            }
        }
    }

    /// The teammate cards from position (p, i) on, in player order then
    /// index order, whose known identity is unplayed and critical.
    pub open spec fn critical_team_from(self, p: int, i: int) -> Seq<(CardId, TeammateCard)>
        decreases self.team_hands@.len() - p, self.team_hands@[p].hand@.len() - i + 1 when p >= 0
            && i >= 0
    {
        if p < 0 || i < 0 || p >= self.team_hands@.len() {
            Seq::empty()
        } else if i >= self.team_hands@[p].hand@.len() {
            self.critical_team_from(p + 1, 0)
        } else {
            let slot = self.team_hands@[p].hand@[i];
            let rest = self.critical_team_from(p, i + 1);
            if !self.on_stack(slot.1, slot.2) && self.critical_at(slot.1, slot.2) {
                seq![(slot.0, self.team_card_entry(p, i))] + rest
            } else {
                rest
            }
        }
    }

    /// All teammate cards whose known identity is immediately playable, in
    /// player order then hand order.
    #[verifier::loop_isolation(false)]
    pub fn playable_cards_in_teammate_hands(&self) -> (r: Vec<(CardId, TeammateCard)>)
        requires
            self.wf(),
        ensures
            r@ == self.playable_team_from(0, 0),
    {
        let mut r: Vec<(CardId, TeammateCard)> = Vec::new();
        let mut p: usize = 0;
        while p < self.team_hands.len()
            invariant
                p <= self.team_hands@.len(),
                self.playable_team_from(0, 0) == r@ + self.playable_team_from(p as int, 0),
            decreases self.team_hands@.len() - p,
        {
            let hand = &self.team_hands[p].hand;
            let mut i: usize = 0;
            while i < hand.len()
                invariant
                    p < self.team_hands@.len(),
                    i <= hand@.len(),
                    self.playable_team_from(0, 0) == r@ + self.playable_team_from(
                        p as int,
                        i as int,
                    ),
                decreases hand@.len() - i,
            {
                let slot = hand[i];
                if self.is_playable_num(slot.1, slot.2) {
                    let tc = TeammateCard {
                        player: p,
                        color: slot.1,
                        number: slot.2,
                        touched: slot.3,
                        index: i,
                    };
                    r.push((slot.0, tc));
                }
                proof {
                    assert(self.playable_team_from(0, 0) =~= r@ + self.playable_team_from(
                        p as int,
                        i as int + 1,
                    ));
                }
                i += 1;
            }
            p += 1;
        }
        proof {
            assert(r@ =~= self.playable_team_from(0, 0));
        }
        r
    }

    /// All teammate cards whose known identity is unplayed and critical, in
    /// player order then hand order.
    #[verifier::loop_isolation(false)]
    pub fn critical_cards_in_teammate_hands(&self) -> (r: Vec<(CardId, TeammateCard)>)
        requires
            self.wf(),
        ensures
            r@ == self.critical_team_from(0, 0),
    {
        let mut r: Vec<(CardId, TeammateCard)> = Vec::new();
        let mut p: usize = 0;
        while p < self.team_hands.len()
            invariant
                p <= self.team_hands@.len(),
                self.critical_team_from(0, 0) == r@ + self.critical_team_from(p as int, 0),
            decreases self.team_hands@.len() - p,
        {
            let hand = &self.team_hands[p].hand;
            let mut i: usize = 0;
            while i < hand.len()
                invariant
                    p < self.team_hands@.len(),
                    i <= hand@.len(),
                    self.critical_team_from(0, 0) == r@ + self.critical_team_from(
                        p as int,
                        i as int,
                    ),
                decreases hand@.len() - i,
            {
                let slot = hand[i];
                if self.is_critical_num(slot.1, slot.2) {
                    let tc = TeammateCard {
                        player: p,
                        color: slot.1,
                        number: slot.2,
                        touched: slot.3,
                        index: i,
                    };
                    r.push((slot.0, tc));
                }
                proof {
                    assert(self.critical_team_from(0, 0) =~= r@ + self.critical_team_from(
                        p as int,
                        i as int + 1,
                    ));
                }
                i += 1;
            }
            p += 1;
        }
        proof {
            assert(r@ =~= self.critical_team_from(0, 0));
        }
        r
    }
}

/// An identity already lying on its play stack is never critical: the
/// criticality test asks for a candidate that is not yet played, so with
/// both candidate sets pinned to (c, n) it reports nothing.
pub proof fn lemma_critical_never_on_stack(
    s: GameState,
    color: ColorFlags,
    number: NumberFlags,
    c: Color,
    n: usize,
)
    requires
        forall|c2: Color| #[trigger] color.has(c2) <==> c2 == c,
        forall|n2: usize| #[trigger] number.has(n2) <==> n2 == n,
        s.on_stack(c, n),
    ensures
        !(exists|c2: Color, n2: usize|
            #[trigger] color.has(c2) && #[trigger] number.has(n2) && !s.on_stack(c2, n2)
                && s.critical_at(c2, n2)),
{
    assert forall|c2: Color, n2: usize|
        !(#[trigger] color.has(c2) && #[trigger] number.has(n2) && !s.on_stack(c2, n2)
            && s.critical_at(c2, n2)) by {
        if color.has(c2) && number.has(n2) {
            assert(c2 == c && n2 == n);
        }
    }
}

/// Focus resolution is a pure function of the hand and the hint: identical
/// inputs always yield the identical focus.
pub proof fn lemma_focus_deterministic(
    h1: Seq<(CardId, Color, usize, bool)>,
    h2: Seq<(CardId, Color, usize, bool)>,
    hint1: Hint,
    hint2: Hint,
)
    requires
        h1 == h2,
        hint1 == hint2,
    ensures
        focus_spec(h1, hint1) == focus_spec(h2, hint2),
{
}

/// A position the hint applies to guarantees the hint matches somewhere in
/// the hand.
pub proof fn lemma_matching_from_some(
    s: Seq<(CardId, Color, usize, bool)>,
    h: Hint,
    i: int,
    k: int,
)
    requires
        0 <= i <= k < s.len(),
        h.applies_spec(s[k].1, s[k].2),
    ensures
        matching_from(s, h, i) is Some,
    decreases k - i,
{
    if i < k && !h.applies_spec(s[i].1, s[i].2) {
        lemma_matching_from_some(s, h, i + 1, k);
    }
}

/// The chop index a scan returns lies in the hand and is untouched.
pub proof fn lemma_team_chop_in_range(s: Seq<(CardId, Color, usize, bool)>, i: int)
    requires
        0 <= i <= s.len(),
    ensures
        match team_chop_from(s, i) {
            Some(j) => i <= j < s.len() && !s[j].3,
            None => true,
        },
    decreases s.len() - i,
{
    if i < s.len() && s[i].3 {
        lemma_team_chop_in_range(s, i + 1);
    }
}

} // verus!
