//! Colors, card numbers, and the bitset candidate representations used for
//! the agent's own (unseen) cards.

use vstd::prelude::*;

verus! {

/// The five suit colors of the game.
#[derive(Clone, Copy, Debug, PartialEq, Eq, Structural)]
pub enum Color {
    Blue,
    Yellow,
    Green,
    Red,
    Purple,
}

/// Bit position of a color inside a `ColorFlags` bitset.
pub open spec fn color_index_spec(c: Color) -> u8 {
    match c {
        Color::Blue => 0,
        Color::Yellow => 1,
        Color::Green => 2,
        Color::Red => 3,
        Color::Purple => 4,
    }
}

/// Inverse of `color_index_spec` for indices below five.
pub open spec fn color_from_index_spec(i: int) -> Color {
    if i == 0 {
        Color::Blue
    } else if i == 1 {
        Color::Yellow
    } else if i == 2 {
        Color::Green
    } else if i == 3 {
        Color::Red
    } else {
        Color::Purple
    }
}

pub fn color_index(c: Color) -> (i: u8)
    ensures
        i == color_index_spec(c),
        i < 5,
{
    match c {
        Color::Blue => 0,
        Color::Yellow => 1,
        Color::Green => 2,
        Color::Red => 3,
        Color::Purple => 4,
    }
}

pub fn color_from_index(i: u8) -> (c: Color)
    requires
        i < 5,
    ensures
        c == color_from_index_spec(i as int),
        color_index_spec(c) == i,
{
    if i == 0 {
        Color::Blue
    } else if i == 1 {
        Color::Yellow
    } else if i == 2 {
        Color::Green
    } else if i == 3 {
        Color::Red
    } else {
        Color::Purple
    }
}

pub proof fn lemma_color_roundtrip(c: Color)
    ensures
        color_from_index_spec(color_index_spec(c) as int) == c,
{
}

proof fn lemma_single_bit_overlap(i: u8, j: u8)
    requires
        i < 8,
        j < 8,
    ensures
        ((1u8 << i) & (1u8 << j) != 0) <==> i == j,
{
    assert((((1u8 << i) & (1u8 << j)) != 0) <==> i == j) by (bit_vector)
        requires
            i < 8,
            j < 8,
    ;
}

proof fn lemma_or_mask(a: u8, b: u8, m: u8)
    ensures
        ((a | b) & m != 0) <==> (a & m != 0) || (b & m != 0),
{
    assert((((a | b) & m) != 0) <==> ((a & m) != 0) || ((b & m) != 0)) by (bit_vector);
}

proof fn lemma_zero_mask(m: u8)
    ensures
        0u8 & m == 0,
{
    assert(0u8 & m == 0) by (bit_vector);
}

/// Set of colors an unseen card might have, stored as one bit per color.
#[derive(Clone, Copy, Debug, PartialEq, Eq, Structural)]
pub struct ColorFlags {
    pub bits: u8,
}

impl ColorFlags {
    /// The color is among the candidates.
    pub open spec fn has(self, c: Color) -> bool {
        self.bits & (1u8 << color_index_spec(c)) != 0
    }

    pub fn empty() -> (r: ColorFlags)
        ensures
            forall|c: Color| !r.has(c),
    {
        let r = ColorFlags { bits: 0 };
        proof {
            assert forall|c: Color| !r.has(c) by {
                lemma_zero_mask(1u8 << color_index_spec(c));
            }
        }
        r
    }

    /// The candidate set holding exactly the one given color.
    pub fn from_color(c: Color) -> (r: ColorFlags)
        ensures
            forall|c2: Color| r.has(c2) <==> c2 == c,
    {
        let i = color_index(c);
        let r = ColorFlags { bits: 1u8 << i };
        proof {
            assert forall|c2: Color| r.has(c2) <==> c2 == c by {
                lemma_single_bit_overlap(color_index_spec(c), color_index_spec(c2));
            }
        }
        r
    }

    pub fn union(self, other: ColorFlags) -> (r: ColorFlags)
        ensures
            forall|c: Color| r.has(c) <==> self.has(c) || other.has(c),
    {
        let r = ColorFlags { bits: self.bits | other.bits };
        proof {
            assert forall|c: Color| r.has(c) <==> self.has(c) || other.has(c) by {
                lemma_or_mask(self.bits, other.bits, 1u8 << color_index_spec(c));
            }
        }
        r
    }

    pub fn contains(self, c: Color) -> (r: bool)
        ensures
            r == self.has(c),
    {
        self.bits & (1u8 << color_index(c)) != 0
    }
}

/// Set of numbers (one through five) an unseen card might have, one bit per
/// number.
#[derive(Clone, Copy, Debug, PartialEq, Eq, Structural)]
pub struct NumberFlags {
    pub bits: u8,
}

impl NumberFlags {
    /// The number is among the candidates; always false outside one..=five.
    pub open spec fn has(self, n: usize) -> bool {
        1 <= n <= 5 && self.bits & (1u8 << ((n - 1) as u8)) != 0
    }

    pub fn empty() -> (r: NumberFlags)
        ensures
            forall|n: usize| !r.has(n),
    {
        let r = NumberFlags { bits: 0 };
        proof {
            assert forall|n: usize| !r.has(n) by {
                if 1 <= n <= 5 {
                    lemma_zero_mask(1u8 << ((n - 1) as u8));
                }
            }
        }
        r
    }

    /// The candidate set holding exactly the one given number.
    pub fn from_number(n: usize) -> (r: NumberFlags)
        requires
            1 <= n <= 5,
        ensures
            forall|m: usize| r.has(m) <==> m == n,
    {
        let i = (n - 1) as u8;
        let r = NumberFlags { bits: 1u8 << i };
        proof {
            assert forall|m: usize| r.has(m) <==> m == n by {
                if 1 <= m <= 5 {
                    lemma_single_bit_overlap(((n - 1) as u8), ((m - 1) as u8));
                }
            }
        }
        r
    }

    pub fn union(self, other: NumberFlags) -> (r: NumberFlags)
        ensures
            forall|n: usize| r.has(n) <==> self.has(n) || other.has(n),
    {
        let r = NumberFlags { bits: self.bits | other.bits };
        proof {
            assert forall|n: usize| r.has(n) <==> self.has(n) || other.has(n) by {
                if 1 <= n <= 5 {
                    lemma_or_mask(self.bits, other.bits, 1u8 << ((n - 1) as u8));
                }
            }
        }
        r
    }

    pub fn contains_number(self, n: usize) -> (r: bool)
        ensures
            r == self.has(n),
    {
        if n < 1 || n > 5 {
            false
        } else {
            self.bits & (1u8 << ((n - 1) as u8)) != 0
        }
    }
}

} // verus!
