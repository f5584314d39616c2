use crate::chance::choose_from;
use vstd::prelude::*;

verus! {

/// The suit of a card. Suits have no order among them.
#[derive(Clone, Copy, Debug, PartialEq, Eq, Structural, Hash)]
pub enum CardSuit {
    Spades,
    Hearts,
    Diamonds,
    Clubs,
}

/// The four suits, in the order in which suit groups are examined.
pub const CARD_SUITS: [CardSuit; 4] = [
    CardSuit::Spades,
    CardSuit::Hearts,
    CardSuit::Diamonds,
    CardSuit::Clubs,
];

impl CardSuit {
    /// The place of the suit in `CARD_SUITS`.
    pub open spec fn spec_index(self) -> int {
        match self {
            CardSuit::Spades => 0,
            CardSuit::Hearts => 1,
            CardSuit::Diamonds => 2,
            CardSuit::Clubs => 3,
        }
    }

    /// A suit drawn at random among `CARD_SUITS`.
    pub fn get_rand() -> (suit: Self)
        ensures
            CARD_SUITS@.contains(suit),
    {
        match choose_from(CARD_SUITS.as_slice()) {
            Some(suit) => suit,
            None => CARD_SUITS[0],
        }
    }
}

/// What a card has been enhanced with. Of these, the bonus and the mult
/// enhancement count when the card is scored.
#[derive(Clone, Copy, Debug, PartialEq, Eq, Structural, Hash)]
pub enum CardEnhancement {
    Bonus,
    Mult,
    Wild,
    Glass,
    Steel,
    Stone,
    Gold,
    Lucky,
}

/// The edition of a card.
#[derive(Clone, Copy, Debug, PartialEq, Eq, Structural, Hash)]
pub enum CardEdition {
    Base,
    Foil,
    Holographic,
    Polychrome,
    Negative,
}

/// The seal that a card bears.
#[derive(Clone, Copy, Debug, PartialEq, Eq, Structural, Hash)]
pub enum CardSeal {
    Gold,
    Red,
    Blue,
    Purple,
}

/// The thirteen ranks, written from the lowest to the highest: the ace is
/// the lowest rank when cards are ordered, although it is worth the most
/// chips and closes the circle of ranks in a straight.
#[derive(Clone, Copy, Debug, PartialEq, Eq, Structural, Hash, PartialOrd, Ord)]
pub enum CardRank {
    Ace,
    Two,
    Three,
    Four,
    Five,
    Six,
    Seven,
    Eight,
    Nine,
    Ten,
    Jack,
    Queen,
    King,
}

/// The thirteen ranks in the order in which a deck is built.
pub const CARD_RANKS: [CardRank; 13] = [
    CardRank::Two,
    CardRank::Three,
    CardRank::Four,
    CardRank::Five,
    CardRank::Six,
    CardRank::Seven,
    CardRank::Eight,
    CardRank::Nine,
    CardRank::Ten,
    CardRank::Jack,
    CardRank::Queen,
    CardRank::King,
    CardRank::Ace,
];

/// The ranks of the face cards.
pub const FACE_CARDS: [CardRank; 3] = [CardRank::Jack, CardRank::Queen, CardRank::King];

/// The rank that stands at place `i` of the order, the ace at 0 and the
/// king at 12.
pub open spec fn rank_at(i: int) -> CardRank {
    if i == 0 {
        CardRank::Ace
    } else if i == 1 {
        CardRank::Two
    } else if i == 2 {
        CardRank::Three
    } else if i == 3 {
        CardRank::Four
    } else if i == 4 {
        CardRank::Five
    } else if i == 5 {
        CardRank::Six
    } else if i == 6 {
        CardRank::Seven
    } else if i == 7 {
        CardRank::Eight
    } else if i == 8 {
        CardRank::Nine
    } else if i == 9 {
        CardRank::Ten
    } else if i == 10 {
        CardRank::Jack
    } else if i == 11 {
        CardRank::Queen
    } else {
        CardRank::King
    }
}

impl CardRank {
    /// The place of the rank in the order of ranks: 0 for the ace, 1 for
    /// the two, up to 12 for the king.
    pub open spec fn spec_order(self) -> int {
        match self {
            CardRank::Ace => 0,
            CardRank::Two => 1,
            CardRank::Three => 2,
            CardRank::Four => 3,
            CardRank::Five => 4,
            CardRank::Six => 5,
            CardRank::Seven => 6,
            CardRank::Eight => 7,
            CardRank::Nine => 8,
            CardRank::Ten => 9,
            CardRank::Jack => 10,
            CardRank::Queen => 11,
            CardRank::King => 12,
        }
    }

    /// The rank that follows this one in a straight: one place up the
    /// circle of ranks, on which the king is followed by the ace.
    pub open spec fn spec_straight_next(self) -> CardRank {
        rank_at((self.spec_order() + 1) % 13)
    }

    /// The rank that precedes this one in a straight: one place down the
    /// circle of ranks, on which the ace is preceded by the king.
    pub open spec fn spec_straight_prev(self) -> CardRank {
        rank_at((self.spec_order() + 12) % 13)
    }

    /// The chips that a scored card of this rank brings: 11 for the ace, 10
    /// for the ten and each face card, the number of the rank for the
    /// others.
    pub open spec fn spec_base_chips(self) -> nat {
        if self == CardRank::Ace {
            11
        } else if self.spec_order() >= 9 {
            10
        } else {
            (self.spec_order() + 1) as nat
        }
    }

    /// The place of the rank in the order of ranks.
    pub fn order(&self) -> (i: usize)
        ensures
            i == self.spec_order(),
            i < 13,
            rank_at(i as int) == *self,
    {
        match self {
            CardRank::Ace => 0,
            CardRank::Two => 1,
            CardRank::Three => 2,
            CardRank::Four => 3,
            CardRank::Five => 4,
            CardRank::Six => 5,
            CardRank::Seven => 6,
            CardRank::Eight => 7,
            CardRank::Nine => 8,
            CardRank::Ten => 9,
            CardRank::Jack => 10,
            CardRank::Queen => 11,
            CardRank::King => 12,
        }
    }

    /// The rank at place `i` of the order of ranks.
    pub fn from_order(i: usize) -> (rank: Self)
        requires
            i < 13,
        ensures
            rank == rank_at(i as int),
            rank.spec_order() == i,
    {
        if i == 0 {
            CardRank::Ace
        } else if i == 1 {
            CardRank::Two
        } else if i == 2 {
            CardRank::Three
        } else if i == 3 {
            CardRank::Four
        } else if i == 4 {
            CardRank::Five
        } else if i == 5 {
            CardRank::Six
        } else if i == 6 {
            CardRank::Seven
        } else if i == 7 {
            CardRank::Eight
        } else if i == 8 {
            CardRank::Nine
        } else if i == 9 {
            CardRank::Ten
        } else if i == 10 {
            CardRank::Jack
        } else if i == 11 {
            CardRank::Queen
        } else {
            CardRank::King
        }
    }

    /// A rank drawn at random among `CARD_RANKS`.
    pub fn get_rand() -> (rank: Self)
        ensures
            CARD_RANKS@.contains(rank),
    {
        match choose_from(CARD_RANKS.as_slice()) {
            Some(rank) => rank,
            None => CARD_RANKS[0],
        }
    }

    /// The rank that follows this one in a straight.
    pub fn get_straight_next(&self) -> (next: Self)
        ensures
            next == self.spec_straight_next(),
    {
        match self {
            CardRank::Two => CardRank::Three,
            CardRank::Three => CardRank::Four,
            CardRank::Four => CardRank::Five,
            CardRank::Five => CardRank::Six,
            CardRank::Six => CardRank::Seven,
            CardRank::Seven => CardRank::Eight,
            CardRank::Eight => CardRank::Nine,
            CardRank::Nine => CardRank::Ten,
            CardRank::Ten => CardRank::Jack,
            CardRank::Jack => CardRank::Queen,
            CardRank::Queen => CardRank::King,
            CardRank::King => CardRank::Ace,
            CardRank::Ace => CardRank::Two,
        }
    }

    /// The rank that precedes this one in a straight.
    pub fn get_straight_prev(&self) -> (prev: Self)
        ensures
            prev == self.spec_straight_prev(),
    {
        match self {
            CardRank::Two => CardRank::Ace,
            CardRank::Three => CardRank::Two,
            CardRank::Four => CardRank::Three,
            CardRank::Five => CardRank::Four,
            CardRank::Six => CardRank::Five,
            CardRank::Seven => CardRank::Six,
            CardRank::Eight => CardRank::Seven,
            CardRank::Nine => CardRank::Eight,
            CardRank::Ten => CardRank::Nine,
            CardRank::Jack => CardRank::Ten,
            CardRank::Queen => CardRank::Jack,
            CardRank::King => CardRank::Queen,
            CardRank::Ace => CardRank::King,
        }
    }

    /// The chips that a scored card of this rank brings.
    pub fn get_base_chips(&self) -> (chips: u32)
        ensures
            chips == self.spec_base_chips(),
    {
        match self {
            CardRank::Two => 2,
            CardRank::Three => 3,
            CardRank::Four => 4,
            CardRank::Five => 5,
            CardRank::Six => 6,
            CardRank::Seven => 7,
            CardRank::Eight => 8,
            CardRank::Nine => 9,
            CardRank::Ten => 10,
            CardRank::Jack => 10,
            CardRank::Queen => 10,
            CardRank::King => 10,
            CardRank::Ace => 11,
        }
    }
}

/// Every rank has a place from 0 to 12, and `rank_at` leads back from the
/// place to the rank.
pub proof fn lemma_rank_order(rank: CardRank)
    ensures
        0 <= rank.spec_order() < 13,
        rank_at(rank.spec_order()) == rank,
{
}

/// Going one step up the circle of ranks and one step down again, or the
/// other way round, leads back to the rank one started from.
pub proof fn lemma_straight_steps_inverse(rank: CardRank)
    ensures
        rank.spec_straight_next().spec_straight_prev() == rank,
        rank.spec_straight_prev().spec_straight_next() == rank,
{
}

/// The identifier of a card. No two cards of a session share one.
pub type CardId = u32;

/// Hands out card identifiers one after the other, starting at `next`.
#[derive(Clone, Copy, Debug)]
pub struct CardIds {
    pub next: CardId,
}

impl CardIds {
    /// A source whose first identifier is 0.
    pub fn new() -> (ids: Self)
        ensures
            ids.next == 0,
    {
        CardIds { next: 0 }
    }

    /// Returns the next identifier and steps past it. After the largest
    /// identifier the count starts again at 0.
    pub fn get_next_id(&mut self) -> (id: CardId)
        ensures
            id == old(self).next,
            final(self).next == if old(self).next == u32::MAX {
                0
            } else {
                old(self).next + 1
            },
    {
        let id = self.next;
        self.next = if id == u32::MAX {
            0
        } else {
            id + 1
        };
        id
    }
}

/// A playing card. Its identifier never changes and tells it from every
/// other card of the session.
#[derive(Clone, Copy, Debug, PartialEq, Eq, Structural)]
pub struct Card {
    pub id: CardId,
    pub rank: CardRank,
    pub suit: CardSuit,
    pub enhancement: Option<CardEnhancement>,
    pub edition: Option<CardEdition>,
    pub seal: Option<CardSeal>,
    pub extra_chips: u32,
}

impl Card {
    /// A plain card: no enhancement, edition or seal, and no extra chips.
    pub fn new(id: CardId, rank: CardRank, suit: CardSuit) -> (card: Self)
        ensures
            card == (Card {
                id,
                rank,
                suit,
                enhancement: None,
                edition: None,
                seal: None,
                extra_chips: 0,
            }),
    {
        Self { id, rank, suit, enhancement: None, edition: None, seal: None, extra_chips: 0 }
    }
}

} // verus!
