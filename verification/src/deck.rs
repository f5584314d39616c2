use crate::card::{Card, CardId, CardIds, CardRank, CardSuit, CARD_RANKS, CARD_SUITS};
use crate::consumable::{Consumable, TarotCard};
use crate::counting::lemma_occurrences_filter;
use crate::pools::{ids_unique, lemma_ids_differ_unique};
use crate::voucher::Voucher;
use vstd::prelude::*;

verus! {

/// The card with the given identifier, rank and suit and nothing else.
pub open spec fn plain_card(id: CardId, rank: CardRank, suit: CardSuit) -> Card {
    Card { id, rank, suit, enhancement: None, edition: None, seal: None, extra_chips: 0 }
}

/// Whether the card has no enhancement, edition or seal and no extra chips.
pub open spec fn is_plain(card: Card) -> bool {
    card == plain_card(card.id, card.rank, card.suit)
}

/// The 52 cards of a standard deck: suit by suit in the order of
/// `CARD_SUITS`, within a suit in the order of `CARD_RANKS`, numbered from
/// 0 to 51.
pub open spec fn standard_deck() -> Seq<Card> {
    Seq::new(52, |i: int| plain_card(i as u32, CARD_RANKS[i % 13], CARD_SUITS[i / 13]))
}

/// Whether the rank is that of a face card.
pub open spec fn is_face(rank: CardRank) -> bool {
    rank == CardRank::Jack || rank == CardRank::Queen || rank == CardRank::King
}

/// The cards that are no face cards.
pub open spec fn not_face() -> spec_fn(Card) -> bool {
    |card: Card| !is_face(card.rank)
}

/// The suit that a card of `suit` has in a deck of spades and hearts only:
/// clubs become spades and diamonds become hearts.
pub open spec fn two_suits(suit: CardSuit) -> CardSuit {
    match suit {
        CardSuit::Clubs => CardSuit::Spades,
        CardSuit::Diamonds => CardSuit::Hearts,
        _ => suit,
    }
}

/// The standard deck without its face cards.
pub open spec fn faceless_deck() -> Seq<Card> {
    standard_deck().filter(not_face())
}

/// The standard deck with its clubs turned into spades and its diamonds
/// into hearts.
pub open spec fn two_suit_deck() -> Seq<Card> {
    Seq::new(
        52,
        |i: int| plain_card(i as u32, CARD_RANKS[i % 13], two_suits(CARD_SUITS[i / 13])),
    )
}

/// Whether the cards are 52 plain cards numbered from `first` on. Their
/// ranks and suits are left open.
pub open spec fn is_numbered_deck(cards: Seq<Card>, first: nat) -> bool {
    &&& cards.len() == 52
    &&& forall|i: int| 0 <= i < 52 ==> is_plain(#[trigger] cards[i]) && cards[i].id == first + i
}

/// Taking cards out of a pool in which every identifier is used once
/// leaves such a pool.
pub proof fn lemma_filter_keeps_ids_unique(cards: Seq<Card>, pred: spec_fn(Card) -> bool)
    requires
        ids_unique(cards.to_multiset()),
    ensures
        ids_unique(cards.filter(pred).to_multiset()),
{
    let kept = cards.filter(pred).to_multiset();
    let all = cards.to_multiset();
    assert forall|card: Card| kept.count(card) <= all.count(card) by {
        lemma_occurrences_filter(cards, pred, card);
        assert(kept.count(card) == crate::counting::occurrences(cards.filter(pred), card));
        assert(all.count(card) == crate::counting::occurrences(cards, card));
    }
    assert forall|card: Card| kept.count(card) <= 1 by {
        assert(kept.count(card) <= all.count(card));
    }
    assert forall|a: Card, b: Card| kept.count(a) > 0 && kept.count(b) > 0 && a.id == b.id implies a
        == b by {
        assert(kept.count(a) <= all.count(a));
        assert(kept.count(b) <= all.count(b));
    }
}

/// The ranks of a suit come in the order of `CARD_RANKS`, in which the
/// face cards stand at the places 9, 10 and 11.
pub proof fn lemma_face_places(r: int)
    requires
        0 <= r < 13,
    ensures
        is_face(CARD_RANKS[r]) <==> 9 <= r <= 11,
{
}

/// How many of the first `n` cards of the standard deck are no face cards.
pub proof fn lemma_faceless_count(n: int)
    requires
        0 <= n <= 52,
    ensures
        standard_deck().take(n).filter(not_face()).len() == 10 * (n / 13) + if n % 13 < 9 {
            n % 13
        } else {
            9
        },
    decreases n,
{
    let deck = standard_deck();
    if n == 0 {
        deck.take(0).lemma_filter_len(not_face());
    } else {
        lemma_faceless_count(n - 1);
        deck.lemma_take_succ_push(n - 1);
        deck.take(n - 1).lemma_filter_push(deck[n - 1], not_face());
        lemma_face_places((n - 1) % 13);
    }
}

/// The standard deck without its face cards has 40 cards.
pub proof fn lemma_faceless_deck_len()
    ensures
        faceless_deck().len() == 40,
{
    lemma_faceless_count(52);
    assert(standard_deck().take(52) =~= standard_deck());
}

/// Builds the standard deck.
fn build_standard_deck(ids: &mut CardIds) -> (deck: Vec<Card>)
    requires
        old(ids).next == 0,
    ensures
        deck@ == standard_deck(),
        final(ids).next == 52,
{
    let mut deck: Vec<Card> = Vec::new();
    let mut s: usize = 0;
    while s < 4
        invariant
            s <= 4,
            ids.next == 13 * s,
            deck.len() == 13 * s,
            forall|i: int| 0 <= i < deck.len() ==> #[trigger] deck[i] == standard_deck()[i],
        decreases 4 - s,
    {
        let suit = CARD_SUITS[s];
        let mut r: usize = 0;
        while r < 13
            invariant
                s < 4,
                r <= 13,
                suit == CARD_SUITS[s as int],
                ids.next == 13 * s + r,
                deck.len() == 13 * s + r,
                forall|i: int| 0 <= i < deck.len() ==> #[trigger] deck[i] == standard_deck()[i],
            decreases 13 - r,
        {
            let rank = CARD_RANKS[r];
            let id = ids.get_next_id();
            deck.push(Card::new(id, rank, suit));
            r += 1;
        }
        s += 1;
    }
    assert(deck@ =~= standard_deck());
    deck
}

/// The cards of the deck that are no face cards, in order.
fn without_faces(deck: &Vec<Card>) -> (kept: Vec<Card>)
    ensures
        kept@ == deck@.filter(not_face()),
{
    let mut kept: Vec<Card> = Vec::new();
    let mut i: usize = 0;
    proof {
        deck@.take(0).lemma_filter_len(not_face());
        assert(kept@ =~= deck@.take(0).filter(not_face()));
    }
    while i < deck.len()
        invariant
            i <= deck.len(),
            kept@ == deck@.take(i as int).filter(not_face()),
        decreases deck.len() - i,
    {
        let card = deck[i];
        proof {
            deck@.lemma_take_succ_push(i as int);
            deck@.take(i as int).lemma_filter_push(deck@[i as int], not_face());
        }
        let face = match card.rank {
            CardRank::Jack => true,
            CardRank::Queen => true,
            CardRank::King => true,
            _ => false,
        };
        if !face {
            kept.push(card);
        }
        i += 1;
    }
    proof {
        assert(deck@.take(deck.len() as int) =~= deck@);
    }
    kept
}

/// Turns the clubs of the standard deck into spades and its diamonds into
/// hearts.
fn into_two_suits(deck: Vec<Card>) -> (changed: Vec<Card>)
    requires
        deck@ == standard_deck(),
    ensures
        changed@ == two_suit_deck(),
{
    let mut changed: Vec<Card> = Vec::new();
    let mut i: usize = 0;
    while i < deck.len()
        invariant
            i <= deck.len(),
            deck@ == standard_deck(),
            changed.len() == i,
            forall|k: int| 0 <= k < i ==> #[trigger] changed[k] == two_suit_deck()[k],
        decreases deck.len() - i,
    {
        let mut card = deck[i];
        if card.suit == CardSuit::Clubs {
            card.suit = CardSuit::Spades;
        }
        if card.suit == CardSuit::Diamonds {
            card.suit = CardSuit::Hearts;
        }
        changed.push(card);
        i += 1;
    }
    assert(changed@ =~= two_suit_deck());
    changed
}

/// Builds a deck of 52 cards of which each has a rank and a suit drawn at
/// random.
fn build_erratic_deck(ids: &mut CardIds) -> (deck: Vec<Card>)
    requires
        old(ids).next + 52 <= u32::MAX,
    ensures
        is_numbered_deck(deck@, old(ids).next as nat),
        final(ids).next == old(ids).next + 52,
{
    let mut deck: Vec<Card> = Vec::new();
    let mut i: usize = 0;
    while i < 52
        invariant
            i <= 52,
            old(ids).next + 52 <= u32::MAX,
            ids.next == old(ids).next + i,
            deck.len() == i,
            forall|k: int|
                0 <= k < i ==> is_plain(#[trigger] deck[k]) && deck[k].id == old(ids).next + k,
        decreases 52 - i,
    {
        let id = ids.get_next_id();
        let card = Card::new(id, CardRank::get_rand(), CardSuit::get_rand());
        deck.push(card);
        i += 1;
    }
    deck
}

/// The deck that a session starts with. It decides the cards and some of
/// the limits of the session.
#[derive(Clone, Copy, Debug, PartialEq, Eq, Structural)]
pub enum GameStartingDeck {
    Red,
    Blue,
    Yellow,
    Green,
    Black,
    Magic,
    Nebula,
    GhostDeck,
    Abandoned,
    Checkered,
    Zodiac,
    Painted,
    Anaglyph,
    Plasma,
    Erratic,
}

impl GameStartingDeck {
    /// The hands of a round: 5 with the blue deck, 4 with any other.
    pub open spec fn hands(self) -> nat {
        if self == GameStartingDeck::Blue {
            5
        } else {
            4
        }
    }

    /// The discards of a round: 4 with the red deck, 3 with any other.
    pub open spec fn discards(self) -> nat {
        if self == GameStartingDeck::Red {
            4
        } else {
            3
        }
    }

    /// The money at the start: 14 with the yellow deck, 4 with any other.
    pub open spec fn money(self) -> nat {
        if self == GameStartingDeck::Yellow {
            14
        } else {
            4
        }
    }

    /// The size of the hand: 7 with the black deck, 10 with the painted
    /// deck, 8 with any other.
    pub open spec fn hand_size(self) -> nat {
        match self {
            GameStartingDeck::Black => 7,
            GameStartingDeck::Painted => 10,
            _ => 8,
        }
    }

    /// The cap on interest: none to be had with the green deck, 10 with any
    /// other.
    pub open spec fn interest_cap(self) -> nat {
        if self == GameStartingDeck::Green {
            0
        } else {
            10
        }
    }

    /// The places for consumables: 1 with the nebula deck, 2 with any other.
    pub open spec fn consumable_slots(self) -> nat {
        if self == GameStartingDeck::Nebula {
            1
        } else {
            2
        }
    }

    /// The places for jokers: 6 with the black deck, 4 with the painted
    /// deck, 5 with any other.
    pub open spec fn joker_slots(self) -> nat {
        match self {
            GameStartingDeck::Black => 6,
            GameStartingDeck::Painted => 4,
            _ => 5,
        }
    }

    /// The vouchers that the deck comes with.
    pub open spec fn vouchers(self) -> Seq<Voucher> {
        match self {
            GameStartingDeck::Magic => seq![Voucher::CrystalBall],
            GameStartingDeck::Nebula => seq![Voucher::Telescope],
            GameStartingDeck::Zodiac => seq![
                Voucher::TarotMerchant,
                Voucher::PlanetMerchant,
                Voucher::Overstock,
            ],
            _ => Seq::empty(),
        }
    }

    /// The consumables that the deck comes with.
    pub open spec fn consumables(self) -> Seq<Consumable> {
        match self {
            GameStartingDeck::Magic => seq![
                Consumable::Tarot(TarotCard::TheFool),
                Consumable::Tarot(TarotCard::TheFool),
            ],
            _ => Seq::empty(),
        }
    }

    /// The cards that the deck is made of: the standard deck, without its
    /// face cards for the abandoned deck and in two suits for the checkered
    /// deck. The cards of the erratic deck are drawn at random and are not
    /// given here.
    pub open spec fn cards(self) -> Seq<Card> {
        match self {
            GameStartingDeck::Abandoned => faceless_deck(),
            GameStartingDeck::Checkered => two_suit_deck(),
            _ => standard_deck(),
        }
    }

    /// Builds the cards of the deck. Those of the erratic deck are 52 plain
    /// cards numbered from 52 on, each with a rank and a suit drawn at
    /// random.
    pub fn build_cards(&self) -> (deck: Vec<Card>)
        ensures
            *self != GameStartingDeck::Erratic ==> deck@ == self.cards(),
            *self == GameStartingDeck::Erratic ==> is_numbered_deck(deck@, 52),
            ids_unique(deck@.to_multiset()),
            40 <= deck.len() <= 52,
    {
        let mut ids = CardIds::new();
        let deck = build_standard_deck(&mut ids);
        proof {
            lemma_ids_differ_unique(deck@);
        }
        match self {
            GameStartingDeck::Abandoned => {
                // No face cards
                proof {
                    lemma_filter_keeps_ids_unique(deck@, not_face());
                    lemma_faceless_deck_len();
                }
                without_faces(&deck)
            },
            GameStartingDeck::Checkered => {
                // Only spades and hearts
                let deck = into_two_suits(deck);
                proof {
                    lemma_ids_differ_unique(deck@);
                }
                deck
            },
            GameStartingDeck::Erratic => {
                let deck = build_erratic_deck(&mut ids);
                proof {
                    lemma_ids_differ_unique(deck@);
                }
                deck
            },
            _ => deck,
        }
    }
}

} // verus!
