use crate::card::{Card, CardEnhancement};
use crate::groups::card_values;
use crate::hand::{best_hand, ChipsAndMult, HandLevels, HandType};
use vstd::prelude::*;

verus! {

/// The chips that a bonus card adds when it is scored.
pub const BONUS_CHIPS: u32 = 30;

/// The multiplier that a mult card adds when it is scored.
pub const MULT_BONUS: u32 = 4;

/// The chips that one scored card brings: those of its rank, its extra
/// chips, and 30 more if it is a bonus card.
pub open spec fn card_chips(card: Card) -> nat {
    card.rank.spec_base_chips() + card.extra_chips as nat + if card.enhancement == Some(
        CardEnhancement::Bonus,
    ) {
        BONUS_CHIPS as nat
    } else {
        0
    }
}

/// The multiplier that one scored card brings: 4 if it is a mult card.
pub open spec fn card_mult(card: Card) -> nat {
    if card.enhancement == Some(CardEnhancement::Mult) {
        MULT_BONUS as nat
    } else {
        0
    }
}

/// The chips that the cards bring together.
pub open spec fn total_chips(cards: Seq<Card>) -> nat
    decreases cards.len(),
{
    if cards.len() == 0 {
        0
    } else {
        total_chips(cards.drop_last()) + card_chips(cards.last())
    }
}

/// The multiplier that the cards bring together.
pub open spec fn total_mult(cards: Seq<Card>) -> nat
    decreases cards.len(),
{
    if cards.len() == 0 {
        0
    } else {
        total_mult(cards.drop_last()) + card_mult(cards.last())
    }
}

/// The chips of a played hand: those of its type at `level` and those of
/// the cards that make it.
pub open spec fn hand_chips(hand: HandType, level: nat, scored: Seq<Card>) -> nat {
    hand.chips_at(level) + total_chips(scored)
}

/// The multiplier of a played hand: that of its type at `level` and that of
/// the cards that make it.
pub open spec fn hand_mult(hand: HandType, level: nat, scored: Seq<Card>) -> nat {
    hand.mult_at(level) + total_mult(scored)
}

/// Whether the chips and the multiplier of a played hand each fit 32 bits.
pub open spec fn value_fits(hand: HandType, level: nat, scored: Seq<Card>) -> bool {
    hand_chips(hand, level, scored) <= u32::MAX && hand_mult(hand, level, scored) <= u32::MAX
}

/// What playing `cards` adds to the score: the chips of the hand that they
/// are played as, multiplied once by its multiplier.
pub open spec fn play_score(cards: Seq<Card>, levels: HandLevels) -> nat {
    let hand = best_hand(cards).0;
    let scored = best_hand(cards).1;
    hand_chips(hand, levels.level(hand), scored) * hand_mult(hand, levels.level(hand), scored)
}

/// Whether the chips and the multiplier of the hand that `cards` are played
/// as each fit 32 bits.
pub open spec fn play_fits(cards: Seq<Card>, levels: HandLevels) -> bool {
    let hand = best_hand(cards).0;
    value_fits(hand, levels.level(hand), best_hand(cards).1)
}

/// The first cards of a list bring no more chips and no more multiplier
/// than the whole list.
pub proof fn lemma_totals_grow(cards: Seq<Card>, n: int)
    requires
        0 <= n <= cards.len(),
    ensures
        total_chips(cards.take(n)) <= total_chips(cards),
        total_mult(cards.take(n)) <= total_mult(cards),
    decreases cards.len() - n,
{
    if n == cards.len() {
        assert(cards.take(n) =~= cards);
    } else {
        lemma_totals_grow(cards, n + 1);
        assert(cards.take(n + 1).drop_last() =~= cards.take(n));
    }
}

/// The chips and the multiplier of a played hand of type `hand` made of the
/// cards `scored`, or nothing if one of them does not fit 32 bits.
pub fn score_cards(hand: &HandType, levels: &HandLevels, scored: &Vec<&Card>) -> (value: Option<
    ChipsAndMult,
>)
    ensures
        value == if value_fits(*hand, levels.level(*hand), card_values(scored@)) {
            Some(
                ChipsAndMult {
                    chips: hand_chips(*hand, levels.level(*hand), card_values(scored@)) as u32,
                    mult: hand_mult(*hand, levels.level(*hand), card_values(scored@)) as u32,
                },
            )
        } else {
            None
        },
{
    let ghost cards = card_values(scored@);
    let ghost level = levels.level(*hand);
    let base = hand.get_value(levels);
    let mut chips: u64 = base.0 as u64;
    let mut mult: u64 = base.1 as u64;
    let mut i: usize = 0;
    while i < scored.len()
        invariant
            i <= scored.len(),
            cards == card_values(scored@),
            level == levels.level(*hand),
            chips == hand_chips(*hand, level, cards.take(i as int)),
            mult == hand_mult(*hand, level, cards.take(i as int)),
            chips <= u32::MAX,
            mult <= u32::MAX,
        decreases scored.len() - i,
    {
        let card = scored[i];
        proof {
            assert(cards.take(i + 1).drop_last() =~= cards.take(i as int));
            lemma_totals_grow(cards, i + 1);
        }
        let mut card_chips: u64 = card.rank.get_base_chips() as u64 + card.extra_chips as u64;
        let mut card_mult: u64 = 0;
        match card.enhancement {
            Some(CardEnhancement::Bonus) => {
                card_chips = card_chips + BONUS_CHIPS as u64;
            },
            Some(CardEnhancement::Mult) => {
                card_mult = card_mult + MULT_BONUS as u64;
            },
            _ => {},
        }
        chips = chips + card_chips;
        mult = mult + card_mult;
        if chips > u32::MAX as u64 || mult > u32::MAX as u64 {
            return None;
        }
        i += 1;
    }
    proof {
        assert(cards.take(scored.len() as int) =~= cards);
    }
    Some(ChipsAndMult { chips: chips as u32, mult: mult as u32 })
}

} // verus!
