use crate::card::Card;
use crate::hand::{HandLevels, HandType};
use vstd::prelude::*;

verus! {

/// What a hand type is worth by itself at its level in `levels`: its chips
/// times its multiplier, before any card is counted.
pub open spec fn type_value(hand: HandType, levels: HandLevels) -> nat {
    hand.chips_at(levels.level(hand)) * hand.mult_at(levels.level(hand))
}

/// Whether the hand at place `i` is the one to play among `hands`: no hand
/// is of a type worth more, and every hand after it is of a type worth
/// less.
pub open spec fn is_best_place(hands: Seq<HandType>, levels: HandLevels, i: int) -> bool {
    &&& 0 <= i < hands.len()
    &&& forall|j: int|
        0 <= j < hands.len() ==> type_value(#[trigger] hands[j], levels) <= type_value(
            hands[i],
            levels,
        )
    &&& forall|j: int|
        i < j < hands.len() ==> type_value(#[trigger] hands[j], levels) < type_value(
            hands[i],
            levels,
        )
}

/// The types of the hands of a list, in order.
pub open spec fn hand_types(hands: Seq<(HandType, Vec<&Card>)>) -> Seq<HandType> {
    hands.map_values(|hand: (HandType, Vec<&Card>)| hand.0)
}

/// What a hand type is worth by itself at its level in `levels`.
pub fn value_of_type(hand: &HandType, levels: &HandLevels) -> (value: u32)
    ensures
        value == type_value(*hand, *levels),
{
    let (chips, mult) = hand.get_value(levels);
    assert(chips * mult <= 10300 * 1028) by (nonlinear_arith)
        requires
            chips <= 10300,
            mult <= 1028,
    ;
    chips * mult
}

/// The place of the hand to play among `hands`: the last of those whose
/// type is worth the most. There is none where there is no hand.
pub fn best_place(hands: &Vec<(HandType, Vec<&Card>)>, levels: &HandLevels) -> (place: Option<
    usize,
>)
    ensures
        match place {
            Some(i) => is_best_place(hand_types(hands@), *levels, i as int),
            None => hands.len() == 0,
        },
{
    if hands.len() == 0 {
        return None;
    }
    let ghost types = hand_types(hands@);
    let mut best: usize = 0;
    let mut best_value = value_of_type(&hands[0].0, levels);
    let mut i: usize = 1;
    while i < hands.len()
        invariant
            1 <= i <= hands.len(),
            types == hand_types(hands@),
            best < i,
            best_value == type_value(types[best as int], *levels),
            forall|j: int|
                0 <= j < i ==> type_value(#[trigger] types[j], *levels) <= best_value,
            forall|j: int| best < j < i ==> type_value(#[trigger] types[j], *levels) < best_value,
        decreases hands.len() - i,
    {
        let value = value_of_type(&hands[i].0, levels);
        if value >= best_value {
            best = i;
            best_value = value;
        }
        i += 1;
    }
    Some(best)
}

} // verus!
