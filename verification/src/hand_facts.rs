use crate::card::{lemma_rank_order, Card, CardRank, CardSuit};
use crate::counting::{
    is_part_of, lemma_filter_none, lemma_filter_single, lemma_occurrences_empty,
    lemma_occurrences_push, lemma_part_by_occurrences, occurrences,
};
use crate::groups::{
    lemma_rank_group_is_listed, lemma_rank_group_is_part, lemma_sized_group_has_rank,
    lemma_sized_group_has_suit, lemma_sized_groups_differ, lemma_sorted_descends,
    lemma_sorted_is_permutation, lemma_suit_group_is_listed, lemma_suit_group_is_part,
    lemma_two_rank_groups_are_part, of_rank, rank_group, sorted_by_rank, suit_group,
};
use crate::hand::{
    best_hand, flushes, full_houses, labelled, of_a_kind, possible_hands, single_cards, two_pairs,
    with_each, HandType,
};
use crate::pairing::{index_pairs, lemma_index_pairs_in_range};
use crate::straight::{
    forms_run, is_run, lemma_straight_run_is_part, lemma_window_places, straight_runs, window,
    windows,
};
use vstd::prelude::*;

verus! {

/// Whether `order` names each of the places 0 to 4 once.
pub open spec fn is_arrangement(order: Seq<int>) -> bool {
    &&& order.len() == 5
    &&& forall|k: int| 0 <= k < 5 ==> 0 <= #[trigger] order[k] < 5
    &&& forall|a: int, b: int| 0 <= a < b < 5 ==> #[trigger] order[a] != #[trigger] order[b]
}

/// Whether `order` names the place `j`.
pub open spec fn names(order: Seq<int>, j: int) -> bool {
    exists|k: int| 0 <= k < 5 && #[trigger] order[k] == j
}

/// The five cards in the order that `order` gives them.
pub open spec fn arranged(cards: Seq<Card>, order: Seq<int>) -> Seq<Card> {
    Seq::new(5, |k: int| cards[order[k]])
}

/// The place on the circle of ranks that lies `k` steps below the place
/// `top`.
pub open spec fn steps_down(top: int, k: int) -> int {
    (top + 13 - k) % 13
}

/// Five places that go strictly down and are each one of the five places
/// that follow `top` down the circle of ranks are those five places, read
/// as a ring from the place where `top` stands.
proof fn lemma_descending_ring(s: Seq<int>, top: int)
    requires
        0 <= top < 13,
        s.len() == 5,
        s[0] > s[1] > s[2] > s[3] > s[4],
        forall|i: int| 0 <= i < 5 ==> is_step_down(#[trigger] s[i], top),
    ensures
        forall|k: int|
            0 <= k < 5 ==> s[(ring_start(top) + k) % 5] == #[trigger] steps_down(top, k),
{
    let start = ring_start(top);
    assert(steps_down(top, 0) == top);
    assert(steps_down(top, 1) == if top >= 1 { top - 1 } else { top + 12 });
    assert(steps_down(top, 2) == if top >= 2 { top - 2 } else { top + 11 });
    assert(steps_down(top, 3) == if top >= 3 { top - 3 } else { top + 10 });
    assert(steps_down(top, 4) == if top >= 4 { top - 4 } else { top + 9 });
    assert(s[0] == s[0] && s[1] == s[1] && s[2] == s[2] && s[3] == s[3] && s[4] == s[4]);
    assert forall|k: int| 0 <= k < 5 implies s[(start + k) % 5] == #[trigger] steps_down(
        top,
        k,
    ) by {
        lemma_window_places(5, start, k);
    }
}

/// The place of the sorted cards at which the run that starts with the rank
/// at `top` begins.
pub open spec fn ring_start(top: int) -> int {
    if top >= 4 {
        0
    } else {
        4 - top
    }
}

/// Whether no two of the cards share a rank.
pub open spec fn ranks_differ(cards: Seq<Card>) -> bool {
    forall|i: int, j: int|
        0 <= i < j < cards.len() ==> (#[trigger] cards[i]).rank != (#[trigger] cards[j]).rank
}

/// An arrangement of five places names each of them.
proof fn lemma_arrangement_names_all(order: Seq<int>)
    requires
        is_arrangement(order),
    ensures
        forall|j: int| 0 <= j < 5 ==> #[trigger] names(order, j),
{
    assert forall|j: int| 0 <= j < 5 implies #[trigger] names(order, j) by {
        if order[0] != j && order[1] != j && order[2] != j && order[3] != j && order[4] != j {
            assert(false);
        }
    }
}

/// The cards of a run of five differ in rank, and each of them stands as
/// many steps below the first of the run as it comes after it.
proof fn lemma_run_ranks(cards: Seq<Card>, order: Seq<int>)
    requires
        cards.len() == 5,
        is_arrangement(order),
        is_run(arranged(cards, order)),
    ensures
        ranks_differ(cards),
        forall|j: int|
            0 <= j < 5 ==> is_step_down(
                (#[trigger] cards[j]).rank.spec_order(),
                cards[order[0]].rank.spec_order(),
            ),
{
    let line = arranged(cards, order);
    let top = line[0].rank.spec_order();
    lemma_ranks_step_down(line);
    lemma_arrangement_names_all(order);
    assert forall|k: int| 0 <= k < 5 implies cards[#[trigger] order[k]].rank.spec_order()
        == steps_down(top, k) by {
        assert(line[k] == cards[order[k]]);
    }
    assert forall|j: int| 0 <= j < 5 implies is_step_down(
        (#[trigger] cards[j]).rank.spec_order(),
        top,
    ) by {
        assert(names(order, j));
        let k = choose|k: int| 0 <= k < 5 && #[trigger] order[k] == j;
        assert(cards[order[k]].rank.spec_order() == steps_down(top, k));
    }
    assert forall|i: int, j: int| 0 <= i < j < 5 implies (#[trigger] cards[i]).rank
        != (#[trigger] cards[j]).rank by {
        assert(names(order, i) && names(order, j));
        let a = choose|k: int| 0 <= k < 5 && #[trigger] order[k] == i;
        let b = choose|k: int| 0 <= k < 5 && #[trigger] order[k] == j;
        assert(cards[order[a]].rank.spec_order() == steps_down(top, a));
        assert(cards[order[b]].rank.spec_order() == steps_down(top, b));
    }
}

/// Whether `place` lies at most four steps below `top` on the circle of
/// ranks.
pub open spec fn is_step_down(place: int, top: int) -> bool {
    place == steps_down(top, 0) || place == steps_down(top, 1) || place == steps_down(top, 2)
        || place == steps_down(top, 3) || place == steps_down(top, 4)
}

/// Sorting cards that differ in rank puts them in strictly descending
/// order of rank, and each card that comes out is one that went in.
proof fn lemma_sorted_strictly(cards: Seq<Card>, i: int, j: int)
    requires
        ranks_differ(cards),
        0 <= i < j < sorted_by_rank(cards).len(),
    ensures
        sorted_by_rank(cards)[i].rank.spec_order() > sorted_by_rank(cards)[j].rank.spec_order(),
{
    let sorted = sorted_by_rank(cards);
    lemma_sorted_is_permutation(cards);
    lemma_sorted_descends(cards);
    assert(sorted[i].rank.spec_order() >= sorted[j].rank.spec_order());
    if sorted[i].rank.spec_order() == sorted[j].rank.spec_order() {
        lemma_rank_order(sorted[i].rank);
        lemma_rank_order(sorted[j].rank);
        assert(sorted[i].rank == sorted[j].rank);
        let a = lemma_sorted_card_is_held(cards, i);
        let b = lemma_sorted_card_is_held(cards, j);
        if a < b {
            assert(cards[a].rank != cards[b].rank);
        }
        if b < a {
            assert(cards[b].rank != cards[a].rank);
        }
        assert(sorted[i] == sorted[j]);
        assert(cards.no_duplicates());
        cards.lemma_multiset_has_no_duplicates();
        sorted.lemma_multiset_has_no_duplicates_conv();
        assert(false);
    }
}

/// Each card that sorting puts out is one of the cards that went in.
proof fn lemma_sorted_card_is_held(cards: Seq<Card>, i: int) -> (place: int)
    requires
        0 <= i < sorted_by_rank(cards).len(),
    ensures
        0 <= place < cards.len(),
        cards[place] == sorted_by_rank(cards)[i],
{
    let sorted = sorted_by_rank(cards);
    lemma_sorted_is_permutation(cards);
    assert(sorted.contains(sorted[i]));
    vstd::seq_lib::to_multiset_contains(sorted, sorted[i]);
    vstd::seq_lib::to_multiset_contains(cards, sorted[i]);
    assert(cards.contains(sorted[i]));
    cards.index_of(sorted[i])
}

/// Five cards that can be put in an order in which each rank precedes the
/// one before it on the circle of ranks hold a straight, wherever on the
/// circle the run lies: the ace may stand at its low end, at its high end
/// or in its middle. No four or five of them share a rank.
pub proof fn lemma_run_of_five_is_found(cards: Seq<Card>, order: Seq<int>)
    requires
        cards.len() == 5,
        is_arrangement(order),
        is_run(arranged(cards, order)),
    ensures
        straight_runs(cards).len() > 0,
        of_a_kind(cards, 5).len() == 0,
        of_a_kind(cards, 4).len() == 0,
{
    let top = cards[order[0]].rank.spec_order();
    lemma_run_ranks(cards, order);
    lemma_no_rank_twice(cards, 5);
    lemma_no_rank_twice(cards, 4);
    let sorted = sorted_by_rank(cards);
    lemma_sorted_is_permutation(cards);
    let places = Seq::new(5, |i: int| sorted[i].rank.spec_order());
    assert forall|i: int| 0 <= i < 5 implies is_step_down(#[trigger] places[i], top) by {
        let j = lemma_sorted_card_is_held(cards, i);
        assert(is_step_down(cards[j].rank.spec_order(), top));
    }
    lemma_sorted_strictly(cards, 0, 1);
    lemma_sorted_strictly(cards, 1, 2);
    lemma_sorted_strictly(cards, 2, 3);
    lemma_sorted_strictly(cards, 3, 4);
    lemma_rank_order(cards[order[0]].rank);
    lemma_descending_ring(places, top);
    let start = ring_start(top);
    let found = window(sorted, start);
    assert forall|k: int| 0 <= k < 5 implies (#[trigger] found[k]).rank.spec_order() == steps_down(
        top,
        k,
    ) by {
        assert(found[k] == sorted[(start + k) % 5]);
        lemma_window_places(5, start, k);
        assert(places[(start + k) % 5] == steps_down(top, k));
    }
    lemma_places_step_down(found, top);
    assert(windows(sorted)[start] == found);
    windows(sorted).lemma_filter_contains(forms_run(), start);
}

/// Along a run, the `k`th card stands `k` steps below the first on the
/// circle of ranks.
proof fn lemma_ranks_step_down(line: Seq<Card>)
    requires
        is_run(line),
    ensures
        forall|k: int|
            0 <= k < 5 ==> (#[trigger] line[k]).rank.spec_order() == steps_down(
                line[0].rank.spec_order(),
                k,
            ),
{
    lemma_rank_order(line[0].rank);
    lemma_rank_order(line[1].rank);
    lemma_rank_order(line[2].rank);
    lemma_rank_order(line[3].rank);
    lemma_rank_order(line[4].rank);
    let top = line[0].rank.spec_order();
    assert(line[1].rank.spec_order() == steps_down(top, 1));
    assert(line[2].rank.spec_order() == steps_down(top, 2));
    assert(line[3].rank.spec_order() == steps_down(top, 3));
    assert(line[4].rank.spec_order() == steps_down(top, 4));
}

/// Five cards of which the `k`th stands `k` steps below `top` on the circle
/// of ranks are a run.
proof fn lemma_places_step_down(line: Seq<Card>, top: int)
    requires
        line.len() == 5,
        0 <= top < 13,
        forall|k: int| 0 <= k < 5 ==> (#[trigger] line[k]).rank.spec_order() == steps_down(top, k),
    ensures
        is_run(line),
{
    lemma_rank_order(line[0].rank);
    lemma_rank_order(line[1].rank);
    lemma_rank_order(line[2].rank);
    lemma_rank_order(line[3].rank);
    lemma_rank_order(line[4].rank);
    assert(line[0].rank.spec_order() == steps_down(top, 0));
    assert(line[1].rank.spec_order() == steps_down(top, 1));
    assert(line[2].rank.spec_order() == steps_down(top, 2));
    assert(line[3].rank.spec_order() == steps_down(top, 3));
    assert(line[4].rank.spec_order() == steps_down(top, 4));
}

/// Where no two cards share a rank, no rank group has two cards or more.
proof fn lemma_no_rank_twice(cards: Seq<Card>, size: nat)
    requires
        size >= 2,
        ranks_differ(cards),
    ensures
        of_a_kind(cards, size).len() == 0,
{
    if of_a_kind(cards, size).len() > 0 {
        let rank = lemma_sized_group_has_rank(cards, size, 0);
        if exists|i: int| 0 <= i < cards.len() && (#[trigger] cards[i]).rank == rank {
            let i = choose|i: int| 0 <= i < cards.len() && (#[trigger] cards[i]).rank == rank;
            assert forall|j: int| 0 <= j < cards.len() && j != i implies !of_rank(rank)(
                #[trigger] cards[j],
            ) by {
                if j < i {
                    assert(cards[j].rank != cards[i].rank);
                } else {
                    assert(cards[i].rank != cards[j].rank);
                }
            }
            lemma_filter_single(cards, of_rank(rank), i);
        } else {
            lemma_filter_none(cards, of_rank(rank));
        }
    }
}

/// Five cards that follow each other round the circle of ranks, in
/// whatever order they come and wherever the ace stands among them, are
/// played as a straight, unless all five are of one suit: then they are a
/// flush.
pub proof fn lemma_run_of_five_is_straight(cards: Seq<Card>, order: Seq<int>)
    requires
        cards.len() == 5,
        is_arrangement(order),
        is_run(arranged(cards, order)),
    ensures
        flushes(cards).len() == 0 ==> best_hand(cards).0 == HandType::Straight && is_run(
            best_hand(cards).1,
        ),
        flushes(cards).len() > 0 ==> best_hand(cards).0 == HandType::Flush,
{
    lemma_run_of_five_is_found(cards, order);
    crate::straight::lemma_straight_run_is_part(cards, 0);
}

/// Cards with three of one rank and two of another are never played as a
/// three of a kind alone.
pub proof fn lemma_three_with_pair_is_not_three_alone(
    cards: Seq<Card>,
    triple: CardRank,
    pair: CardRank,
)
    requires
        rank_group(cards, triple).len() == 3,
        rank_group(cards, pair).len() == 2,
    ensures
        best_hand(cards).0 != HandType::ThreeOfAKind,
        of_a_kind(cards, 3).len() > 0,
        of_a_kind(cards, 2).len() > 0,
{
    lemma_rank_group_is_listed(cards, triple);
    lemma_rank_group_is_listed(cards, pair);
}

/// Cards with three of one rank and two of another are played as a full
/// house of five cards, where they hold none of the hands that come first:
/// no five or four of a kind, no flush and no straight.
pub proof fn lemma_three_with_pair_is_full_house(cards: Seq<Card>, triple: CardRank, pair: CardRank)
    requires
        rank_group(cards, triple).len() == 3,
        rank_group(cards, pair).len() == 2,
        of_a_kind(cards, 5).len() == 0,
        of_a_kind(cards, 4).len() == 0,
        flushes(cards).len() == 0,
        straight_runs(cards).len() == 0,
    ensures
        best_hand(cards).0 == HandType::FullHouse,
        best_hand(cards).1.len() == 5,
{
    lemma_three_with_pair_is_not_three_alone(cards, triple, pair);
    let a = lemma_sized_group_has_rank(cards, 3, 0);
    let b = lemma_sized_group_has_rank(cards, 2, 0);
}

/// Among the hands that can be made of five cards of one suit that hold a
/// straight, there is a flush and there is a straight.
pub proof fn lemma_straight_flush_is_listed_twice(cards: Seq<Card>, suit: CardSuit)
    requires
        cards.len() == 5,
        forall|i: int| 0 <= i < 5 ==> (#[trigger] cards[i]).suit == suit,
        straight_runs(cards).len() > 0,
    ensures
        exists|i: int|
            0 <= i < possible_hands(cards).len() && (#[trigger] possible_hands(cards)[i]).0
                == HandType::Flush,
        exists|i: int|
            0 <= i < possible_hands(cards).len() && (#[trigger] possible_hands(cards)[i]).0
                == HandType::Straight,
{
    lemma_all_of_one_suit(cards, suit);
    lemma_suit_group_is_listed(cards, suit);
    assert(flushes(cards).len() > 0);
    lemma_hand_of_kind_is_listed(cards, 2, 0);
    lemma_hand_of_kind_is_listed(cards, 3, 0);
}

/// The nine kinds of hands that are listed for `cards`, in the order in
/// which `possible_hands` lays them end to end.
pub open spec fn hands_by_kind(cards: Seq<Card>) -> Seq<Seq<(HandType, Seq<Card>)>> {
    seq![
        labelled(HandType::FiveOfAKind, of_a_kind(cards, 5)),
        labelled(HandType::FourOfAKind, of_a_kind(cards, 4)),
        labelled(HandType::Flush, flushes(cards)),
        labelled(HandType::Straight, straight_runs(cards)),
        labelled(HandType::FullHouse, full_houses(of_a_kind(cards, 3), of_a_kind(cards, 2))),
        labelled(HandType::ThreeOfAKind, of_a_kind(cards, 3)),
        labelled(HandType::TwoPair, two_pairs(of_a_kind(cards, 2))),
        labelled(HandType::Pair, of_a_kind(cards, 2)),
        labelled(HandType::HighCard, single_cards(cards)),
    ]
}

/// How many hands are listed before those of the kind at place `kind`.
pub open spec fn hands_before(cards: Seq<Card>, kind: int) -> int
    decreases kind,
{
    if kind <= 0 {
        0
    } else {
        hands_before(cards, kind - 1) + hands_by_kind(cards)[kind - 1].len()
    }
}

/// Each hand of each kind is listed among the possible hands, after the
/// hands of the kinds that come first.
pub proof fn lemma_hand_of_kind_is_listed(cards: Seq<Card>, kind: int, i: int)
    requires
        0 <= kind < 9,
        0 <= i < hands_by_kind(cards)[kind].len(),
    ensures
        0 <= hands_before(cards, kind) + i < possible_hands(cards).len(),
        possible_hands(cards)[hands_before(cards, kind) + i] == hands_by_kind(cards)[kind][i],
        possible_hands(cards).contains(hands_by_kind(cards)[kind][i]),
{
    let kinds = hands_by_kind(cards);
    reveal_with_fuel(hands_before, 10);
    assert(possible_hands(cards) == kinds[0] + kinds[1] + kinds[2] + kinds[3] + kinds[4] + kinds[5]
        + kinds[6] + kinds[7] + kinds[8]);
    let place = hands_before(cards, kind) + i;
    assert(possible_hands(cards)[place] == kinds[kind][i]);
}

/// The hand that the cards are played as is one of the hands that can be
/// made of them, with the same cards in the same order.
pub proof fn lemma_best_hand_is_listed(cards: Seq<Card>)
    requires
        cards.len() > 0,
    ensures
        possible_hands(cards).contains(best_hand(cards)),
{
    let triples = of_a_kind(cards, 3);
    let pairs = of_a_kind(cards, 2);
    if of_a_kind(cards, 5).len() > 0 {
        lemma_hand_of_kind_is_listed(cards, 0, 0);
    } else if of_a_kind(cards, 4).len() > 0 {
        lemma_hand_of_kind_is_listed(cards, 1, 0);
    } else if flushes(cards).len() > 0 {
        lemma_hand_of_kind_is_listed(cards, 2, 0);
    } else if straight_runs(cards).len() > 0 {
        lemma_hand_of_kind_is_listed(cards, 3, 0);
    } else if triples.len() > 0 {
        if pairs.len() > 0 {
            lemma_first_full_house(triples, pairs);
            lemma_hand_of_kind_is_listed(cards, 4, 0);
        } else {
            lemma_hand_of_kind_is_listed(cards, 5, 0);
        }
    } else if pairs.len() > 1 {
        assert(index_pairs(0, pairs.len())[0] == (0nat, 1nat));
        assert(two_pairs(pairs)[0] == pairs[0] + pairs[1]);
        lemma_hand_of_kind_is_listed(cards, 6, 0);
    } else if pairs.len() > 0 {
        lemma_hand_of_kind_is_listed(cards, 7, 0);
    } else {
        lemma_sorted_is_permutation(cards);
        let place = lemma_sorted_card_is_held(cards, 0);
        assert(single_cards(cards)[place] == seq![sorted_by_rank(cards)[0]]);
        lemma_hand_of_kind_is_listed(cards, 8, place);
    }
}

/// The first full house is the first group of three followed by the first
/// group of two.
pub proof fn lemma_first_full_house(triples: Seq<Seq<Card>>, pairs: Seq<Seq<Card>>)
    requires
        triples.len() > 0,
        pairs.len() > 0,
    ensures
        full_houses(triples, pairs).len() > 0,
        full_houses(triples, pairs)[0] == triples[0] + pairs[0],
{
    let rows = triples.map_values(|triple: Seq<Card>| with_each(triple, pairs));
    assert(rows.first() == with_each(triples[0], pairs));
    assert(rows.flatten() == rows.first() + rows.drop_first().flatten());
    assert(with_each(triples[0], pairs)[0] == triples[0] + pairs[0]);
}

/// Each full house is a group of three followed by a group of two.
pub proof fn lemma_full_house_is_joined(
    triples: Seq<Seq<Card>>,
    pairs: Seq<Seq<Card>>,
    i: int,
) -> (places: (int, int))
    requires
        0 <= i < full_houses(triples, pairs).len(),
    ensures
        0 <= places.0 < triples.len(),
        0 <= places.1 < pairs.len(),
        full_houses(triples, pairs)[i] == triples[places.0] + pairs[places.1],
    decreases triples.len(),
{
    let rows = triples.map_values(|triple: Seq<Card>| with_each(triple, pairs));
    if triples.len() == 0 {
        assert(rows.flatten() =~= Seq::<Seq<Card>>::empty());
        (0, 0)
    } else {
        assert(rows.flatten() == rows.first() + rows.drop_first().flatten());
        assert(rows.first() == with_each(triples[0], pairs));
        if i < pairs.len() {
            (0, i)
        } else {
            let rest = triples.drop_first();
            assert(rows.drop_first() =~= rest.map_values(
                |triple: Seq<Card>| with_each(triple, pairs),
            ));
            let places = lemma_full_house_is_joined(rest, pairs, i - pairs.len());
            (places.0 + 1, places.1)
        }
    }
}

/// One card of the cards is part of them.
pub proof fn lemma_single_card_is_part(cards: Seq<Card>, i: int)
    requires
        0 <= i < cards.len(),
    ensures
        is_part_of(seq![cards[i]], cards),
{
    let single = seq![cards[i]];
    assert(single =~= Seq::<Card>::empty().push(cards[i]));
    cards.to_multiset_ensures();
    assert(cards.contains(cards[i]));
    assert forall|x: Card| occurrences(single, x) <= occurrences(cards, x) by {
        lemma_occurrences_push(Seq::<Card>::empty(), cards[i], x);
        lemma_occurrences_empty(Seq::<Card>::empty(), x);
    }
    lemma_part_by_occurrences(single, cards);
}

/// Each hand that is listed for the cards stands in the list of its kind.
pub proof fn lemma_listed_hand_has_kind(cards: Seq<Card>, i: int) -> (place: (int, int))
    requires
        0 <= i < possible_hands(cards).len(),
    ensures
        0 <= place.0 < 9,
        0 <= place.1 < hands_by_kind(cards)[place.0].len(),
        possible_hands(cards)[i] == hands_by_kind(cards)[place.0][place.1],
{
    let kinds = hands_by_kind(cards);
    reveal_with_fuel(hands_before, 10);
    assert(possible_hands(cards) == kinds[0] + kinds[1] + kinds[2] + kinds[3] + kinds[4] + kinds[5]
        + kinds[6] + kinds[7] + kinds[8]);
    if i < hands_before(cards, 1) {
        (0, i)
    } else if i < hands_before(cards, 2) {
        (1, i - hands_before(cards, 1))
    } else if i < hands_before(cards, 3) {
        (2, i - hands_before(cards, 2))
    } else if i < hands_before(cards, 4) {
        (3, i - hands_before(cards, 3))
    } else if i < hands_before(cards, 5) {
        (4, i - hands_before(cards, 4))
    } else if i < hands_before(cards, 6) {
        (5, i - hands_before(cards, 5))
    } else if i < hands_before(cards, 7) {
        (6, i - hands_before(cards, 6))
    } else if i < hands_before(cards, 8) {
        (7, i - hands_before(cards, 7))
    } else {
        (8, i - hands_before(cards, 8))
    }
}

/// Every hand that is listed for the cards is made of at least one card,
/// and of cards among them only, none taken more often than the cards hold
/// it.
pub proof fn lemma_possible_hand_is_part(cards: Seq<Card>, i: int)
    requires
        0 <= i < possible_hands(cards).len(),
    ensures
        possible_hands(cards)[i].1.len() > 0,
        is_part_of(possible_hands(cards)[i].1, cards),
{
    let place = lemma_listed_hand_has_kind(cards, i);
    let kind = place.0;
    let j = place.1;
    let triples = of_a_kind(cards, 3);
    let pairs = of_a_kind(cards, 2);
    if kind == 0 {
        let rank = lemma_sized_group_has_rank(cards, 5, j);
        lemma_rank_group_is_part(cards, rank);
    } else if kind == 1 {
        let rank = lemma_sized_group_has_rank(cards, 4, j);
        lemma_rank_group_is_part(cards, rank);
    } else if kind == 2 {
        let suit = lemma_sized_group_has_suit(cards, 5, j);
        lemma_suit_group_is_part(cards, suit);
    } else if kind == 3 {
        lemma_straight_run_is_part(cards, j);
    } else if kind == 4 {
        let places = lemma_full_house_is_joined(triples, pairs, j);
        let triple = lemma_sized_group_has_rank(cards, 3, places.0);
        let pair = lemma_sized_group_has_rank(cards, 2, places.1);
        lemma_two_rank_groups_are_part(cards, triple, pair);
    } else if kind == 5 {
        let rank = lemma_sized_group_has_rank(cards, 3, j);
        lemma_rank_group_is_part(cards, rank);
    } else if kind == 6 {
        lemma_index_pairs_in_range(0, pairs.len(), j);
        let places = index_pairs(0, pairs.len())[j];
        let ranks = lemma_sized_groups_differ(cards, 2, places.0 as int, places.1 as int);
        lemma_two_rank_groups_are_part(cards, ranks.0, ranks.1);
    } else if kind == 7 {
        let rank = lemma_sized_group_has_rank(cards, 2, j);
        lemma_rank_group_is_part(cards, rank);
    } else {
        lemma_single_card_is_part(cards, j);
    }
}

/// Where every card is of one suit, the group of that suit holds them all.
proof fn lemma_all_of_one_suit(cards: Seq<Card>, suit: CardSuit)
    requires
        forall|i: int| 0 <= i < cards.len() ==> (#[trigger] cards[i]).suit == suit,
    ensures
        suit_group(cards, suit) == cards,
    decreases cards.len(),
{
    reveal(Seq::filter);
    if cards.len() > 0 {
        let rest = cards.drop_last();
        assert forall|i: int| 0 <= i < rest.len() implies (#[trigger] rest[i]).suit == suit by {
            assert(rest[i] == cards[i]);
        }
        lemma_all_of_one_suit(rest, suit);
        assert(cards[cards.len() - 1].suit == suit);
        assert(rest.push(cards.last()) =~= cards);
    }
    assert(suit_group(cards, suit) =~= cards);
}

} // verus!
