use crate::card::{rank_at, Card, CardRank, CardSuit, CARD_SUITS};
use crate::counting::{
    is_part_of, lemma_filter_entry, lemma_filter_keeps_order, lemma_occurrences_concat,
    lemma_occurrences_empty, lemma_occurrences_filter, lemma_part_by_occurrences,
    lemma_same_by_occurrences, occurrences,
};
use vstd::prelude::*;

verus! {

/// The cards that a list of borrowed cards stands for.
pub open spec fn card_values(cards: Seq<&Card>) -> Seq<Card> {
    cards.map_values(|card: &Card| *card)
}

/// The groups of cards that a list of lists of borrowed cards stands for.
pub open spec fn group_values(groups: Seq<Vec<&Card>>) -> Seq<Seq<Card>> {
    groups.map_values(|group: Vec<&Card>| card_values(group@))
}

/// The cards of the rank `rank`.
pub open spec fn of_rank(rank: CardRank) -> spec_fn(Card) -> bool {
    |card: Card| card.rank == rank
}

/// The cards of the suit `suit`.
pub open spec fn of_suit(suit: CardSuit) -> spec_fn(Card) -> bool {
    |card: Card| card.suit == suit
}

/// The groups of exactly `size` cards.
pub open spec fn of_size(size: nat) -> spec_fn(Seq<Card>) -> bool {
    |group: Seq<Card>| group.len() == size
}

/// The cards of one rank, in the order in which `cards` holds them.
pub open spec fn rank_group(cards: Seq<Card>, rank: CardRank) -> Seq<Card> {
    cards.filter(of_rank(rank))
}

/// The cards of one suit, in the order in which `cards` holds them.
pub open spec fn suit_group(cards: Seq<Card>, suit: CardSuit) -> Seq<Card> {
    cards.filter(of_suit(suit))
}

/// The thirteen rank groups, from the kings down to the aces. A rank that
/// no card has gives an empty group.
pub open spec fn rank_groups(cards: Seq<Card>) -> Seq<Seq<Card>> {
    Seq::new(13, |k: int| rank_group(cards, rank_at(12 - k)))
}

/// The four suit groups, in the order of `CARD_SUITS`.
pub open spec fn suit_groups(cards: Seq<Card>) -> Seq<Seq<Card>> {
    Seq::new(4, |k: int| suit_group(cards, CARD_SUITS[k]))
}

/// The groups among `groups` that hold exactly `size` cards, in the same
/// order.
pub open spec fn groups_of_size(groups: Seq<Seq<Card>>, size: nat) -> Seq<Seq<Card>> {
    groups.filter(of_size(size))
}

/// The cards in descending order of rank: the kings first, the aces last.
/// Cards of one rank keep the order that they have in `cards`.
pub open spec fn sorted_by_rank(cards: Seq<Card>) -> Seq<Card> {
    rank_groups(cards).flatten()
}

/// The cards of one rank, in the order in which `cards` holds them.
pub fn cards_of_rank<'a>(cards: &Vec<&'a Card>, rank: CardRank) -> (group: Vec<&'a Card>)
    ensures
        card_values(group@) == rank_group(card_values(cards@), rank),
{
    let mut group: Vec<&'a Card> = Vec::new();
    let ghost all = card_values(cards@);
    let mut i: usize = 0;
    proof {
        all.take(0).lemma_filter_len(of_rank(rank));
        assert(card_values(group@) =~= rank_group(all.take(0), rank));
    }
    while i < cards.len()
        invariant
            i <= cards.len(),
            all == card_values(cards@),
            card_values(group@) == rank_group(all.take(i as int), rank),
        decreases cards.len() - i,
    {
        let card = cards[i];
        let ghost before = group@;
        proof {
            all.lemma_take_succ_push(i as int);
            all.take(i as int).lemma_filter_push(all[i as int], of_rank(rank));
        }
        if card.rank == rank {
            group.push(card);
            assert(card_values(group@) =~= card_values(before).push(*card));
        }
        i += 1;
    }
    proof {
        assert(all.take(cards.len() as int) =~= all);
    }
    group
}

/// The cards of one suit, in the order in which `cards` holds them.
pub fn cards_of_suit<'a>(cards: &Vec<&'a Card>, suit: CardSuit) -> (group: Vec<&'a Card>)
    ensures
        card_values(group@) == suit_group(card_values(cards@), suit),
{
    let mut group: Vec<&'a Card> = Vec::new();
    let ghost all = card_values(cards@);
    let mut i: usize = 0;
    proof {
        all.take(0).lemma_filter_len(of_suit(suit));
        assert(card_values(group@) =~= suit_group(all.take(0), suit));
    }
    while i < cards.len()
        invariant
            i <= cards.len(),
            all == card_values(cards@),
            card_values(group@) == suit_group(all.take(i as int), suit),
        decreases cards.len() - i,
    {
        let card = cards[i];
        let ghost before = group@;
        proof {
            all.lemma_take_succ_push(i as int);
            all.take(i as int).lemma_filter_push(all[i as int], of_suit(suit));
        }
        if card.suit == suit {
            group.push(card);
            assert(card_values(group@) =~= card_values(before).push(*card));
        }
        i += 1;
    }
    proof {
        assert(all.take(cards.len() as int) =~= all);
    }
    group
}

/// Sorts the cards into their thirteen rank groups, the kings first.
pub fn group_by_rank<'a>(cards: &Vec<&'a Card>) -> (groups: Vec<Vec<&'a Card>>)
    ensures
        group_values(groups@) == rank_groups(card_values(cards@)),
{
    let mut groups: Vec<Vec<&'a Card>> = Vec::new();
    let mut k: usize = 0;
    while k < 13
        invariant
            k <= 13,
            groups.len() == k,
            forall|j: int|
                0 <= j < k ==> card_values(#[trigger] groups[j]@) == rank_group(
                    card_values(cards@),
                    rank_at(12 - j),
                ),
        decreases 13 - k,
    {
        let group = cards_of_rank(cards, CardRank::from_order(12 - k));
        groups.push(group);
        k += 1;
    }
    assert(group_values(groups@) =~= rank_groups(card_values(cards@)));
    groups
}

/// Sorts the cards into their four suit groups, in the order of
/// `CARD_SUITS`.
pub fn group_by_suit<'a>(cards: &Vec<&'a Card>) -> (groups: Vec<Vec<&'a Card>>)
    ensures
        group_values(groups@) == suit_groups(card_values(cards@)),
{
    let mut groups: Vec<Vec<&'a Card>> = Vec::new();
    let mut k: usize = 0;
    while k < 4
        invariant
            k <= 4,
            groups.len() == k,
            forall|j: int|
                0 <= j < k ==> card_values(#[trigger] groups[j]@) == suit_group(
                    card_values(cards@),
                    CARD_SUITS[j],
                ),
        decreases 4 - k,
    {
        let group = cards_of_suit(cards, CARD_SUITS[k]);
        groups.push(group);
        k += 1;
    }
    assert(group_values(groups@) =~= suit_groups(card_values(cards@)));
    groups
}

/// A new list that borrows the same cards in the same order.
pub fn copy_cards<'a>(cards: &Vec<&'a Card>) -> (copy: Vec<&'a Card>)
    ensures
        copy@ == cards@,
{
    let mut copy: Vec<&'a Card> = Vec::new();
    let mut i: usize = 0;
    while i < cards.len()
        invariant
            i <= cards.len(),
            copy@ == cards@.take(i as int),
        decreases cards.len() - i,
    {
        copy.push(cards[i]);
        assert(copy@ =~= cards@.take(i + 1));
        i += 1;
    }
    assert(cards@.take(cards.len() as int) =~= cards@);
    copy
}

/// The groups that hold exactly `size` cards, in the order in which
/// `groups` holds them.
pub fn keep_groups_of_size<'a>(groups: &Vec<Vec<&'a Card>>, size: usize) -> (kept: Vec<
    Vec<&'a Card>,
>)
    ensures
        group_values(kept@) == groups_of_size(group_values(groups@), size as nat),
{
    let mut kept: Vec<Vec<&'a Card>> = Vec::new();
    let ghost all = group_values(groups@);
    let mut i: usize = 0;
    proof {
        all.take(0).lemma_filter_len(of_size(size as nat));
        assert(group_values(kept@) =~= groups_of_size(all.take(0), size as nat));
    }
    while i < groups.len()
        invariant
            i <= groups.len(),
            all == group_values(groups@),
            group_values(kept@) == groups_of_size(all.take(i as int), size as nat),
        decreases groups.len() - i,
    {
        let ghost before = kept@;
        proof {
            all.lemma_take_succ_push(i as int);
            all.take(i as int).lemma_filter_push(all[i as int], of_size(size as nat));
        }
        if groups[i].len() == size {
            let group = copy_cards(&groups[i]);
            kept.push(group);
            assert(group_values(kept@) =~= group_values(before).push(all[i as int]));
        }
        i += 1;
    }
    proof {
        assert(all.take(groups.len() as int) =~= all);
    }
    kept
}

/// Lays the groups out one after the other.
pub fn join_groups<'a>(groups: &Vec<Vec<&'a Card>>) -> (cards: Vec<&'a Card>)
    ensures
        card_values(cards@) == group_values(groups@).flatten(),
{
    let mut cards: Vec<&'a Card> = Vec::new();
    let ghost all = group_values(groups@);
    let mut i: usize = 0;
    proof {
        assert(card_values(cards@) =~= all.take(0).flatten());
    }
    while i < groups.len()
        invariant
            i <= groups.len(),
            all == group_values(groups@),
            card_values(cards@) == all.take(i as int).flatten(),
        decreases groups.len() - i,
    {
        let group = &groups[i];
        let ghost before = cards@;
        let mut j: usize = 0;
        while j < group.len()
            invariant
                j <= group.len(),
                cards@ == before + group@.take(j as int),
            decreases group.len() - j,
        {
            cards.push(group[j]);
            assert(cards@ =~= before + group@.take(j + 1));
            j += 1;
        }
        proof {
            assert(group@.take(group.len() as int) =~= group@);
            assert(card_values(cards@) =~= card_values(before) + all[i as int]);
            all.lemma_take_succ_push(i as int);
            all.take(i as int).lemma_flatten_push(all[i as int]);
        }
        i += 1;
    }
    proof {
        assert(all.take(groups.len() as int) =~= all);
    }
    cards
}

/// A card occurs among the first `k` rank groups laid end to end as often
/// as in `cards` if its rank is one of the `k` highest, and not at all
/// otherwise.
pub proof fn lemma_sorted_prefix_occurrences(cards: Seq<Card>, k: int, x: Card)
    requires
        0 <= k <= 13,
    ensures
        occurrences(rank_groups(cards).take(k).flatten(), x) == if x.rank.spec_order() >= 13 - k {
            occurrences(cards, x)
        } else {
            0
        },
    decreases k,
{
    let groups = rank_groups(cards);
    if k == 0 {
        assert(groups.take(0).flatten() =~= Seq::<Card>::empty());
        lemma_occurrences_empty(groups.take(0).flatten(), x);
    } else {
        lemma_sorted_prefix_occurrences(cards, k - 1, x);
        groups.lemma_take_succ_push(k - 1);
        groups.take(k - 1).lemma_flatten_push(groups[k - 1]);
        lemma_occurrences_concat(groups.take(k - 1).flatten(), groups[k - 1], x);
        lemma_occurrences_filter(cards, of_rank(rank_at(13 - k)), x);
    }
}

/// Sorting by rank moves the cards and neither adds nor drops one.
pub proof fn lemma_sorted_is_permutation(cards: Seq<Card>)
    ensures
        sorted_by_rank(cards).to_multiset() == cards.to_multiset(),
        sorted_by_rank(cards).len() == cards.len(),
{
    let groups = rank_groups(cards);
    assert(groups.take(13) =~= groups);
    assert forall|x: Card| occurrences(sorted_by_rank(cards), x) == occurrences(cards, x) by {
        lemma_sorted_prefix_occurrences(cards, 13, x);
    }
    lemma_same_by_occurrences(sorted_by_rank(cards), cards);
}

/// The cards of one rank are part of the cards.
pub proof fn lemma_rank_group_is_part(cards: Seq<Card>, rank: CardRank)
    ensures
        is_part_of(rank_group(cards, rank), cards),
{
    assert forall|x: Card| occurrences(rank_group(cards, rank), x) <= occurrences(cards, x) by {
        lemma_occurrences_filter(cards, of_rank(rank), x);
    }
    lemma_part_by_occurrences(rank_group(cards, rank), cards);
}

/// The cards of one suit are part of the cards.
pub proof fn lemma_suit_group_is_part(cards: Seq<Card>, suit: CardSuit)
    ensures
        is_part_of(suit_group(cards, suit), cards),
{
    assert forall|x: Card| occurrences(suit_group(cards, suit), x) <= occurrences(cards, x) by {
        lemma_occurrences_filter(cards, of_suit(suit), x);
    }
    lemma_part_by_occurrences(suit_group(cards, suit), cards);
}

/// The groups of two different ranks, laid end to end, are part of the
/// cards: no card is in both.
pub proof fn lemma_two_rank_groups_are_part(cards: Seq<Card>, first: CardRank, second: CardRank)
    requires
        first != second,
    ensures
        is_part_of(rank_group(cards, first) + rank_group(cards, second), cards),
{
    let both = rank_group(cards, first) + rank_group(cards, second);
    assert forall|x: Card| occurrences(both, x) <= occurrences(cards, x) by {
        lemma_occurrences_concat(rank_group(cards, first), rank_group(cards, second), x);
        lemma_occurrences_filter(cards, of_rank(first), x);
        lemma_occurrences_filter(cards, of_rank(second), x);
    }
    lemma_part_by_occurrences(both, cards);
}

/// The place of a rank among the rank groups, which start with the kings.
pub open spec fn rank_place(rank: CardRank) -> int {
    12 - rank.spec_order()
}

/// Each rank group of `size` cards is the group of a rank, and has that
/// many cards.
pub proof fn lemma_sized_group_has_rank(cards: Seq<Card>, size: nat, i: int) -> (rank: CardRank)
    requires
        0 <= i < groups_of_size(rank_groups(cards), size).len(),
    ensures
        groups_of_size(rank_groups(cards), size)[i] == rank_group(cards, rank),
        rank_group(cards, rank).len() == size,
{
    lemma_filter_entry(rank_groups(cards), of_size(size), i);
    let group = groups_of_size(rank_groups(cards), size)[i];
    let groups = rank_groups(cards);
    let k = choose|k: int| 0 <= k < groups.len() && #[trigger] groups[k] == group;
    rank_at(12 - k)
}

/// Two rank groups of `size` cards that are listed one after the other are
/// the groups of two different ranks.
pub proof fn lemma_sized_groups_differ(cards: Seq<Card>, size: nat, i: int, j: int) -> (ranks: (
    CardRank,
    CardRank,
))
    requires
        0 <= i < j < groups_of_size(rank_groups(cards), size).len(),
    ensures
        ranks.0 != ranks.1,
        rank_place(ranks.0) < rank_place(ranks.1),
        groups_of_size(rank_groups(cards), size)[i] == rank_group(cards, ranks.0),
        groups_of_size(rank_groups(cards), size)[j] == rank_group(cards, ranks.1),
{
    let groups = rank_groups(cards);
    let sized = groups_of_size(groups, size);
    lemma_filter_keeps_order(groups, of_size(size), i, j);
    let (a, b) = choose|a: int, b: int|
        0 <= a < b < groups.len() && #[trigger] groups[a] == sized[i] && #[trigger] groups[b]
            == sized[j];
    (rank_at(12 - a), rank_at(12 - b))
}

/// Each suit group of `size` cards is the group of a suit, and has that
/// many cards.
pub proof fn lemma_sized_group_has_suit(cards: Seq<Card>, size: nat, i: int) -> (suit: CardSuit)
    requires
        0 <= i < groups_of_size(suit_groups(cards), size).len(),
    ensures
        groups_of_size(suit_groups(cards), size)[i] == suit_group(cards, suit),
        suit_group(cards, suit).len() == size,
{
    lemma_filter_entry(suit_groups(cards), of_size(size), i);
    let group = groups_of_size(suit_groups(cards), size)[i];
    let groups = suit_groups(cards);
    let k = choose|k: int| 0 <= k < groups.len() && #[trigger] groups[k] == group;
    CARD_SUITS[k]
}

/// The first `k` rank groups laid end to end hold cards of the `k` highest
/// ranks only, and no card in them comes before a card of a higher rank.
pub proof fn lemma_sorted_prefix_descends(cards: Seq<Card>, k: int)
    requires
        0 <= k <= 13,
    ensures
        forall|i: int|
            0 <= i < rank_groups(cards).take(k).flatten().len() ==> (#[trigger] rank_groups(
                cards,
            ).take(k).flatten()[i]).rank.spec_order() >= 13 - k,
        forall|i: int, j: int|
            0 <= i < j < rank_groups(cards).take(k).flatten().len() ==> (#[trigger] rank_groups(
                cards,
            ).take(k).flatten()[i]).rank.spec_order() >= (#[trigger] rank_groups(cards).take(
                k,
            ).flatten()[j]).rank.spec_order(),
    decreases k,
{
    let groups = rank_groups(cards);
    if k == 0 {
        assert(groups.take(0).flatten() =~= Seq::<Card>::empty());
    } else {
        lemma_sorted_prefix_descends(cards, k - 1);
        let before = groups.take(k - 1).flatten();
        let group = groups[k - 1];
        groups.lemma_take_succ_push(k - 1);
        groups.take(k - 1).lemma_flatten_push(group);
        let joined = groups.take(k).flatten();
        assert(joined =~= before + group);
        assert forall|i: int| 0 <= i < group.len() implies (#[trigger] group[i]).rank.spec_order()
            == 13 - k by {
            cards.lemma_filter_pred(of_rank(rank_at(13 - k)), i);
        }
        assert forall|i: int| 0 <= i < joined.len() implies (#[trigger] joined[i]).rank.spec_order()
            >= 13 - k by {
            if i < before.len() {
                assert(joined[i] == before[i]);
            } else {
                assert(joined[i] == group[i - before.len()]);
            }
        }
        assert forall|i: int, j: int| 0 <= i < j < joined.len() implies (
        #[trigger] joined[i]).rank.spec_order() >= (#[trigger] joined[j]).rank.spec_order() by {
            if j < before.len() {
                assert(joined[i] == before[i]);
                assert(joined[j] == before[j]);
            } else if i < before.len() {
                assert(joined[i] == before[i]);
                assert(joined[j] == group[j - before.len()]);
            } else {
                assert(joined[i] == group[i - before.len()]);
                assert(joined[j] == group[j - before.len()]);
            }
        }
    }
}

/// Sorting by rank puts no card before a card of a higher rank.
pub proof fn lemma_sorted_descends(cards: Seq<Card>)
    ensures
        forall|i: int, j: int|
            0 <= i < j < sorted_by_rank(cards).len() ==> (#[trigger] sorted_by_rank(
                cards,
            )[i]).rank.spec_order() >= (#[trigger] sorted_by_rank(cards)[j]).rank.spec_order(),
{
    assert(rank_groups(cards).take(13) =~= rank_groups(cards));
    lemma_sorted_prefix_descends(cards, 13);
}

/// The group of a rank stands among the rank groups of its size.
pub proof fn lemma_rank_group_is_listed(cards: Seq<Card>, rank: CardRank)
    ensures
        groups_of_size(rank_groups(cards), rank_group(cards, rank).len()).contains(
            rank_group(cards, rank),
        ),
{
    let groups = rank_groups(cards);
    let place = rank_place(rank);
    assert(groups[place] == rank_group(cards, rank));
    groups.lemma_filter_contains(of_size(rank_group(cards, rank).len()), place);
}

/// The group of a suit stands among the suit groups of its size.
pub proof fn lemma_suit_group_is_listed(cards: Seq<Card>, suit: CardSuit)
    ensures
        groups_of_size(suit_groups(cards), suit_group(cards, suit).len()).contains(
            suit_group(cards, suit),
        ),
{
    let groups = suit_groups(cards);
    let place = suit.spec_index();
    assert(groups[place] == suit_group(cards, suit));
    groups.lemma_filter_contains(of_size(suit_group(cards, suit).len()), place);
}

} // verus!
