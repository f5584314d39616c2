use crate::card::Card;
use crate::counting::{is_part_of, lemma_occurrences_push, lemma_part_by_occurrences, occurrences};
use crate::groups::{
    card_values, copy_cards, group_by_rank, group_by_suit, group_values, groups_of_size,
    join_groups, keep_groups_of_size, lemma_rank_group_is_part, lemma_sized_group_has_rank,
    lemma_sized_group_has_suit, lemma_sized_groups_differ, lemma_sorted_is_permutation,
    lemma_suit_group_is_part, lemma_two_rank_groups_are_part, rank_groups, sorted_by_rank,
    suit_groups,
};
use crate::pairing::{index_pairs, lemma_index_pairs_in_range, pair_combinations, pair_values};
use crate::straight::{find_runs, lemma_straight_run_is_part, straight_runs};
use vstd::prelude::*;

verus! {

/// A pair of score components.
#[derive(Clone, Copy, Debug, PartialEq, Eq, Structural)]
pub struct ChipsAndMult {
    pub mult: u32,
    pub chips: u32,
}

/// The types of hands, from the lowest to the highest, followed by the
/// three secret ones.
#[derive(Clone, Copy, Debug, PartialEq, Eq, Structural, Hash)]
pub enum HandType {
    HighCard,
    Pair,
    TwoPair,
    ThreeOfAKind,
    Straight,
    Flush,
    FullHouse,
    FourOfAKind,
    StraightFlush,
    RoyalFlush,
    // Secret
    FiveOfAKind,
    FlushHouse,
    FlushFive,
}

/// The level that each hand type has reached. A hand type that was never
/// raised is at level 0.
#[derive(Clone, Copy, Debug)]
pub struct HandLevels {
    levels: [u8; 13],
}

impl HandLevels {
    /// The level of `hand` in this table.
    pub closed spec fn level(&self, hand: HandType) -> nat {
        self.levels[hand.spec_index()] as nat
    }

    /// The table in which every hand type is at level 0.
    pub fn new() -> (table: Self)
        ensures
            forall|hand: HandType| table.level(hand) == 0,
    {
        HandLevels { levels: [0u8; 13] }
    }

    /// The level of `hand` in this table.
    pub fn get(&self, hand: &HandType) -> (level: u8)
        ensures
            level == self.level(*hand),
    {
        self.levels[hand.index()]
    }

    /// Puts `hand` at `level` and leaves the other hand types where they
    /// are.
    pub fn set(&mut self, hand: &HandType, level: u8)
        ensures
            final(self).level(*hand) == level,
            forall|other: HandType|
                other != *hand ==> final(self).level(other) == old(self).level(other),
    {
        self.levels[hand.index()] = level;
    }
}

/// The hands that a list of hand types with borrowed cards stands for.
pub open spec fn hand_values(hands: Seq<(HandType, Vec<&Card>)>) -> Seq<(HandType, Seq<Card>)> {
    hands.map_values(|hand: (HandType, Vec<&Card>)| (hand.0, card_values(hand.1@)))
}

/// One hand of type `hand` for each group, in the order of the groups.
pub open spec fn labelled(hand: HandType, groups: Seq<Seq<Card>>) -> Seq<(HandType, Seq<Card>)> {
    groups.map_values(|group: Seq<Card>| (hand, group))
}

/// Every way of putting two of the pairs together: the cards of the first
/// followed by the cards of the second, in the order in which `index_pairs`
/// lists the two places.
pub open spec fn two_pairs(pairs: Seq<Seq<Card>>) -> Seq<Seq<Card>> {
    index_pairs(0, pairs.len()).map_values(
        |places: (nat, nat)| pairs[places.0 as int] + pairs[places.1 as int],
    )
}

/// The group `first` followed by each of the groups `seconds` in turn, in
/// the order of `seconds`.
pub open spec fn with_each(first: Seq<Card>, seconds: Seq<Seq<Card>>) -> Seq<Seq<Card>> {
    seconds.map_values(|second: Seq<Card>| first + second)
}

/// Every full house: each group of three followed by each group of two.
/// Those of the first group of three come first, in the order of the
/// groups of two.
pub open spec fn full_houses(triples: Seq<Seq<Card>>, pairs: Seq<Seq<Card>>) -> Seq<Seq<Card>> {
    triples.map_values(|triple: Seq<Card>| with_each(triple, pairs)).flatten()
}

/// Each card alone, in the order of `cards`.
pub open spec fn single_cards(cards: Seq<Card>) -> Seq<Seq<Card>> {
    Seq::new(cards.len(), |i: int| seq![cards[i]])
}

/// The suit groups of exactly five cards, in the order of the suits.
pub open spec fn flushes(cards: Seq<Card>) -> Seq<Seq<Card>> {
    groups_of_size(suit_groups(cards), 5)
}

/// The rank groups of exactly `size` cards, from the highest rank down.
pub open spec fn of_a_kind(cards: Seq<Card>, size: nat) -> Seq<Seq<Card>> {
    groups_of_size(rank_groups(cards), size)
}

/// Every hand that can be made of `cards`, with the cards that make it,
/// in the order in which hands are looked for when cards are played: the
/// fives of a kind, the fours of a kind, the flushes, the straights, the
/// full houses, the threes of a kind, the two pairs, the pairs, and each
/// card as a high card. One set of cards may stand under several hand
/// types. The hand that the cards are played as is always among them.
pub open spec fn possible_hands(cards: Seq<Card>) -> Seq<(HandType, Seq<Card>)> {
    labelled(HandType::FiveOfAKind, of_a_kind(cards, 5)) + labelled(
        HandType::FourOfAKind,
        of_a_kind(cards, 4),
    ) + labelled(HandType::Flush, flushes(cards)) + labelled(
        HandType::Straight,
        straight_runs(cards),
    ) + labelled(HandType::FullHouse, full_houses(of_a_kind(cards, 3), of_a_kind(cards, 2)))
        + labelled(HandType::ThreeOfAKind, of_a_kind(cards, 3)) + labelled(
        HandType::TwoPair,
        two_pairs(of_a_kind(cards, 2)),
    ) + labelled(HandType::Pair, of_a_kind(cards, 2)) + labelled(
        HandType::HighCard,
        single_cards(cards),
    )
}

/// The hand that `cards` are played as, with the cards that make it.
///
/// The first of these that applies decides: five of a kind, four of a
/// kind, a flush, a straight, a three of a kind (a full house when there is
/// a pair beside it), a pair (two pair when there is a second one), and at
/// last the highest card. Where several groups of cards qualify, the one of
/// the highest rank is taken, for a flush the one of the first suit, and
/// for a straight the run that starts highest.
pub open spec fn best_hand(cards: Seq<Card>) -> (HandType, Seq<Card>) {
    let fives = of_a_kind(cards, 5);
    let fours = of_a_kind(cards, 4);
    let flushes = flushes(cards);
    let runs = straight_runs(cards);
    let triples = of_a_kind(cards, 3);
    let pairs = of_a_kind(cards, 2);
    if fives.len() > 0 {
        (HandType::FiveOfAKind, fives[0])
    } else if fours.len() > 0 {
        (HandType::FourOfAKind, fours[0])
    } else if flushes.len() > 0 {
        (HandType::Flush, flushes[0])
    } else if runs.len() > 0 {
        (HandType::Straight, runs[0])
    } else if triples.len() > 0 {
        if pairs.len() > 0 {
            (HandType::FullHouse, triples[0] + pairs[0])
        } else {
            (HandType::ThreeOfAKind, triples[0])
        }
    } else if pairs.len() > 0 {
        if pairs.len() > 1 {
            (HandType::TwoPair, pairs[0] + pairs[1])
        } else {
            (HandType::Pair, pairs[0])
        }
    } else {
        (HandType::HighCard, seq![sorted_by_rank(cards)[0]])
    }
}

/// The cards of `first` followed by the cards of `second`.
pub fn append_cards<'a>(first: &Vec<&'a Card>, second: &Vec<&'a Card>) -> (both: Vec<&'a Card>)
    ensures
        both@ == first@ + second@,
        card_values(both@) == card_values(first@) + card_values(second@),
{
    let mut both = copy_cards(first);
    let mut i: usize = 0;
    while i < second.len()
        invariant
            i <= second.len(),
            both@ == first@ + second@.take(i as int),
        decreases second.len() - i,
    {
        both.push(second[i]);
        assert(both@ =~= first@ + second@.take(i + 1));
        i += 1;
    }
    assert(second@.take(second.len() as int) =~= second@);
    assert(card_values(both@) =~= card_values(first@) + card_values(second@));
    both
}

/// Every way of putting two of the pairs together.
fn join_pairs<'a>(pairs: &Vec<Vec<&'a Card>>) -> (joined: Vec<Vec<&'a Card>>)
    requires
        pairs.len() <= 13,
    ensures
        group_values(joined@) == two_pairs(group_values(pairs@)),
{
    let places = pair_combinations(pairs.len());
    let ghost listed = index_pairs(0, pairs.len() as nat);
    let mut joined: Vec<Vec<&'a Card>> = Vec::new();
    let mut k: usize = 0;
    while k < places.len()
        invariant
            k <= places.len(),
            listed == index_pairs(0, pairs.len() as nat),
            pair_values(places@) == listed,
            joined.len() == k,
            forall|m: int|
                0 <= m < k ==> card_values(#[trigger] joined[m]@) == group_values(
                    pairs@,
                )[listed[m].0 as int] + group_values(pairs@)[listed[m].1 as int],
        decreases places.len() - k,
    {
        let (i, j) = places[k];
        proof {
            assert(pair_values(places@)[k as int] == (i as nat, j as nat));
            lemma_index_pairs_in_range(0, pairs.len() as nat, k as int);
        }
        let both = append_cards(&pairs[i], &pairs[j]);
        joined.push(both);
        k += 1;
    }
    assert(group_values(joined@) =~= two_pairs(group_values(pairs@)));
    joined
}

/// Every full house: each group of three followed by each group of two.
pub fn join_each<'a>(triples: &Vec<Vec<&'a Card>>, pairs: &Vec<Vec<&'a Card>>) -> (joined: Vec<
    Vec<&'a Card>,
>)
    ensures
        group_values(joined@) == full_houses(group_values(triples@), group_values(pairs@)),
{
    let ghost seconds = group_values(pairs@);
    let ghost rows = group_values(triples@).map_values(
        |triple: Seq<Card>| with_each(triple, seconds),
    );
    let mut joined: Vec<Vec<&'a Card>> = Vec::new();
    let mut i: usize = 0;
    assert(group_values(joined@) =~= rows.take(0).flatten());
    while i < triples.len()
        invariant
            i <= triples.len(),
            seconds == group_values(pairs@),
            rows == group_values(triples@).map_values(
                |triple: Seq<Card>| with_each(triple, seconds),
            ),
            group_values(joined@) == rows.take(i as int).flatten(),
        decreases triples.len() - i,
    {
        let ghost before = group_values(joined@);
        let ghost row = rows[i as int];
        let mut j: usize = 0;
        assert(group_values(joined@) =~= before + row.take(0));
        while j < pairs.len()
            invariant
                j <= pairs.len(),
                i < triples.len(),
                seconds == group_values(pairs@),
                row == with_each(group_values(triples@)[i as int], seconds),
                group_values(joined@) == before + row.take(j as int),
            decreases pairs.len() - j,
        {
            let ghost so_far = joined@;
            let both = append_cards(&triples[i], &pairs[j]);
            joined.push(both);
            assert(group_values(joined@) =~= group_values(so_far).push(row[j as int]));
            assert(before + row.take(j + 1) =~= (before + row.take(j as int)).push(row[j as int]));
            j += 1;
        }
        proof {
            assert(row.take(pairs.len() as int) =~= row);
            rows.lemma_take_succ_push(i as int);
            rows.take(i as int).lemma_flatten_push(row);
        }
        i += 1;
    }
    proof {
        assert(rows.take(triples.len() as int) =~= rows);
    }
    joined
}

/// Each card in a group of its own.
pub fn single_groups<'a>(cards: &Vec<&'a Card>) -> (groups: Vec<Vec<&'a Card>>)
    ensures
        group_values(groups@) == single_cards(card_values(cards@)),
{
    let mut groups: Vec<Vec<&'a Card>> = Vec::new();
    let mut i: usize = 0;
    while i < cards.len()
        invariant
            i <= cards.len(),
            groups.len() == i,
            forall|m: int| 0 <= m < i ==> (#[trigger] groups[m])@ == seq![cards[m]],
        decreases cards.len() - i,
    {
        let mut group: Vec<&'a Card> = Vec::new();
        group.push(cards[i]);
        assert(group@ =~= seq![cards[i as int]]);
        groups.push(group);
        i += 1;
    }
    assert(group_values(groups@) =~= single_cards(card_values(cards@))) by {
        assert forall|m: int| 0 <= m < groups.len() implies #[trigger] group_values(groups@)[m]
            == single_cards(card_values(cards@))[m] by {
            assert(card_values(groups[m]@) =~= seq![*cards[m]]);
        }
    }
    groups
}

/// Adds one hand of type `hand` for each group to the end of `hands`.
pub fn push_hands<'a>(
    hands: &mut Vec<(HandType, Vec<&'a Card>)>,
    hand: HandType,
    groups: &Vec<Vec<&'a Card>>,
)
    ensures
        hand_values(final(hands)@) == hand_values(old(hands)@) + labelled(
            hand,
            group_values(groups@),
        ),
{
    let ghost before = hand_values(hands@);
    let ghost added = labelled(hand, group_values(groups@));
    let mut i: usize = 0;
    assert(hand_values(hands@) =~= before + added.take(0));
    while i < groups.len()
        invariant
            i <= groups.len(),
            added == labelled(hand, group_values(groups@)),
            hand_values(hands@) == before + added.take(i as int),
        decreases groups.len() - i,
    {
        let ghost so_far = hands@;
        let group = copy_cards(&groups[i]);
        hands.push((hand, group));
        assert(hand_values(hands@) =~= hand_values(so_far).push(added[i as int]));
        assert(before + added.take(i + 1) =~= (before + added.take(i as int)).push(
            added[i as int],
        ));
        i += 1;
    }
    assert(added.take(groups.len() as int) =~= added);
}

impl HandType {
    /// The place of the hand type in the list of hand types.
    pub open spec fn spec_index(self) -> int {
        match self {
            HandType::HighCard => 0,
            HandType::Pair => 1,
            HandType::TwoPair => 2,
            HandType::ThreeOfAKind => 3,
            HandType::Straight => 4,
            HandType::Flush => 5,
            HandType::FullHouse => 6,
            HandType::FourOfAKind => 7,
            HandType::StraightFlush => 8,
            HandType::RoyalFlush => 9,
            HandType::FiveOfAKind => 10,
            HandType::FlushHouse => 11,
            HandType::FlushFive => 12,
        }
    }

    /// Whether the hand type has an entry in the scoring table. The three
    /// secret hand types have none: they score nothing at any level.
    pub open spec fn is_scored(self) -> bool {
        self.spec_index() <= 9
    }

    /// The chips of the hand type at level 0.
    pub open spec fn base_chips(self) -> nat {
        match self {
            HandType::HighCard => 5,
            HandType::Pair => 10,
            HandType::TwoPair => 20,
            HandType::ThreeOfAKind => 30,
            HandType::Straight => 40,
            HandType::Flush => 35,
            HandType::FullHouse => 40,
            HandType::FourOfAKind => 60,
            HandType::StraightFlush => 100,
            HandType::RoyalFlush => 100,
            _ => 0,
        }
    }

    /// The chips that each level adds.
    pub open spec fn chips_per_level(self) -> nat {
        match self {
            HandType::HighCard => 5,
            HandType::Pair => 15,
            HandType::TwoPair => 20,
            HandType::ThreeOfAKind => 20,
            HandType::Straight => 30,
            HandType::Flush => 15,
            HandType::FullHouse => 25,
            HandType::FourOfAKind => 30,
            HandType::StraightFlush => 40,
            HandType::RoyalFlush => 40,
            _ => 0,
        }
    }

    /// The multiplier of the hand type at level 0.
    pub open spec fn base_mult(self) -> nat {
        match self {
            HandType::HighCard => 1,
            HandType::Pair => 2,
            HandType::TwoPair => 2,
            HandType::ThreeOfAKind => 3,
            HandType::Straight => 4,
            HandType::Flush => 4,
            HandType::FullHouse => 4,
            HandType::FourOfAKind => 7,
            HandType::StraightFlush => 8,
            HandType::RoyalFlush => 8,
            _ => 0,
        }
    }

    /// The multiplier that each level adds.
    pub open spec fn mult_per_level(self) -> nat {
        match self {
            HandType::HighCard => 1,
            HandType::Pair => 1,
            HandType::TwoPair => 1,
            HandType::ThreeOfAKind => 2,
            HandType::Straight => 3,
            HandType::Flush => 2,
            HandType::FullHouse => 2,
            HandType::FourOfAKind => 3,
            HandType::StraightFlush => 4,
            HandType::RoyalFlush => 4,
            _ => 0,
        }
    }

    /// The chips of the hand type at `level`.
    pub open spec fn chips_at(self, level: nat) -> nat {
        self.base_chips() + level * self.chips_per_level()
    }

    /// The multiplier of the hand type at `level`.
    pub open spec fn mult_at(self, level: nat) -> nat {
        self.base_mult() + level * self.mult_per_level()
    }

    /// The place of the hand type in the list of hand types.
    pub fn index(&self) -> (i: usize)
        ensures
            i == self.spec_index(),
            i < 13,
    {
        match self {
            HandType::HighCard => 0,
            HandType::Pair => 1,
            HandType::TwoPair => 2,
            HandType::ThreeOfAKind => 3,
            HandType::Straight => 4,
            HandType::Flush => 5,
            HandType::FullHouse => 6,
            HandType::FourOfAKind => 7,
            HandType::StraightFlush => 8,
            HandType::RoyalFlush => 9,
            HandType::FiveOfAKind => 10,
            HandType::FlushHouse => 11,
            HandType::FlushFive => 12,
        }
    }

    /// The chips and the multiplier of the hand type at the level that
    /// `levels` gives it.
    pub fn get_value(&self, levels: &HandLevels) -> (value: (u32, u32))
        ensures
            value.0 == self.chips_at(levels.level(*self)),
            value.1 == self.mult_at(levels.level(*self)),
            value.0 <= 10300,
            value.1 <= 1028,
    {
        let level: u32 = levels.get(self) as u32;
        match self {
            HandType::HighCard => (5 + level * 5, 1 + level * 1),
            HandType::Pair => (10 + level * 15, 2 + level * 1),
            HandType::TwoPair => (20 + level * 20, 2 + level * 1),
            HandType::ThreeOfAKind => (30 + level * 20, 3 + level * 2),
            HandType::Straight => (40 + level * 30, 4 + level * 3),
            HandType::Flush => (35 + level * 15, 4 + level * 2),
            HandType::FullHouse => (40 + level * 25, 4 + level * 2),
            HandType::FourOfAKind => (60 + level * 30, 7 + level * 3),
            HandType::StraightFlush => (100 + level * 40, 8 + level * 4),
            HandType::RoyalFlush => (100 + level * 40, 8 + level * 4),
            _ => (0, 0),
        }
    }

    /// Every hand that can be made of `cards`, with the cards that make it.
    /// Each of them is made of at least one card and of cards among `cards`
    /// only. Where there is a card, the hand that the cards are played as is
    /// one of them.
    pub fn get_possible_hands<'a>(cards: Vec<&'a Card>) -> (hands: Vec<(HandType, Vec<&'a Card>)>)
        ensures
            hand_values(hands@) == possible_hands(card_values(cards@)),
            cards.len() > 0 ==> hand_values(hands@).contains(best_hand(card_values(cards@))),
            forall|i: int|
                0 <= i < hands.len() ==> (#[trigger] hands[i]).1.len() > 0 && is_part_of(
                    card_values(hands[i].1@),
                    card_values(cards@),
                ),
    {
        proof {
            let listed = possible_hands(card_values(cards@));
            if cards.len() > 0 {
                crate::hand_facts::lemma_best_hand_is_listed(card_values(cards@));
            }
            assert forall|i: int| 0 <= i < listed.len() implies (#[trigger] listed[i]).1.len() > 0
                && is_part_of(listed[i].1, card_values(cards@)) by {
                crate::hand_facts::lemma_possible_hand_is_part(card_values(cards@), i);
            }
        }
        let by_suit = group_by_suit(&cards);
        let by_rank = group_by_rank(&cards);
        let sorted = join_groups(&by_rank);
        let fives = keep_groups_of_size(&by_rank, 5);
        let fours = keep_groups_of_size(&by_rank, 4);
        let flushes = keep_groups_of_size(&by_suit, 5);
        let runs = find_runs(&sorted);
        let triples = keep_groups_of_size(&by_rank, 3);
        let pairs = keep_groups_of_size(&by_rank, 2);
        let full_houses = join_each(&triples, &pairs);
        proof {
            rank_groups(card_values(cards@)).lemma_filter_len(crate::groups::of_size(2));
            assert(pairs.len() == group_values(pairs@).len());
        }
        let two_pairs = join_pairs(&pairs);
        let singles = single_groups(&cards);
        let mut hands: Vec<(HandType, Vec<&'a Card>)> = Vec::new();
        assert(hand_values(hands@) =~= Seq::empty());
        push_hands(&mut hands, HandType::FiveOfAKind, &fives);
        push_hands(&mut hands, HandType::FourOfAKind, &fours);
        push_hands(&mut hands, HandType::Flush, &flushes);
        push_hands(&mut hands, HandType::Straight, &runs);
        push_hands(&mut hands, HandType::FullHouse, &full_houses);
        push_hands(&mut hands, HandType::ThreeOfAKind, &triples);
        push_hands(&mut hands, HandType::TwoPair, &two_pairs);
        push_hands(&mut hands, HandType::Pair, &pairs);
        push_hands(&mut hands, HandType::HighCard, &singles);
        assert(hand_values(hands@) =~= possible_hands(card_values(cards@)));
        assert forall|i: int| 0 <= i < hands.len() implies (#[trigger] hands[i]).1.len() > 0
            && is_part_of(card_values(hands[i].1@), card_values(cards@)) by {
            assert(hand_values(hands@)[i].1 == card_values(hands[i].1@));
        }
        hands
    }

    /// The hand that `cards` are played as, with the cards that make it.
    /// There must be a card to classify.
    pub fn from_cards<'a>(cards: Vec<&'a Card>) -> (hand: (Self, Vec<&'a Card>))
        requires
            cards.len() > 0,
        ensures
            hand.0 == best_hand(card_values(cards@)).0,
            card_values(hand.1@) == best_hand(card_values(cards@)).1,
            hand.1.len() > 0,
            is_part_of(card_values(hand.1@), card_values(cards@)),
    {
        proof {
            lemma_best_hand_is_part(card_values(cards@));
        }
        let by_rank = group_by_rank(&cards);
        let fives = keep_groups_of_size(&by_rank, 5);
        if fives.len() > 0 {
            return (HandType::FiveOfAKind, copy_cards(&fives[0]));
        }
        let fours = keep_groups_of_size(&by_rank, 4);
        if fours.len() > 0 {
            return (HandType::FourOfAKind, copy_cards(&fours[0]));
        }
        let by_suit = group_by_suit(&cards);
        let flushes = keep_groups_of_size(&by_suit, 5);
        if flushes.len() > 0 {
            return (HandType::Flush, copy_cards(&flushes[0]));
        }
        let sorted = join_groups(&by_rank);
        let runs = find_runs(&sorted);
        if runs.len() > 0 {
            return (HandType::Straight, copy_cards(&runs[0]));
        }
        let triples = keep_groups_of_size(&by_rank, 3);
        let pairs = keep_groups_of_size(&by_rank, 2);
        if triples.len() > 0 {
            if pairs.len() > 0 {
                return (HandType::FullHouse, append_cards(&triples[0], &pairs[0]));
            }
            return (HandType::ThreeOfAKind, copy_cards(&triples[0]));
        }
        if pairs.len() > 0 {
            if pairs.len() > 1 {
                return (HandType::TwoPair, append_cards(&pairs[0], &pairs[1]));
            }
            return (HandType::Pair, copy_cards(&pairs[0]));
        }
        proof {
            lemma_sorted_is_permutation(card_values(cards@));
        }
        let mut highest: Vec<&'a Card> = Vec::new();
        highest.push(sorted[0]);
        assert(card_values(highest@) =~= seq![sorted_by_rank(card_values(cards@))[0]]);
        (HandType::HighCard, highest)
    }
}

/// Whatever the cards, as long as there is one: the hand that they are
/// played as is made of at least one card, and of cards among them only,
/// none taken more often than the cards hold it.
pub proof fn lemma_best_hand_is_part(cards: Seq<Card>)
    requires
        cards.len() > 0,
    ensures
        best_hand(cards).1.len() > 0,
        is_part_of(best_hand(cards).1, cards),
{
    let fives = of_a_kind(cards, 5);
    let fours = of_a_kind(cards, 4);
    let flushes = flushes(cards);
    let runs = straight_runs(cards);
    let triples = of_a_kind(cards, 3);
    let pairs = of_a_kind(cards, 2);
    if fives.len() > 0 {
        let rank = lemma_sized_group_has_rank(cards, 5, 0);
        lemma_rank_group_is_part(cards, rank);
    } else if fours.len() > 0 {
        let rank = lemma_sized_group_has_rank(cards, 4, 0);
        lemma_rank_group_is_part(cards, rank);
    } else if flushes.len() > 0 {
        let suit = lemma_sized_group_has_suit(cards, 5, 0);
        lemma_suit_group_is_part(cards, suit);
    } else if runs.len() > 0 {
        lemma_straight_run_is_part(cards, 0);
    } else if triples.len() > 0 {
        let triple = lemma_sized_group_has_rank(cards, 3, 0);
        if pairs.len() > 0 {
            let pair = lemma_sized_group_has_rank(cards, 2, 0);
            lemma_two_rank_groups_are_part(cards, triple, pair);
        } else {
            lemma_rank_group_is_part(cards, triple);
        }
    } else if pairs.len() > 0 {
        if pairs.len() > 1 {
            let ranks = lemma_sized_groups_differ(cards, 2, 0, 1);
            lemma_two_rank_groups_are_part(cards, ranks.0, ranks.1);
        } else {
            let rank = lemma_sized_group_has_rank(cards, 2, 0);
            lemma_rank_group_is_part(cards, rank);
        }
    } else {
        let sorted = sorted_by_rank(cards);
        lemma_sorted_is_permutation(cards);
        let highest = seq![sorted[0]];
        assert(highest =~= Seq::<Card>::empty().push(sorted[0]));
        sorted.to_multiset_ensures();
        assert(sorted.contains(sorted[0]));
        assert forall|x: Card| occurrences(highest, x) <= occurrences(cards, x) by {
            lemma_occurrences_push(Seq::<Card>::empty(), sorted[0], x);
            crate::counting::lemma_occurrences_empty(Seq::<Card>::empty(), x);
        }
        lemma_part_by_occurrences(highest, cards);
    }
}

/// Raising the level of a hand type that the scoring table holds raises
/// both its chips and its multiplier.
pub proof fn lemma_value_grows_with_level(hand: HandType, lower: nat, higher: nat)
    requires
        hand.is_scored(),
        lower < higher,
    ensures
        hand.chips_at(lower) < hand.chips_at(higher),
        hand.mult_at(lower) < hand.mult_at(higher),
{
    assert(lower * hand.chips_per_level() < higher * hand.chips_per_level()) by (nonlinear_arith)
        requires
            lower < higher,
            hand.chips_per_level() > 0,
    ;
    assert(lower * hand.mult_per_level() < higher * hand.mult_per_level()) by (nonlinear_arith)
        requires
            lower < higher,
            hand.mult_per_level() > 0,
    ;
}

} // verus!
