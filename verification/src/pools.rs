use crate::card::{Card, CardId};
use crate::counting::{lemma_filter_all, lemma_filter_one_out, lemma_filter_twice};
use crate::groups::card_values;
use vstd::multiset::Multiset;
use vstd::prelude::*;
use vstd::seq_lib::{to_multiset_build, to_multiset_remove};

verus! {

/// Whether one of the cards has the identifier `id`.
pub open spec fn holds_id(cards: Seq<Card>, id: CardId) -> bool {
    exists|i: int| 0 <= i < cards.len() && (#[trigger] cards[i]).id == id
}

/// Whether `i` is the first place of `cards` at which a card has the
/// identifier `id`.
pub open spec fn is_first_with_id(cards: Seq<Card>, id: CardId, i: int) -> bool {
    &&& 0 <= i < cards.len()
    &&& cards[i].id == id
    &&& forall|j: int| 0 <= j < i ==> (#[trigger] cards[j]).id != id
}

/// The first place of `cards` at which a card has the identifier `id`,
/// where there is one.
pub open spec fn first_with_id(cards: Seq<Card>, id: CardId) -> int {
    choose|i: int| is_first_with_id(cards, id, i)
}

/// Whether no card is held twice and no two cards share an identifier.
pub open spec fn ids_unique(pool: Multiset<Card>) -> bool {
    &&& forall|card: Card| pool.count(card) <= 1
    &&& forall|a: Card, b: Card|
        pool.count(a) > 0 && pool.count(b) > 0 && a.id == b.id ==> a == b
}

/// Whether each card has an identifier that no card before it has.
pub open spec fn ids_differ(cards: Seq<Card>) -> bool {
    forall|i: int, j: int|
        0 <= i < j < cards.len() ==> (#[trigger] cards[i]).id != (#[trigger] cards[j]).id
}

/// Cards that differ in their identifiers make a pool in which every
/// identifier is used once.
pub proof fn lemma_ids_differ_unique(cards: Seq<Card>)
    requires
        ids_differ(cards),
    ensures
        ids_unique(cards.to_multiset()),
{
    assert(cards.no_duplicates());
    cards.lemma_multiset_has_no_duplicates();
    cards.to_multiset_ensures();
    assert forall|a: Card, b: Card|
        cards.to_multiset().count(a) > 0 && cards.to_multiset().count(b) > 0 && a.id
            == b.id implies a == b by {
        let i = cards.index_of(a);
        let j = cards.index_of(b);
        if i < j {
            assert(cards[i].id != cards[j].id);
        }
        if j < i {
            assert(cards[j].id != cards[i].id);
        }
    }
}

/// In a list of cards whose pool uses every identifier once, each card has
/// an identifier that no card before it has.
pub proof fn lemma_ids_unique_differ(cards: Seq<Card>)
    requires
        ids_unique(cards.to_multiset()),
    ensures
        ids_differ(cards),
{
    cards.lemma_multiset_has_no_duplicates_conv();
    cards.to_multiset_ensures();
    assert forall|i: int, j: int| 0 <= i < j < cards.len() implies (#[trigger] cards[i]).id != (
    #[trigger] cards[j]).id by {
        assert(cards.contains(cards[i]));
        assert(cards.contains(cards[j]));
        assert(cards.to_multiset().count(cards[i]) > 0);
        assert(cards.to_multiset().count(cards[j]) > 0);
        assert(cards[i] != cards[j]);
    }
}

/// Whether each card has an identifier that no card before it has.
pub fn check_ids_differ(cards: &Vec<Card>) -> (differ: bool)
    ensures
        differ == ids_differ(cards@),
{
    let mut j: usize = 0;
    while j < cards.len()
        invariant
            j <= cards.len(),
            forall|a: int, b: int|
                0 <= a < b < j ==> (#[trigger] cards[a]).id != (#[trigger] cards[b]).id,
        decreases cards.len() - j,
    {
        let mut i: usize = 0;
        while i < j
            invariant
                i <= j < cards.len(),
                forall|a: int| 0 <= a < i ==> (#[trigger] cards[a]).id != cards[j as int].id,
            decreases j - i,
        {
            if cards[i].id == cards[j].id {
                return false;
            }
            i += 1;
        }
        j += 1;
    }
    true
}

/// There is only one first place.
pub proof fn lemma_first_with_id(cards: Seq<Card>, id: CardId, i: int)
    requires
        is_first_with_id(cards, id, i),
    ensures
        first_with_id(cards, id) == i,
        holds_id(cards, id),
{
    let chosen = first_with_id(cards, id);
    assert(is_first_with_id(cards, id, chosen));
    if chosen < i {
        assert(cards[chosen].id != id);
    }
    if i < chosen {
        assert(cards[i].id != id);
    }
}

/// Among the places that hold the identifier, one is the first.
pub proof fn lemma_first_exists(cards: Seq<Card>, id: CardId)
    requires
        holds_id(cards, id),
    ensures
        is_first_with_id(cards, id, first_with_id(cards, id)),
{
    let k = choose|k: int| 0 <= k < cards.len() && (#[trigger] cards[k]).id == id;
    lemma_first_before(cards, id, k);
}

/// Where a place holds the identifier, there is a first place that does.
proof fn lemma_first_before(cards: Seq<Card>, id: CardId, k: int)
    requires
        0 <= k < cards.len(),
        cards[k].id == id,
    ensures
        exists|i: int| is_first_with_id(cards, id, i),
    decreases k,
{
    if exists|j: int| 0 <= j < k && (#[trigger] cards[j]).id == id {
        let j = choose|j: int| 0 <= j < k && (#[trigger] cards[j]).id == id;
        lemma_first_before(cards, id, j);
    } else {
        assert(is_first_with_id(cards, id, k));
    }
}

/// The cards that are not among `taken`.
pub open spec fn not_among(taken: Seq<Card>) -> spec_fn(Card) -> bool {
    |card: Card| !taken.contains(card)
}

/// The cards other than `taken`.
pub open spec fn other_than(taken: Card) -> spec_fn(Card) -> bool {
    |card: Card| card != taken
}

/// The cards that are not among `taken`, in the order in which `cards`
/// holds them.
pub open spec fn without(cards: Seq<Card>, taken: Seq<Card>) -> Seq<Card> {
    cards.filter(not_among(taken))
}

/// Taking nothing leaves every card.
pub proof fn lemma_without_nothing(cards: Seq<Card>)
    ensures
        without(cards, Seq::<Card>::empty()) == cards,
{
    lemma_filter_all(cards, not_among(Seq::<Card>::empty()));
}

/// Where no card is held twice: taking one card more of those that are
/// left takes it out of its place and leaves the others where they are.
pub proof fn lemma_without_one_more(cards: Seq<Card>, taken: Seq<Card>, i: int)
    requires
        cards.no_duplicates(),
        0 <= i < without(cards, taken).len(),
    ensures
        without(cards, taken.push(without(cards, taken)[i])) == without(cards, taken).remove(i),
{
    let left = without(cards, taken);
    let card = left[i];
    let more = taken.push(card);
    assert forall|x: Card| #[trigger] not_among(more)(x) == (not_among(taken)(x) && other_than(
        card,
    )(x)) by {
        if x == card {
            assert(more[taken.len() as int] == x);
        } else if taken.contains(x) {
            let k = taken.index_of(x);
            assert(more[k] == x);
        } else if more.contains(x) {
            let k = more.index_of(x);
            assert(taken[k] == x);
        }
    }
    lemma_filter_twice(cards, not_among(taken), other_than(card), not_among(more));
    lemma_without_keeps_apart(cards, taken);
    assert forall|j: int| 0 <= j < left.len() && j != i implies other_than(card)(
        #[trigger] left[j],
    ) by {
        if j < i {
            assert(left[j] != left[i]);
        } else {
            assert(left[i] != left[j]);
        }
    }
    lemma_filter_one_out(left, other_than(card), i);
}

/// Where no card is held twice, none is held twice among those that are
/// left.
pub proof fn lemma_without_keeps_apart(cards: Seq<Card>, taken: Seq<Card>)
    requires
        cards.no_duplicates(),
    ensures
        without(cards, taken).no_duplicates(),
{
    let left = without(cards, taken);
    assert forall|i: int, j: int| 0 <= i < j < left.len() implies left[i] != left[j] by {
        crate::counting::lemma_filter_keeps_order(cards, not_among(taken), i, j);
    }
}

/// Taking a card out of one list and putting it at the end of another
/// leaves the cards that the two lists hold together as they were.
pub proof fn lemma_move_keeps_cards(from: Seq<Card>, to: Seq<Card>, i: int)
    requires
        0 <= i < from.len(),
    ensures
        from.remove(i).to_multiset().add(to.push(from[i]).to_multiset()) == from.to_multiset().add(
            to.to_multiset(),
        ),
        from.remove(i).len() + to.push(from[i]).len() == from.len() + to.len(),
        forall|card: Card|
            #![trigger from.remove(i).to_multiset().count(card)]
            #![trigger to.push(from[i]).to_multiset().count(card)]
            from.remove(i).to_multiset().count(card) + to.push(from[i]).to_multiset().count(card)
                == from.to_multiset().count(card) + to.to_multiset().count(card),
{
    broadcast use vstd::multiset::group_multiset_axioms;

    to_multiset_remove(from, i);
    to_multiset_build(to, from[i]);
    from.to_multiset_ensures();
    assert(from.contains(from[i]));
    assert(from.to_multiset().count(from[i]) > 0);
    assert(from.remove(i).to_multiset().add(to.push(from[i]).to_multiset())
        =~= from.to_multiset().add(to.to_multiset()));
}

/// The place of the first card with the identifier `card_id`, if there is
/// one.
pub fn find_card(cards: &Vec<Card>, card_id: CardId) -> (place: Option<usize>)
    ensures
        match place {
            Some(i) => is_first_with_id(cards@, card_id, i as int),
            None => !holds_id(cards@, card_id),
        },
{
    let mut i: usize = 0;
    while i < cards.len()
        invariant
            i <= cards.len(),
            forall|j: int| 0 <= j < i ==> (#[trigger] cards[j]).id != card_id,
        decreases cards.len() - i,
    {
        if cards[i].id == card_id {
            return Some(i);
        }
        i += 1;
    }
    None
}

/// Moves the first card with the identifier `card_id` from `from` to the
/// end of `to`. `from` must hold such a card.
pub fn move_card(from: &mut Vec<Card>, to: &mut Vec<Card>, card_id: CardId)
    requires
        holds_id(old(from)@, card_id),
    ensures
        final(from)@ == old(from)@.remove(first_with_id(old(from)@, card_id)),
        final(to)@ == old(to)@.push(old(from)@[first_with_id(old(from)@, card_id)]),
{
    match find_card(from, card_id) {
        Some(i) => {
            proof {
                lemma_first_with_id(from@, card_id, i as int);
            }
            let card = from.remove(i);
            to.push(card);
        },
        None => {},
    }
}

/// Moves every card of `from` to the end of `to`, in order.
pub fn move_all(from: &mut Vec<Card>, to: &mut Vec<Card>)
    ensures
        final(from)@ == Seq::<Card>::empty(),
        final(to)@ == old(to)@ + old(from)@,
{
    let mut i: usize = 0;
    while i < from.len()
        invariant
            i <= from.len(),
            from@ == old(from)@,
            to@ == old(to)@ + from@.take(i as int),
        decreases from.len() - i,
    {
        to.push(from[i]);
        assert(to@ =~= old(to)@ + from@.take(i + 1));
        i += 1;
    }
    assert(from@.take(from.len() as int) =~= from@);
    from.clear();
}

/// Adds a copy of every card of `from` to the end of `to`, in order.
pub fn push_all(to: &mut Vec<Card>, from: &Vec<Card>)
    ensures
        final(to)@ == old(to)@ + from@,
{
    let mut i: usize = 0;
    assert(to@ =~= old(to)@ + from@.take(0));
    while i < from.len()
        invariant
            i <= from.len(),
            to@ == old(to)@ + from@.take(i as int),
        decreases from.len() - i,
    {
        to.push(from[i]);
        assert(to@ =~= old(to)@ + from@.take(i + 1));
        i += 1;
    }
    assert(from@.take(from.len() as int) =~= from@);
}

/// Borrows every card of the list, in order.
pub fn borrow_all<'a>(cards: &'a Vec<Card>) -> (borrowed: Vec<&'a Card>)
    ensures
        card_values(borrowed@) == cards@,
{
    let mut borrowed: Vec<&'a Card> = Vec::new();
    let mut i: usize = 0;
    while i < cards.len()
        invariant
            i <= cards.len(),
            borrowed.len() == i,
            forall|j: int| 0 <= j < i ==> *(#[trigger] borrowed[j]) == cards[j],
        decreases cards.len() - i,
    {
        borrowed.push(&cards[i]);
        i += 1;
    }
    assert(card_values(borrowed@) =~= cards@);
    borrowed
}

} // verus!
