use crate::card::Card;
use crate::counting::{
    is_part_of, lemma_filter_entry, lemma_occurrences_concat, lemma_part_by_occurrences,
    occurrences,
};
use crate::groups::{card_values, group_values, lemma_sorted_is_permutation, sorted_by_rank};
use vstd::arithmetic::div_mod::{lemma_fundamental_div_mod, lemma_fundamental_div_mod_converse};
use vstd::prelude::*;

verus! {

/// The five cards that follow each other in `sorted` from place `start` on.
/// The list is read as a ring: after its last card comes its first one, so
/// that a run may pass from the aces at the end to the kings at the start.
pub open spec fn window(sorted: Seq<Card>, start: int) -> Seq<Card> {
    Seq::new(5, |k: int| sorted[(start + k) % (sorted.len() as int)])
}

/// Whether five cards follow each other down the circle of ranks: each
/// card's rank is the one that precedes the rank of the card before it.
pub open spec fn is_run(cards: Seq<Card>) -> bool {
    &&& cards.len() == 5
    &&& cards[1].rank == cards[0].rank.spec_straight_prev()
    &&& cards[2].rank == cards[1].rank.spec_straight_prev()
    &&& cards[3].rank == cards[2].rank.spec_straight_prev()
    &&& cards[4].rank == cards[3].rank.spec_straight_prev()
}

/// The lists of cards that are runs.
pub open spec fn forms_run() -> spec_fn(Seq<Card>) -> bool {
    |cards: Seq<Card>| is_run(cards)
}

/// One window for each place of `sorted`, in the order of the places. Fewer
/// than five cards have no window.
pub open spec fn windows(sorted: Seq<Card>) -> Seq<Seq<Card>> {
    if sorted.len() >= 5 {
        Seq::new(sorted.len(), |start: int| window(sorted, start))
    } else {
        Seq::empty()
    }
}

/// The windows of `sorted` that are runs, in the order of their places.
pub open spec fn runs_in(sorted: Seq<Card>) -> Seq<Seq<Card>> {
    windows(sorted).filter(forms_run())
}

/// The straights that `cards` hold: the runs found in the cards once they
/// are sorted by descending rank, the run that starts highest first.
pub open spec fn straight_runs(cards: Seq<Card>) -> Seq<Seq<Card>> {
    runs_in(sorted_by_rank(cards))
}

/// One step round a ring of `n` places.
pub proof fn lemma_ring_step(a: int, n: int)
    requires
        0 <= a,
        0 < n,
    ensures
        0 <= a % n < n,
        (a + 1) % n == if a % n + 1 == n {
            0
        } else {
            a % n + 1
        },
{
    lemma_fundamental_div_mod(a, n);
    let q = a / n;
    let r = a % n;
    assert(q * n == n * q) by (nonlinear_arith);
    if r + 1 == n {
        assert((q + 1) * n == q * n + n) by (nonlinear_arith);
        lemma_fundamental_div_mod_converse(a + 1, n, q + 1, 0);
    } else {
        lemma_fundamental_div_mod_converse(a + 1, n, q, r + 1);
    }
}

/// The window of `sorted` that starts at `start`.
fn window_at<'a>(sorted: &Vec<&'a Card>, start: usize) -> (cards: Vec<&'a Card>)
    requires
        sorted.len() >= 5,
        start < sorted.len(),
    ensures
        card_values(cards@) == window(card_values(sorted@), start as int),
{
    let n = sorted.len();
    let mut cards: Vec<&'a Card> = Vec::new();
    let mut place: usize = start;
    let mut k: usize = 0;
    proof {
        lemma_fundamental_div_mod_converse(start as int, n as int, 0, start as int);
    }
    while k < 5
        invariant
            k <= 5,
            n == sorted.len(),
            n >= 5,
            place < n,
            place == (start + k) % (n as int),
            cards.len() == k,
            forall|j: int|
                0 <= j < k ==> *(#[trigger] cards[j]) == *sorted[(start + j) % (n as int)],
        decreases 5 - k,
    {
        cards.push(sorted[place]);
        proof {
            lemma_ring_step(start + k, n as int);
        }
        place = if place + 1 == n {
            0
        } else {
            place + 1
        };
        k += 1;
    }
    assert(card_values(cards@) =~= window(card_values(sorted@), start as int));
    cards
}

/// Whether the cards are five cards that follow each other down the circle
/// of ranks.
pub fn check_run(cards: &Vec<&Card>) -> (run: bool)
    ensures
        run == is_run(card_values(cards@)),
{
    if cards.len() != 5 {
        return false;
    }
    let first = cards[0].rank.get_straight_prev();
    let second = cards[1].rank.get_straight_prev();
    let third = cards[2].rank.get_straight_prev();
    let fourth = cards[3].rank.get_straight_prev();
    cards[1].rank == first && cards[2].rank == second && cards[3].rank == third && cards[4].rank
        == fourth
}

/// The runs among the windows of `sorted`, in the order of their places.
pub fn find_runs<'a>(sorted: &Vec<&'a Card>) -> (runs: Vec<Vec<&'a Card>>)
    ensures
        group_values(runs@) == runs_in(card_values(sorted@)),
{
    let mut runs: Vec<Vec<&'a Card>> = Vec::new();
    let ghost all = windows(card_values(sorted@));
    proof {
        all.take(0).lemma_filter_len(forms_run());
        assert(group_values(runs@) =~= all.take(0).filter(forms_run()));
    }
    if sorted.len() < 5 {
        proof {
            assert(all.take(0) =~= all);
        }
        return runs;
    }
    let mut start: usize = 0;
    while start < sorted.len()
        invariant
            start <= sorted.len(),
            sorted.len() >= 5,
            all == windows(card_values(sorted@)),
            group_values(runs@) == all.take(start as int).filter(forms_run()),
        decreases sorted.len() - start,
    {
        let cards = window_at(sorted, start);
        let ghost before = runs@;
        proof {
            all.lemma_take_succ_push(start as int);
            all.take(start as int).lemma_filter_push(all[start as int], forms_run());
        }
        if check_run(&cards) {
            runs.push(cards);
            assert(group_values(runs@) =~= group_values(before).push(all[start as int]));
        }
        start += 1;
    }
    proof {
        assert(all.take(sorted.len() as int) =~= all);
    }
    runs
}

/// The places that a window reads: the five places from `start` on, of
/// which those past the end of the list are the first places of the list.
pub proof fn lemma_window_places(n: int, start: int, k: int)
    requires
        5 <= n,
        0 <= start < n,
        0 <= k < 5,
    ensures
        (start + k) % n == if start + k < n {
            start + k
        } else {
            start + k - n
        },
{
    if start + k < n {
        lemma_fundamental_div_mod_converse(start + k, n, 0, start + k);
    } else {
        lemma_fundamental_div_mod_converse(start + k, n, 1, start + k - n);
    }
}

/// The cards of a window are part of the list that it is taken from: no
/// place of the list is read twice.
pub proof fn lemma_window_is_part(sorted: Seq<Card>, start: int)
    requires
        sorted.len() >= 5,
        0 <= start < sorted.len(),
    ensures
        is_part_of(window(sorted, start), sorted),
{
    let n = sorted.len() as int;
    let w = window(sorted, start);
    assert forall|k: int| 0 <= k < 5 implies w[k] == sorted[if start + k < n {
        start + k
    } else {
        start + k - n
    }] by {
        lemma_window_places(n, start, k);
    }
    if start + 5 <= n {
        let before = sorted.subrange(0, start);
        let after = sorted.subrange(start + 5, n);
        assert(w =~= sorted.subrange(start, start + 5));
        assert(sorted =~= before + w + after);
        assert forall|x: Card| occurrences(w, x) <= occurrences(sorted, x) by {
            lemma_occurrences_concat(before + w, after, x);
            lemma_occurrences_concat(before, w, x);
        }
    } else {
        let head = sorted.subrange(0, start + 5 - n);
        let middle = sorted.subrange(start + 5 - n, start);
        let tail = sorted.subrange(start, n);
        assert(w =~= tail + head);
        assert(sorted =~= head + middle + tail);
        assert forall|x: Card| occurrences(w, x) <= occurrences(sorted, x) by {
            lemma_occurrences_concat(tail, head, x);
            lemma_occurrences_concat(head + middle, tail, x);
            lemma_occurrences_concat(head, middle, x);
        }
    }
    lemma_part_by_occurrences(w, sorted);
}

/// Every straight that the cards hold is a run of five of the cards.
pub proof fn lemma_straight_run_is_part(cards: Seq<Card>, i: int)
    requires
        0 <= i < straight_runs(cards).len(),
    ensures
        is_run(straight_runs(cards)[i]),
        is_part_of(straight_runs(cards)[i], cards),
{
    let sorted = sorted_by_rank(cards);
    let run = straight_runs(cards)[i];
    lemma_filter_entry(windows(sorted), forms_run(), i);
    let start = choose|start: int|
        0 <= start < windows(sorted).len() && #[trigger] windows(sorted)[start] == run;
    lemma_window_is_part(sorted, start);
    lemma_sorted_is_permutation(cards);
}

} // verus!
