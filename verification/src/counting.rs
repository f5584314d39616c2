use vstd::multiset::Multiset;
use vstd::prelude::*;
use vstd::seq_lib::{lemma_multiset_commutative, to_multiset_build, to_multiset_len};

verus! {

/// How often `x` occurs in `s`.
pub open spec fn occurrences<A>(s: Seq<A>, x: A) -> nat {
    s.to_multiset().count(x)
}

/// Whether every element occurs in `part` at most as often as in `whole`.
pub open spec fn is_part_of<A>(part: Seq<A>, whole: Seq<A>) -> bool {
    part.to_multiset().subset_of(whole.to_multiset())
}

/// An empty list holds the empty multiset.
pub proof fn lemma_empty_multiset<A>(s: Seq<A>)
    requires
        s.len() == 0,
    ensures
        s.to_multiset() == Multiset::<A>::empty(),
{
    broadcast use vstd::multiset::group_multiset_axioms;

    to_multiset_len(s);
    vstd::multiset::lemma_multiset_empty_len(s.to_multiset());
    assert(s.to_multiset() =~= Multiset::<A>::empty());
}

/// Nothing occurs in an empty list.
pub proof fn lemma_occurrences_empty<A>(s: Seq<A>, x: A)
    requires
        s.len() == 0,
    ensures
        occurrences(s, x) == 0,
{
    broadcast use vstd::multiset::group_multiset_axioms;

    to_multiset_len(s);
    vstd::multiset::lemma_multiset_empty_len(s.to_multiset());
    assert(s.to_multiset() =~= Multiset::<A>::empty());
}

/// An element occurs in two lists laid end to end as often as in both
/// together.
pub proof fn lemma_occurrences_concat<A>(a: Seq<A>, b: Seq<A>, x: A)
    ensures
        occurrences(a + b, x) == occurrences(a, x) + occurrences(b, x),
{
    broadcast use vstd::multiset::group_multiset_axioms;

    lemma_multiset_commutative(a, b);
}

/// Adding an element at the end adds one occurrence of it and none of any
/// other element.
pub proof fn lemma_occurrences_push<A>(s: Seq<A>, last: A, x: A)
    ensures
        occurrences(s.push(last), x) == occurrences(s, x) + if last == x {
            1nat
        } else {
            0nat
        },
{
    broadcast use vstd::multiset::group_multiset_axioms;

    to_multiset_build(s, last);
}

/// Filtering keeps every occurrence of an element that passes and none of
/// an element that does not.
pub proof fn lemma_occurrences_filter<A>(s: Seq<A>, pred: spec_fn(A) -> bool, x: A)
    ensures
        occurrences(s.filter(pred), x) == if pred(x) {
            occurrences(s, x)
        } else {
            0
        },
    decreases s.len(),
{
    reveal(Seq::filter);
    if s.len() == 0 {
        lemma_occurrences_empty(s, x);
        lemma_occurrences_empty(s.filter(pred), x);
    } else {
        let rest = s.drop_last();
        let last = s.last();
        lemma_occurrences_filter(rest, pred, x);
        assert(s =~= rest.push(last));
        lemma_occurrences_push(rest, last, x);
        if pred(last) {
            lemma_occurrences_push(rest.filter(pred), last, x);
        }
    }
}

/// A list is part of another when no element occurs more often in it.
pub proof fn lemma_part_by_occurrences<A>(part: Seq<A>, whole: Seq<A>)
    requires
        forall|x: A| occurrences(part, x) <= occurrences(whole, x),
    ensures
        is_part_of(part, whole),
{
    broadcast use vstd::multiset::group_multiset_axioms;

    assert forall|x: A| part.to_multiset().count(x) <= whole.to_multiset().count(x) by {
        assert(occurrences(part, x) <= occurrences(whole, x));
    }
}

/// Two lists in which every element occurs equally often hold the same
/// elements, and so are equally long.
pub proof fn lemma_same_by_occurrences<A>(a: Seq<A>, b: Seq<A>)
    requires
        forall|x: A| occurrences(a, x) == occurrences(b, x),
    ensures
        a.to_multiset() == b.to_multiset(),
        a.len() == b.len(),
{
    broadcast use vstd::multiset::group_multiset_axioms;

    assert forall|x: A| a.to_multiset().count(x) == b.to_multiset().count(x) by {
        assert(occurrences(a, x) == occurrences(b, x));
    }
    assert(a.to_multiset() =~= b.to_multiset());
    to_multiset_len(a);
    to_multiset_len(b);
}

/// Two entries of a filtered list stand in the list that was filtered, in
/// the same order.
pub proof fn lemma_filter_keeps_order<A>(s: Seq<A>, pred: spec_fn(A) -> bool, i: int, j: int)
    requires
        0 <= i < j < s.filter(pred).len(),
    ensures
        exists|a: int, b: int|
            0 <= a < b < s.len() && #[trigger] s[a] == s.filter(pred)[i] && #[trigger] s[b]
                == s.filter(pred)[j],
    decreases s.len(),
{
    reveal(Seq::filter);
    if s.len() > 0 {
        let rest = s.drop_last();
        let kept = rest.filter(pred);
        if pred(s.last()) && j == kept.len() {
            lemma_filter_entry(rest, pred, i);
            let a = choose|a: int| 0 <= a < rest.len() && #[trigger] rest[a] == kept[i];
            let b = s.len() - 1;
            assert(s[a] == s.filter(pred)[i] && s[b] == s.filter(pred)[j]);
        } else {
            lemma_filter_keeps_order(rest, pred, i, j);
            let (a, b) = choose|a: int, b: int|
                0 <= a < b < rest.len() && #[trigger] rest[a] == kept[i] && #[trigger] rest[b]
                    == kept[j];
            assert(s[a] == s.filter(pred)[i] && s[b] == s.filter(pred)[j]);
        }
    }
}

/// An entry of a filtered list passes the filter and stands in the list
/// that was filtered.
pub proof fn lemma_filter_entry<A>(s: Seq<A>, pred: spec_fn(A) -> bool, i: int)
    requires
        0 <= i < s.filter(pred).len(),
    ensures
        pred(s.filter(pred)[i]),
        exists|a: int| 0 <= a < s.len() && #[trigger] s[a] == s.filter(pred)[i],
{
    s.lemma_filter_pred(pred, i);
    let entry = s.filter(pred)[i];
    assert(s.filter(pred).contains(entry));
    s.lemma_filter_contains_rev(pred, entry);
    let a = s.index_of(entry);
    assert(s[a] == entry);
}

/// Where no entry passes the filter, nothing is left.
pub proof fn lemma_filter_none<A>(s: Seq<A>, pred: spec_fn(A) -> bool)
    requires
        forall|j: int| 0 <= j < s.len() ==> !pred(#[trigger] s[j]),
    ensures
        s.filter(pred) == Seq::<A>::empty(),
    decreases s.len(),
{
    reveal(Seq::filter);
    if s.len() > 0 {
        let rest = s.drop_last();
        assert forall|j: int| 0 <= j < rest.len() implies !pred(#[trigger] rest[j]) by {
            assert(rest[j] == s[j]);
        }
        lemma_filter_none(rest, pred);
    }
    assert(s.filter(pred) =~= Seq::<A>::empty());
}

/// Where one entry only passes the filter, it alone is left.
pub proof fn lemma_filter_single<A>(s: Seq<A>, pred: spec_fn(A) -> bool, i: int)
    requires
        0 <= i < s.len(),
        pred(s[i]),
        forall|j: int| 0 <= j < s.len() && j != i ==> !pred(#[trigger] s[j]),
    ensures
        s.filter(pred) == seq![s[i]],
    decreases s.len(),
{
    reveal(Seq::filter);
    let rest = s.drop_last();
    if i == s.len() - 1 {
        assert forall|j: int| 0 <= j < rest.len() implies !pred(#[trigger] rest[j]) by {
            assert(rest[j] == s[j]);
        }
        lemma_filter_none(rest, pred);
    } else {
        assert forall|j: int| 0 <= j < rest.len() && j != i implies !pred(#[trigger] rest[j]) by {
            assert(rest[j] == s[j]);
        }
        assert(!pred(s[s.len() - 1]));
        lemma_filter_single(rest, pred, i);
    }
    assert(s.filter(pred) =~= seq![s[i]]);
}

/// Where every entry passes the filter, the list stays as it is.
pub proof fn lemma_filter_all<A>(s: Seq<A>, pred: spec_fn(A) -> bool)
    requires
        forall|j: int| 0 <= j < s.len() ==> pred(#[trigger] s[j]),
    ensures
        s.filter(pred) == s,
    decreases s.len(),
{
    reveal(Seq::filter);
    if s.len() > 0 {
        let rest = s.drop_last();
        assert forall|j: int| 0 <= j < rest.len() implies pred(#[trigger] rest[j]) by {
            assert(rest[j] == s[j]);
        }
        lemma_filter_all(rest, pred);
        assert(pred(s[s.len() - 1]));
        assert(rest.push(s.last()) =~= s);
    }
    assert(s.filter(pred) =~= s);
}

/// Filtering twice leaves what passes both filters.
pub proof fn lemma_filter_twice<A>(
    s: Seq<A>,
    first: spec_fn(A) -> bool,
    second: spec_fn(A) -> bool,
    both: spec_fn(A) -> bool,
)
    requires
        forall|x: A| #[trigger] both(x) == (first(x) && second(x)),
    ensures
        s.filter(both) == s.filter(first).filter(second),
    decreases s.len(),
{
    reveal(Seq::filter);
    if s.len() > 0 {
        let rest = s.drop_last();
        let last = s.last();
        lemma_filter_twice(rest, first, second, both);
        assert(both(last) == (first(last) && second(last)));
        if first(last) {
            rest.filter(first).lemma_filter_push(last, second);
        }
    }
    assert(s.filter(both) =~= s.filter(first).filter(second));
}

/// Filtering out a value that stands at one place only takes that place
/// out of the list.
pub proof fn lemma_filter_one_out<A>(s: Seq<A>, pred: spec_fn(A) -> bool, i: int)
    requires
        0 <= i < s.len(),
        !pred(s[i]),
        forall|j: int| 0 <= j < s.len() && j != i ==> pred(#[trigger] s[j]),
    ensures
        s.filter(pred) == s.remove(i),
    decreases s.len(),
{
    reveal(Seq::filter);
    let rest = s.drop_last();
    if i == s.len() - 1 {
        assert forall|j: int| 0 <= j < rest.len() implies pred(#[trigger] rest[j]) by {
            assert(rest[j] == s[j]);
        }
        lemma_filter_all(rest, pred);
        assert(s.remove(i) =~= rest);
    } else {
        assert forall|j: int| 0 <= j < rest.len() && j != i implies pred(#[trigger] rest[j]) by {
            assert(rest[j] == s[j]);
        }
        assert(pred(s[s.len() - 1]));
        lemma_filter_one_out(rest, pred, i);
        assert(s.remove(i) =~= rest.remove(i).push(s.last()));
    }
}

} // verus!
