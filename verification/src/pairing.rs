use itertools::Itertools;
use vstd::prelude::*;

verus! {

/// The pairs of places `(i, j)` with `from <= i < j < n`: first those with
/// the smallest `i`, and among the pairs that share `i` first the one
/// with the smallest `j`.
pub open spec fn index_pairs(from: nat, n: nat) -> Seq<(nat, nat)>
    decreases n - from,
{
    if from + 1 >= n {
        Seq::empty()
    } else {
        Seq::new((n - from - 1) as nat, |k: int| (from, (from + 1 + k) as nat)) + index_pairs(
            from + 1,
            n,
        )
    }
}

/// The pairs of places that a list of pairs of machine integers stands for.
pub open spec fn pair_values(pairs: Seq<(usize, usize)>) -> Seq<(nat, nat)> {
    pairs.map_values(|pair: (usize, usize)| (pair.0 as nat, pair.1 as nat))
}

/// Lists the ways of taking two of `n` places, by
/// `itertools::Itertools::combinations` with a length of 2 on the places
/// `0..n`.
///
/// Trusted, not proved: the pairs come out as `index_pairs` lists them, each
/// pair once with its smaller place first, in ascending order of the first
/// place and then of the second.
#[verifier::external_body]
pub(crate) fn pair_combinations(n: usize) -> (pairs: Vec<(usize, usize)>)
    requires
        n <= 13,
    ensures
        pair_values(pairs@) == index_pairs(0, n as nat),
{
    (0..n).combinations(2).map(|pair| (pair[0], pair[1])).collect()
}

/// Whether `a` comes before `b` when pairs are ordered by their first place
/// and then by their second.
pub open spec fn pair_before(a: (nat, nat), b: (nat, nat)) -> bool {
    a.0 < b.0 || (a.0 == b.0 && a.1 < b.1)
}

/// Every entry of `index_pairs` is a pair of two places below `n`, the
/// smaller one first and not below `from`.
pub proof fn lemma_index_pairs_in_range(from: nat, n: nat, k: int)
    requires
        0 <= k < index_pairs(from, n).len(),
    ensures
        from <= index_pairs(from, n)[k].0 < index_pairs(from, n)[k].1 < n,
    decreases n - from,
{
    if from + 1 < n {
        if k >= n - from - 1 {
            lemma_index_pairs_in_range(from + 1, n, k - (n - from - 1));
        }
    }
}

/// Every pair of two places from `from` on and below `n` is listed.
pub proof fn lemma_index_pairs_complete(from: nat, n: nat, i: nat, j: nat)
    requires
        from <= i < j < n,
    ensures
        index_pairs(from, n).contains((i, j)),
    decreases n - from,
{
    let row = Seq::new((n - from - 1) as nat, |k: int| (from, (from + 1 + k) as nat));
    if i == from {
        assert(row[j - from - 1] == (i, j));
        assert(index_pairs(from, n)[j - from - 1] == (i, j));
    } else {
        lemma_index_pairs_complete(from + 1, n, i, j);
        let rest = index_pairs(from + 1, n);
        let k = choose|k: int| 0 <= k < rest.len() && rest[k] == (i, j);
        assert(index_pairs(from, n)[row.len() + k] == (i, j));
    }
}

/// The list is in ascending order, so that no pair is listed twice.
pub proof fn lemma_index_pairs_ascending(from: nat, n: nat, k1: int, k2: int)
    requires
        0 <= k1 < k2 < index_pairs(from, n).len(),
    ensures
        pair_before(index_pairs(from, n)[k1], index_pairs(from, n)[k2]),
    decreases n - from,
{
    if from + 1 < n {
        let row = n - from - 1;
        if k1 >= row {
            lemma_index_pairs_ascending(from + 1, n, k1 - row, k2 - row);
        } else if k2 >= row {
            lemma_index_pairs_in_range(from + 1, n, k2 - row);
        }
    }
}

} // verus!
