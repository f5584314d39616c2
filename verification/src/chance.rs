use rand::seq::SliceRandom;
use vstd::prelude::*;

verus! {

/// Draws one element of `items` with `rand::seq::SliceRandom::choose`, fed by
/// `rand::thread_rng`.
///
/// Trusted, not proved: the element returned is one of the elements of
/// `items`, and nothing is returned exactly when `items` is empty. Which
/// element comes back is left open: two calls on the same slice may differ.
#[verifier::external_body]
pub(crate) fn choose_from<T: Copy>(items: &[T]) -> (picked: Option<T>)
    ensures
        match picked {
            Some(item) => items@.contains(item),
            None => items@.len() == 0,
        },
{
    items.choose(&mut rand::thread_rng()).copied()
}

} // verus!
