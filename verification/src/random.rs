//! The random choices of a game, drawn from the thread's generator.
//!
//! Nothing is proved of these functions; each states only what holds of every
//! value the generator may give.

use rand::seq::{IteratorRandom, SliceRandom};
use rand::Rng;
use vstd::prelude::*;
use crate::block::BlockColor;

verus! {

/// Draws a place below `bound` with `rand::Rng::gen_range` on
/// `rand::thread_rng()`.
///
/// Trusted: sampling from the range `0..bound` gives a value of that range.
/// `gen_range` panics on an empty range, which `bound > 0` rules out;
/// `thread_rng` panics only if the operating system has no entropy to seed it
/// with.
#[verifier::external_body]
pub(crate) fn random_index(bound: usize) -> (index: usize)
    requires
        bound > 0,
    ensures
        index < bound,
{
    rand::thread_rng().gen_range(0..bound)
}

/// Shuffles the colours in place with `rand::seq::SliceRandom::shuffle` on
/// `rand::thread_rng()`.
///
/// Trusted: the shuffle only swaps elements of the slice, so the colours
/// after it are those before it, each as often as before.
#[verifier::external_body]
pub(crate) fn shuffle_colors(colors: &mut Vec<BlockColor>)
    ensures
        final(colors)@.to_multiset() == old(colors)@.to_multiset(),
{
    colors.shuffle(&mut rand::thread_rng());
}

/// Picks one of `count` places with `rand::seq::IteratorRandom::choose` on
/// the range `0..count` and `rand::thread_rng()`.
///
/// Trusted: `choose` returns an element of the iterator, and `None` if and
/// only if the iterator is empty.
#[verifier::external_body]
pub(crate) fn choose_index(count: usize) -> (choice: Option<usize>)
    ensures
        choice is None <==> count == 0,
        choice matches Some(i) ==> i < count,
{
    (0..count).choose(&mut rand::thread_rng())
}

} // verus!
