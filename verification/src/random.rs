//! Random choices, through the `rand` crate's thread-local generator.
use vstd::prelude::*;
use rand::Rng;
use rand::seq::SliceRandom;

verus! {

/// `s` is the text of one of `items`.
pub open spec fn among(items: Seq<String>, s: Seq<char>) -> bool {
    exists|i: int| 0 <= i < items.len() && s == (#[trigger] items[i])@
}

/// `SliceRandom::choose` with `rand::thread_rng()`: one of `items`, picked
/// at random (a copy of it). Which one is left open.
#[verifier::external_body]
pub fn choose_string(items: &Vec<String>) -> (r: String)
    requires
        items@.len() > 0,
    ensures
        among(items@, r@),
{
    items.choose(&mut rand::thread_rng()).unwrap().clone()
}

/// `Rng::gen_range(lo..hi)` with `rand::thread_rng()`: a number in
/// `lo..hi`, picked at random; an empty range panics, so it is excluded.
#[verifier::external_body]
pub fn random_between(lo: u8, hi: u8) -> (r: u8)
    requires
        lo < hi,
    ensures
        lo <= r < hi,
{
    rand::thread_rng().gen_range(lo..hi)
}

} // verus!
