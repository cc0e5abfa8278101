use vstd::prelude::*;
use rand::Rng;

verus! {

/// Draws a number uniformly from `0..bound` with `rand::Rng::gen_range` on the
/// thread-local generator (`rand::thread_rng`).
///
/// Claimed of the outside call: for `bound > 0` it returns a value below `bound`
/// (rand documents the range as half-open and panics only when it is empty).
/// Which value comes back is chance, so nothing more is stated.
#[verifier::external_body]
pub(crate) fn random_below(bound: usize) -> (r: usize)
    requires
        bound > 0,
    ensures
        r < bound,
{
    rand::thread_rng().gen_range(0, bound)
}

/// Whether a character is an ASCII letter or digit.
pub open spec fn is_alphanumeric(c: char) -> bool {
    ('A' <= c <= 'Z') || ('a' <= c <= 'z') || ('0' <= c <= '9')
}

/// Draws a character from `rand::distributions::Alphanumeric` with
/// `rand::Rng::sample` on the thread-local generator.
///
/// Claimed of the outside call: the character is one of the 62 ASCII letters
/// and digits (rand's source picks it from that table). Which one comes back
/// is chance, so nothing more is stated.
#[verifier::external_body]
pub(crate) fn random_alphanumeric() -> (c: char)
    ensures
        is_alphanumeric(c),
{
    rand::thread_rng().sample(rand::distributions::Alphanumeric)
}

} // verus!
