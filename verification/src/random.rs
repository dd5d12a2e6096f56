use vstd::prelude::*;
use rand::Rng;

verus! {

/// The handle to the thread-local generator of `rand`. Nothing of its state
/// is known here; it is only passed on.
#[verifier::external_type_specification]
#[verifier::external_body]
pub struct ExThreadRng(rand::rngs::ThreadRng);

/// `rand::thread_rng` hands out the handle to the generator of the calling
/// thread. Nothing is claimed of it. It panics if the system cannot seed the
/// generator, which no argument decides.
pub assume_specification[ rand::thread_rng ]() -> (rng: rand::rngs::ThreadRng)
;

/// Draws a number with `Rng::gen_range`. Which number comes is up to the
/// generator, so all that is taken on trust is the range that `gen_range`
/// documents: the value is at least `low` and below `high`. `gen_range`
/// panics unless `low < high`; the precondition keeps such calls out.
#[verifier::external_body]
pub(crate) fn random_between(rng: &mut rand::rngs::ThreadRng, low: usize, high: usize) -> (value:
    usize)
    requires
        low < high,
    ensures
        low <= value < high,
{
    rng.gen_range(low, high)
}

} // verus!
