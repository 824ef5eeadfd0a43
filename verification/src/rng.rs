use vstd::prelude::*;
use rand::Rng;

verus! {

/// The generator that `rand::thread_rng` hands out.
#[verifier::external_type_specification]
#[verifier::external_body]
pub struct ExThreadRng(rand::rngs::ThreadRng);

/// Calls `rand::thread_rng`, a handle to the thread's generator, seeded from
/// the operating system on first use (rand panics when the system gives no
/// entropy: a failure of the machine, not of an argument). Nothing is
/// promised of the generator's state.
#[verifier::external_body]
pub(crate) fn thread_rng() -> (rng: rand::rngs::ThreadRng) {
    rand::thread_rng()
}

/// Calls `Rng::gen_range(0..upper)` on the thread generator. rand's source
/// asserts that the range is not empty (hence `0 < upper`) and samples
/// uniformly from `low..high`, so the result is below `upper`; which value
/// comes out is chance, so nothing more is stated.
#[verifier::external_body]
pub(crate) fn gen_index(rng: &mut rand::rngs::ThreadRng, upper: usize) -> (r: usize)
    requires
        0 < upper,
    ensures
        r < upper,
{
    rng.gen_range(0..upper)
}

} // verus!
