use vstd::prelude::*;
use rand::Rng;
use rand::rngs::ThreadRng;

verus! {

#[verifier::external_type_specification]
#[verifier::external_body]
pub struct ExThreadRng(rand::rngs::ThreadRng);

/// `rand::thread_rng`: a handle to the thread-local random generator. Nothing is claimed of it.
#[verifier::external_body]
pub(crate) fn thread_rng() -> ThreadRng {
    rand::thread_rng()
}

/// `Rng::fill` on a byte buffer: claims only that the buffer keeps its length.
#[verifier::external_body]
pub(crate) fn fill_random(rng: &mut ThreadRng, buf: &mut Vec<u8>)
    ensures
        final(buf)@.len() == old(buf)@.len(),
{
    rng.fill(&mut buf[..]);
}

/// `Rng::gen_range(0..bound)`: claims only that the result lies below `bound`; `gen_range` panics
/// on an empty range, which `requires` rules out.
#[verifier::external_body]
pub(crate) fn random_below(rng: &mut ThreadRng, bound: usize) -> (res: usize)
    requires
        bound > 0,
    ensures
        res < bound,
{
    rng.gen_range(0..bound)
}

} // verus!
