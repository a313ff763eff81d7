use vstd::prelude::*;
use rand::Rng;

verus! {

/// rand's per-thread generator, carried through opaque.
#[verifier::external_type_specification]
#[verifier::external_body]
pub struct ExThreadRng(rand::rngs::ThreadRng);

/// Relies on rand::thread_rng: a handle on the thread's generator, seeded
/// from the operating system; nothing is known of what it will produce.
pub assume_specification[ rand::thread_rng ]() -> rand::rngs::ThreadRng;

/// Relies on rand::Rng::gen_range: a value in `[0, n)`; it panics when
/// `n` is zero, hence the precondition.
#[verifier::external_body]
pub(crate) fn random_below(rng: &mut rand::rngs::ThreadRng, n: usize) -> (r: usize)
    requires
        n > 0,
    ensures
        r < n,
{
    rng.gen_range(0, n)
}

/// Draws `count` positions, each below `n`.
pub fn draw_indices(rng: &mut rand::rngs::ThreadRng, n: usize, count: usize) -> (r: Vec<usize>)
    requires
        n > 0,
    ensures
        r.len() == count,
        forall|j: int| 0 <= j < r.len() ==> #[trigger] r@[j] < n,
{
    let mut out: Vec<usize> = Vec::new();
    let mut j: usize = 0;
    while j < count
        invariant
            j <= count,
            n > 0,
            out.len() == j,
            forall|t: int| 0 <= t < out.len() ==> #[trigger] out@[t] < n,
        decreases count - j,
    {
        let i = random_below(rng, n);
        out.push(i);
        j += 1;
    }
    out
}

} // verus!
