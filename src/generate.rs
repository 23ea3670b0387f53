//! Inputs for benchmarks and tests: a reproducible stream of bytes from a
//! seeded generator.
use vstd::prelude::*;
use rand::{Rng, SeedableRng};

verus! {

#[verifier::external_type_specification]
#[verifier::external_body]
pub struct ExStdRng(rand::rngs::StdRng);

/// The seed every generated input starts from.
pub const SEED: u64 = 25487;

/// Relies on rand's `SeedableRng::seed_from_u64` for `StdRng`: a generator
/// started from `seed`. Nothing is claimed of the stream it will produce.
#[verifier::external_body]
fn seeded_rng(seed: u64) -> (r: rand::rngs::StdRng) {
    rand::rngs::StdRng::seed_from_u64(seed)
}

/// Relies on rand's `Rng::gen::<u8>`: the generator's next byte. Nothing is
/// claimed of its value.
#[verifier::external_body]
fn next_byte(rng: &mut rand::rngs::StdRng) -> (r: u8) {
    rng.gen::<u8>()
}

/// `size` bytes from a generator seeded with [`SEED`], so that every call
/// with the same size in one build gives the same bytes.
pub fn generate_array(size: usize) -> (r: Vec<u8>)
    ensures
        r@.len() == size,
{
    let mut rng = seeded_rng(SEED);
    let mut array: Vec<u8> = Vec::new();
    let mut i: usize = 0;
    while i < size
        invariant
            i <= size,
            array@.len() == i,
        decreases size - i,
    {
        array.push(next_byte(&mut rng));
        i = i + 1;
    }
    array
}

} // verus!
