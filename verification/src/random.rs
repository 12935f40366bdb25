use rand::rngs::SmallRng;
use rand::RngExt;
use vstd::prelude::*;

verus! {

/// `rand::rngs::SmallRng`, carried by the machine for `Cxkk`; its state is opaque.
#[verifier::external_type_specification]
#[verifier::external_body]
pub struct ExSmallRng(SmallRng);

/// Calls `rand::make_rng::<SmallRng>()`, which seeds a fresh generator from the
/// thread-local one (itself seeded by the operating system). Nothing is stated of
/// the generator; `make_rng` panics only when the system cannot supply entropy.
#[verifier::external_body]
pub(crate) fn seeded_rng() -> SmallRng {
    rand::make_rng()
}

/// Calls `RngExt::random::<u8>` on the generator. The byte depends on chance,
/// so any byte may come back and nothing is stated of it or of the generator after.
#[verifier::external_body]
pub(crate) fn random_byte(rng: &mut SmallRng) -> u8 {
    rng.random()
}

/// The machine's source of random bytes, with a record of every byte it has handed out.
/// Only `next_byte` extends the record, and only with the byte the generator returned.
pub struct Generator {
    rng: SmallRng,
    drawn: Ghost<Seq<u8>>,
}

impl Generator {
    /// The bytes handed out so far, oldest first.
    pub closed spec fn drawn(&self) -> Seq<u8> {
        self.drawn@
    }

    /// A freshly seeded generator that has handed out nothing.
    pub fn new() -> (g: Self)
        ensures
            g.drawn() == Seq::<u8>::empty(),
    {
        Generator { rng: seeded_rng(), drawn: Ghost(Seq::empty()) }
    }

    /// Draws one byte from the generator and records it.
    pub fn next_byte(&mut self) -> (b: u8)
        ensures
            final(self).drawn() == old(self).drawn().push(b),
    {
        let b = random_byte(&mut self.rng);
        self.drawn = Ghost(self.drawn@.push(b));
        b
    }
}

} // verus!
