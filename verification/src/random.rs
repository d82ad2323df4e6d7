use vstd::prelude::*;

verus! {

/// One draw taken from a random source: the inclusive range that was asked
/// for and the value that came back.
pub struct Draw {
    pub lo: i32,
    pub hi: i32,
    pub val: i32,
}

/// The capability the evaluator needs: uniform integer draws over an
/// inclusive range.  `log` is the ghost record of every draw made so far, in
/// order; it is how contracts speak about which draws a computation consumed
/// and in which order.
pub trait RandomSource {
    spec fn log(&self) -> Seq<Draw>;

    fn draw(&mut self, lo: i32, hi: i32) -> (r: i32)
        requires
            lo <= hi,
        ensures
            lo <= r <= hi,
            final(self).log() == old(self).log().push(Draw { lo, hi, val: r }),
    ;
}

#[verifier::external_type_specification]
#[verifier::external_body]
pub struct ExThreadRng(rand::rngs::ThreadRng);

#[verifier::external_type_specification]
#[verifier::external_body]
pub struct ExStdRng(rand::rngs::StdRng);

/// The process-default source, backed by rand's thread-local generator.
pub struct ThreadRngSource {
    rng: rand::rngs::ThreadRng,
    history: Ghost<Seq<Draw>>,
}

impl ThreadRngSource {
    /// Relies on rand::thread_rng: hands out the thread-local generator.
    #[verifier::external_body]
    pub fn new() -> (r: ThreadRngSource)
        ensures
            r.log() == Seq::<Draw>::empty(),
    {
        ThreadRngSource { rng: rand::thread_rng(), history: Ghost(Seq::empty()) }
    }
}

impl ThreadRngSource {
    /// Relies on rand::Rng::gen_range over `lo..=hi`: returns a uniformly
    /// distributed value of that range, and panics only when the range is
    /// empty, which `lo <= hi` rules out.
    #[verifier::external_body]
    fn draw_range(&mut self, lo: i32, hi: i32) -> (r: i32)
        requires
            lo <= hi,
        ensures
            lo <= r <= hi,
            final(self).history@ == old(self).history@.push(Draw { lo, hi, val: r }),
    {
        rand::Rng::gen_range(&mut self.rng, lo..=hi)
    }
}

impl RandomSource for ThreadRngSource {
    closed spec fn log(&self) -> Seq<Draw> {
        self.history@
    }

    fn draw(&mut self, lo: i32, hi: i32) -> (r: i32) {
        self.draw_range(lo, hi)
    }
}

/// A seeded source, backed by rand's standard generator: two sources built
/// from the same seed hand back the same values in the same order.
pub struct StdRngSource {
    rng: rand::rngs::StdRng,
    history: Ghost<Seq<Draw>>,
}

impl StdRngSource {
    /// Relies on rand::SeedableRng::seed_from_u64: builds a generator whose
    /// draws are a fixed function of the seed.
    #[verifier::external_body]
    pub fn from_seed(seed: u64) -> (r: StdRngSource)
        ensures
            r.log() == Seq::<Draw>::empty(),
    {
        StdRngSource {
            rng: <rand::rngs::StdRng as rand::SeedableRng>::seed_from_u64(seed),
            history: Ghost(Seq::empty()),
        }
    }
}

impl StdRngSource {
    /// Relies on rand::Rng::gen_range over `lo..=hi`, as above.
    #[verifier::external_body]
    fn draw_range(&mut self, lo: i32, hi: i32) -> (r: i32)
        requires
            lo <= hi,
        ensures
            lo <= r <= hi,
            final(self).history@ == old(self).history@.push(Draw { lo, hi, val: r }),
    {
        rand::Rng::gen_range(&mut self.rng, lo..=hi)
    }
}

impl RandomSource for StdRngSource {
    closed spec fn log(&self) -> Seq<Draw> {
        self.history@
    }

    fn draw(&mut self, lo: i32, hi: i32) -> (r: i32) {
        self.draw_range(lo, hi)
    }
}

} // verus!
