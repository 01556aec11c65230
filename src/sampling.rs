use vstd::prelude::*;
use rand::rngs::StdRng;
use rand::Rng;

verus! {

#[verifier::external_type_specification]
#[verifier::external_body]
pub struct ExStdRng(StdRng);

/// Relies on rand's `Rng::gen_range` for integers: a value drawn from
/// `[low, high)`; it panics when `low >= high`.
#[verifier::external_body]
pub(crate) fn draw_in_range(rng: &mut StdRng, low: u64, high: u64) -> (r: u64)
    requires
        low < high,
    ensures
        low <= r < high,
{
    rng.gen_range(low, high)
}

/// Branch lengths drawn uniformly from `[low, high)`, in ten-thousandths.
#[derive(Clone, Copy, Debug, PartialEq, Eq)]
pub struct WeightRange {
    pub low: u64,
    pub high: u64,
}

impl WeightRange {
    pub open spec fn valid(self) -> bool {
        self.low < self.high
    }

    pub open spec fn holds(self, w: u64) -> bool {
        self.low <= w < self.high
    }

    /// The range `[0, 1)`: weights `0.0000` to `0.9999`.
    pub fn unit() -> (r: WeightRange)
        ensures
            r.low == 0,
            r.high == 10000,
    {
        WeightRange { low: 0, high: 10000 }
    }

    pub fn is_valid(&self) -> (r: bool)
        ensures
            r == self.valid(),
    {
        self.low < self.high
    }

    /// Draws one branch length.
    pub fn sample(&self, rng: &mut StdRng) -> (r: u64)
        requires
            self.valid(),
        ensures
            self.holds(r),
    {
        draw_in_range(rng, self.low, self.high)
    }
}

/// Draws a position in a collection of `len` items.
pub fn pick_index(rng: &mut StdRng, len: usize) -> (r: usize)
    requires
        len > 0,
    ensures
        r < len,
{
    draw_in_range(rng, 0, len as u64) as usize
}

} // verus!
