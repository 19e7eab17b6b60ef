//! Exact decimal numbers, a mantissa scaled by a power of ten, for measured
//! values that are stored and never rounded.
use vstd::prelude::*;

verus! {

/// The number `mantissa / 10^scale`.
#[derive(Clone, Copy, PartialEq, Eq, Debug)]
pub struct Decimal {
    pub mantissa: i64,
    pub scale: u32,
}

impl Decimal {
    /// The decimal `mantissa / 10^scale`.
    pub fn new(mantissa: i64, scale: u32) -> (r: Decimal)
        ensures
            r == (Decimal { mantissa, scale }),
    {
        Decimal { mantissa, scale }
    }

    /// The product of a count and this decimal, where the product's mantissa
    /// fits: the count times the mantissa, at the same scale.
    pub fn times_count(&self, count: u32) -> (r: Decimal)
        requires
            0 <= self.mantissa <= 100_000,
        ensures
            r.mantissa == count as int * self.mantissa, r.scale == self.scale,
    {
        proof {
            assert(count as int * self.mantissa <= 4_294_967_295 * 100_000) by (nonlinear_arith)
                requires
                    0 <= self.mantissa <= 100_000,
                    count as int <= 4_294_967_295,
            ;
            assert(count as int * self.mantissa >= 0) by (nonlinear_arith)
                requires
                    0 <= self.mantissa,
                    count as int >= 0,
            ;
        }
        Decimal { mantissa: count as i64 * self.mantissa, scale: self.scale }
    }
}

} // verus!
