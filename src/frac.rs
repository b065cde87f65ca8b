use vstd::prelude::*;

verus! {

/// An exact fraction `num / den`; well formed when `den > 0`.
#[derive(Clone, Copy, Debug, PartialEq, Eq, Structural)]
pub struct Frac {
    pub num: i64,
    pub den: i64,
}

impl Frac {
    pub open spec fn wf(self) -> bool {
        self.den > 0
    }

    /// Holds exactly the numerator `n` and the denominator `d`.
    pub open spec fn has_parts(self, n: int, d: int) -> bool {
        self.num == n && self.den == d
    }

    /// Builds `num / den` exactly as given, without reducing it.
    pub fn new(num: i64, den: i64) -> (r: Frac)
        requires
            den > 0,
        ensures
            r.num == num,
            r.den == den,
            r.wf(),
    {
        Frac { num, den }
    }
}

} // verus!
