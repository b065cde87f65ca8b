use vstd::prelude::*;
use crate::frac::Frac;
use vstd::arithmetic::div_mod::lemma_fundamental_div_mod;

verus! {

/// Reference parameters that describe no projection.
#[derive(Clone, Copy, Debug, PartialEq, Eq, Structural)]
pub struct ConfigurationError;

/// Reference parameters of a CAR projection: reference pixel (`crpix*`,
/// in the one-based convention of the projection engine), signed pixel
/// scale in degrees (`cdelt*`) and reference sky position in degrees
/// (`crval*`). The parameters cannot change once the value is built.
#[derive(Clone, Copy, Debug)]
pub struct WCS {
    crpix1: Frac,
    crpix2: Frac,
    cdelt1: Frac,
    cdelt2: Frac,
    crval1: Frac,
    crval2: Frac,
}

impl WCS {
    pub open spec fn wf(self) -> bool {
        &&& self.spec_crpix1().wf()
        &&& self.spec_crpix2().wf()
        &&& self.spec_cdelt1().wf()
        &&& self.spec_cdelt2().wf()
        &&& self.spec_crval1().wf()
        &&& self.spec_crval2().wf()
    }

    pub closed spec fn spec_crpix1(self) -> Frac {
        self.crpix1
    }

    pub closed spec fn spec_crpix2(self) -> Frac {
        self.crpix2
    }

    pub closed spec fn spec_cdelt1(self) -> Frac {
        self.cdelt1
    }

    pub closed spec fn spec_cdelt2(self) -> Frac {
        self.cdelt2
    }

    pub closed spec fn spec_crval1(self) -> Frac {
        self.crval1
    }

    pub closed spec fn spec_crval2(self) -> Frac {
        self.crval2
    }

    /// Latitude in degrees of the centre of zero-based row `j`, as a fraction
    /// `(numerator, denominator)`: latitude grows linearly along the rows, by
    /// `cdelt2` per row, from `crval2` at the one-based reference row `crpix2`.
    pub open spec fn lat_of_row(self, j: int) -> (int, int) {
        let (vn, vd) = (self.spec_crval2().num as int, self.spec_crval2().den as int);
        let (cn, cd) = (self.spec_cdelt2().num as int, self.spec_cdelt2().den as int);
        let (pn, pd) = (self.spec_crpix2().num as int, self.spec_crpix2().den as int);
        (vn * cd * pd + vd * cn * ((j + 1) * pd - pn), vd * cd * pd)
    }

    /// Parameters that no projection can be built from: a zero pixel scale
    /// on either axis, or a reference latitude beyond a pole.
    pub open spec fn degenerate(cdelt1: Frac, cdelt2: Frac, crval2: Frac) -> bool {
        ||| cdelt1.num == 0
        ||| cdelt2.num == 0
        ||| crval2.num > 90 * crval2.den
        ||| crval2.num < -90 * crval2.den
    }

    pub fn new(crpix1: Frac, crpix2: Frac, cdelt1: Frac, cdelt2: Frac, crval1: Frac, crval2: Frac) -> (r: Result<
        WCS,
        ConfigurationError,
    >)
        requires
            crpix1.wf(),
            crpix2.wf(),
            cdelt1.wf(),
            cdelt2.wf(),
            crval1.wf(),
            crval2.wf(),
        ensures
            r is Err <==> WCS::degenerate(cdelt1, cdelt2, crval2),
            r matches Ok(w) ==> {
                &&& w.wf()
                &&& w.spec_crpix1() == crpix1
                &&& w.spec_crpix2() == crpix2
                &&& w.spec_cdelt1() == cdelt1
                &&& w.spec_cdelt2() == cdelt2
                &&& w.spec_crval1() == crval1
                &&& w.spec_crval2() == crval2
            },
    {
        let lat_num: i128 = crval2.num as i128;
        let lat_bound: i128 = 90 * crval2.den as i128;
        if cdelt1.num == 0 || cdelt2.num == 0 || lat_num > lat_bound || lat_num < -lat_bound {
            Err(ConfigurationError)
        } else {
            Ok(WCS { crpix1, crpix2, cdelt1, cdelt2, crval1, crval2 })
        }
    }

    pub fn cdelt1(&self) -> (r: Frac)
        ensures
            r == self.spec_cdelt1(),
    {
        self.cdelt1
    }

    pub fn cdelt2(&self) -> (r: Frac)
        ensures
            r == self.spec_cdelt2(),
    {
        self.cdelt2
    }

    pub fn crval1(&self) -> (r: Frac)
        ensures
            r == self.spec_crval1(),
    {
        self.crval1
    }

    pub fn crval2(&self) -> (r: Frac)
        ensures
            r == self.spec_crval2(),
    {
        self.crval2
    }

    pub fn crpix1(&self) -> (r: Frac)
        ensures
            r == self.spec_crpix1(),
    {
        self.crpix1
    }

    pub fn crpix2(&self) -> (r: Frac)
        ensures
            r == self.spec_crpix2(),
    {
        self.crpix2
    }
}

/// The reference row maps to the reference latitude: when `crpix2` is a
/// whole row, the latitude of zero-based row `crpix2 - 1` equals `crval2`.
pub proof fn lemma_reference_row_latitude(w: WCS)
    requires
        w.wf(),
        w.spec_crpix2().num % w.spec_crpix2().den == 0,
    ensures
        ({
            let (n, d) = w.lat_of_row(w.spec_crpix2().num / w.spec_crpix2().den - 1);
            let v = w.spec_crval2();
            &&& d > 0
            &&& n * v.den == v.num * d
        }),
{
    let (pn, pd) = (w.spec_crpix2().num as int, w.spec_crpix2().den as int);
    let (vn, vd) = (w.spec_crval2().num as int, w.spec_crval2().den as int);
    let (cn, cd) = (w.spec_cdelt2().num as int, w.spec_cdelt2().den as int);
    let k = pn / pd;
    lemma_fundamental_div_mod(pn, pd);
    assert(k * pd == pn) by (nonlinear_arith)
        requires pn == pd * (pn / pd) + pn % pd, pn % pd == 0, k == pn / pd;
    let (n, d) = w.lat_of_row(k - 1);
    assert(n * vd == vn * d && d > 0) by (nonlinear_arith)
        requires
            n == vn * cd * pd + vd * cn * ((k - 1 + 1) * pd - pn),
            d == vd * cd * pd,
            k * pd == pn, vd > 0, cd > 0, pd > 0;
}

} // verus!
