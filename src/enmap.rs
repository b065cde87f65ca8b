use vstd::prelude::*;
use vstd::arithmetic::div_mod::{lemma_div_is_ordered, lemma_div_by_multiple, lemma_div_pos_is_pos, lemma_div_is_ordered_by_denominator, lemma_fundamental_div_mod};
use crate::frac::Frac;
use crate::wcs::WCS;
use vstd::pervasive::unreached;

verus! {

/// Pixel counts along the longitude and latitude axes.
pub type Shape = (usize, usize);

/// Largest denominator accepted for a resolution: `round(360 / res)` is then
/// at most `540 * MAX_DEN`, which fits in a 32-bit `usize`.
pub const MAX_DEN: i64 = 7_900_000;

/// `a / b` rounded to the nearest integer, halves away from zero, for `a >= 0`, `b > 0`.
pub open spec fn round_div(a: int, b: int) -> int {
    (2 * a + b) / (2 * b)
}

/// Number of pixels along longitude: `round(360 / res)`.
pub open spec fn full_nx(res: Frac) -> int {
    round_div(360 * res.den, res.num as int)
}

/// Number of pixels along latitude: `round(180 / res) + 1`, both poles on pixel centres.
pub open spec fn full_ny(res: Frac) -> int {
    round_div(180 * res.den, res.num as int) + 1
}

/// A resolution in degrees that the builders accept: positive, at most 360°,
/// with a bounded denominator.
pub open spec fn valid_res(res: Frac) -> bool {
    &&& res.wf()
    &&& 0 < res.num
    &&& res.num <= 360 * res.den
    &&& res.den <= MAX_DEN
}

/// A declination cut in degrees that the band builder accepts.
pub open spec fn valid_cut(cut: Frac) -> bool {
    &&& cut.wf()
    &&& 0 <= cut.num
}

/// Zero-based row, on a full-sky grid with `ny` rows, of latitude `-cut`,
/// rounded to the nearest row and clamped at row 0. Rows are spaced evenly
/// from -90° (row 0) to +90° (row `ny - 1`), so that latitude `l` falls on
/// row `(ny - 1) * (90 + l) / 180`.
pub open spec fn band_start(ny: int, cut: Frac) -> int {
    let a = (ny - 1) * (90 * cut.den - cut.num);
    if a < 0 {
        0
    } else {
        round_div(a, 180 * cut.den)
    }
}

/// Zero-based row, on a full-sky grid with `ny` rows, of latitude `+cut`,
/// rounded to the nearest row and clamped at `ny`.
pub open spec fn band_stop(ny: int, cut: Frac) -> int {
    let r = round_div((ny - 1) * (90 * cut.den + cut.num), 180 * cut.den);
    if r > ny {
        ny
    } else {
        r
    }
}

/// `g` is the full-sky geometry at resolution `res`: `round(360 / res)` by
/// `round(180 / res) + 1` pixels, longitude decreasing along x by `360 / nx`
/// per pixel from `res / 2` at the half-pixel `nx / 2 + 1/2`, latitude
/// increasing along y by `180 / (ny - 1)` from 0 at the middle row.
pub open spec fn is_fullsky_geometry(res: Frac, g: (Shape, WCS)) -> bool {
    let ((nx, ny), w) = g;
    &&& nx == full_nx(res)
    &&& ny == full_ny(res)
    &&& nx >= 1
    &&& ny >= 2
    &&& w.wf()
    &&& w.spec_crval1().has_parts(res.num as int, 2 * res.den)
    &&& w.spec_crval2().has_parts(0, 1)
    &&& w.spec_cdelt1().has_parts(-360, nx as int)
    &&& w.spec_cdelt2().has_parts(180, ny - 1)
    &&& w.spec_crpix1().has_parts(2 * (nx / 2) + 1, 2)
    &&& w.spec_crpix2().has_parts(ny + 1, 2)
}

/// `g` is the full-sky geometry at resolution `res` cropped to the rows from
/// `band_start` up to `band_stop`, with the reference row moved down by
/// `band_start` rows and everything else kept.
pub open spec fn is_band_geometry(res: Frac, cut: Frac, g: (Shape, WCS)) -> bool {
    let ((nx, ny), w) = g;
    let full_rows = full_ny(res);
    let start = band_start(full_rows, cut);
    let stop = band_stop(full_rows, cut);
    &&& 0 <= start <= stop <= full_rows
    &&& nx == full_nx(res)
    &&& ny == stop - start
    &&& w.wf()
    &&& w.spec_crval1().has_parts(res.num as int, 2 * res.den)
    &&& w.spec_crval2().has_parts(0, 1)
    &&& w.spec_cdelt1().has_parts(-360, full_nx(res))
    &&& w.spec_cdelt2().has_parts(180, full_rows - 1)
    &&& w.spec_crpix1().has_parts(2 * (full_nx(res) / 2) + 1, 2)
    &&& w.spec_crpix2().has_parts(full_rows + 1 - 2 * start, 2)
}

/// Geometry of a map that covers the whole sky at resolution `res` degrees.
pub fn fullsky_geometry(res: Frac) -> (r: (Shape, WCS))
    requires
        valid_res(res),
    ensures
        is_fullsky_geometry(res, r),
{
    let n: i64 = res.num;
    let d: i64 = res.den;
    proof {
        lemma_div_is_ordered(2 * n, 720 * d + n, 2 * n);
        lemma_div_is_ordered(2 * n, 360 * d + n, 2 * n);
        lemma_div_by_multiple(1, 2 * n);
        lemma_div_is_ordered_by_denominator(720 * d + n, 2, 2 * n);
        lemma_div_is_ordered_by_denominator(360 * d + n, 2, 2 * n);
    }
    let nx: i64 = (720 * d + n) / (2 * n);
    let ny: i64 = (360 * d + n) / (2 * n) + 1;
    let crval1 = Frac::new(n, 2 * d);
    let crval2 = Frac::new(0, 1);
    let cdelt1 = Frac::new(-360, nx);
    let cdelt2 = Frac::new(180, ny - 1);
    let crpix1 = Frac::new(2 * (nx / 2) + 1, 2);
    let crpix2 = Frac::new(ny + 1, 2);
    let wcs = match WCS::new(crpix1, crpix2, cdelt1, cdelt2, crval1, crval2) {
        Ok(w) => w,
        Err(_) => unreached(),
    };
    ((nx as usize, ny as usize), wcs)
}

/// Geometry of the band of a full-sky map at resolution `res` degrees whose
/// rows lie between latitudes `-dec_cut` and `+dec_cut` degrees. Longitude is
/// never cropped; the reference row moves up by the number of rows cut below.
/// A cut too narrow to reach a row centre gives a valid band of zero rows.
pub fn band_geometry(res: Frac, dec_cut: Frac) -> (r: (Shape, WCS))
    requires
        valid_res(res),
        valid_cut(dec_cut),
    ensures
        is_band_geometry(res, dec_cut, r),
{
    let (shape, full) = fullsky_geometry(res);
    let ny: i128 = shape.1 as i128;
    let cn: i128 = dec_cut.num as i128;
    let cd: i128 = dec_cut.den as i128;
    proof {
        lemma_div_is_ordered_by_denominator(360 * res.den + res.num, 1, 2 * res.num);
        assert(0 <= (ny - 1) * (90 * cd + cn) <= 720 * MAX_DEN * (91 * 0x8000_0000_0000_0000)) by (nonlinear_arith)
            requires 0 <= ny - 1 <= 720 * MAX_DEN, 0 <= 90 * cd + cn <= 91 * 0x8000_0000_0000_0000;
        assert((ny - 1) * (90 * cd - cn) <= (ny - 1) * (90 * cd + cn)) by (nonlinear_arith)
            requires 0 <= ny - 1, 0 <= cn;
        assert(-720 * MAX_DEN * 0x8000_0000_0000_0000 <= (ny - 1) * (90 * cd - cn)) by (nonlinear_arith)
            requires 0 <= ny - 1 <= 720 * MAX_DEN, -0x8000_0000_0000_0000 <= 90 * cd - cn;
    }
    let b: i128 = 180 * cd;
    let a_min: i128 = (ny - 1) * (90 * cd - cn);
    let a_max: i128 = (ny - 1) * (90 * cd + cn);
    let start: i128 = if a_min < 0 {
        0
    } else {
        proof {
            assert(a_min <= (ny - 1) * (90 * cd)) by (nonlinear_arith)
                requires a_min == (ny - 1) * (90 * cd - cn), cn >= 0, ny >= 1;
            assert((ny - 1) * (90 * cd) * 2 + b == ny * b) by (nonlinear_arith)
                requires b == 180 * cd;
            assert(ny * b <= ny * (2 * b)) by (nonlinear_arith)
                requires b >= 0, ny >= 1;
            lemma_div_is_ordered(2 * a_min + b, ny * (2 * b), 2 * b);
            lemma_div_by_multiple(ny as int, 2 * b);
            lemma_div_pos_is_pos(2 * a_min + b, 2 * b);
        }
        (2 * a_min + b) / (2 * b)
    };
    proof {
        lemma_div_pos_is_pos(2 * a_max + b, 2 * b);
        if a_min >= 0 {
            lemma_div_is_ordered(2 * a_min + b, 2 * a_max + b, 2 * b);
        }
    }
    let rounded: i128 = (2 * a_max + b) / (2 * b);
    let stop: i128 = if rounded > ny {
        ny
    } else {
        rounded
    };
    let crpix2 = Frac::new((ny + 1 - 2 * start) as i64, 2);
    let wcs = match WCS::new(full.crpix1(), crpix2, full.cdelt1(), full.cdelt2(), full.crval1(), full.crval2()) {
        Ok(w) => w,
        Err(_) => unreached(),
    };
    ((shape.0, (stop - start) as usize), wcs)
}

/// Every row of a band geometry lies in the band: its latitude is within
/// `[-cut, +cut]` widened by one pixel, and its reference row is the reference
/// row of the full-sky geometry `f` less the number of rows cut below the band.
pub proof fn lemma_band_containment(res: Frac, cut: Frac, f: (Shape, WCS), g: (Shape, WCS), j: int)
    requires
        valid_res(res),
        valid_cut(cut),
        is_fullsky_geometry(res, f),
        is_band_geometry(res, cut, g),
        0 <= j < g.0.1,
    ensures
        ({
            let (n, d) = g.1.lat_of_row(j);
            let slack = g.1.spec_cdelt2();
            let bound = (cut.num * slack.den + slack.num * cut.den) * d;
            &&& d > 0
            &&& slack.num > 0
            &&& -bound <= n * cut.den * slack.den <= bound
        }),
        ({
            let (full, band) = (f.1.spec_crpix2(), g.1.spec_crpix2());
            band.num * full.den == (full.num - band_start(full_ny(res), cut) * full.den) * band.den
        }),
{
    let ny = full_ny(res);
    let s = band_start(ny, cut);
    let t = band_stop(ny, cut);
    let r = j + s;
    let cn = cut.num as int;
    let cd = cut.den as int;
    let b = 180 * cd;
    let m = ny - 1;
    let (n, d) = g.1.lat_of_row(j);
    let w = g.1;
    assert((ny + 1 - 2 * s) * 2 == ((ny + 1) - s * 2) * 2);
    assert(n == 180 * (2 * r + 1 - ny) && d == 2 * m) by (nonlinear_arith)
        requires
            n == w.spec_crval2().num * w.spec_cdelt2().den * w.spec_crpix2().den + w.spec_crval2().den
                * w.spec_cdelt2().num * ((j + 1) * w.spec_crpix2().den - w.spec_crpix2().num),
            d == w.spec_crval2().den * w.spec_cdelt2().den * w.spec_crpix2().den,
            w.spec_crval2().num == 0, w.spec_crval2().den == 1,
            w.spec_cdelt2().num == 180, w.spec_cdelt2().den == m,
            w.spec_crpix2().num == ny + 1 - 2 * s, w.spec_crpix2().den == 2, r == j + s, m == ny - 1;
    // upper side: r < stop <= round_div(a_max, b)
    let a_max = m * (90 * cd + cn);
    lemma_fundamental_div_mod(2 * a_max + b, 2 * b);
    assert(t * (2 * b) <= 2 * a_max + b) by (nonlinear_arith)
        requires t <= (2 * a_max + b) / (2 * b), b > 0,
            2 * a_max + b == (2 * b) * ((2 * a_max + b) / (2 * b)) + (2 * a_max + b) % (2 * b),
            0 <= (2 * a_max + b) % (2 * b);
    assert(90 * cd * (2 * r - m) <= cn * m + b) by (nonlinear_arith)
        requires r + 1 <= t, t * (2 * b) <= 2 * a_max + b, b == 180 * cd, a_max == m * (90 * cd + cn),
            cd > 0, cn >= 0, m >= 1;
    // lower side: r >= start
    if m * (90 * cd - cn) < 0 {
        assert(-(90 * cd * (2 * r - m)) <= cn * m + b) by (nonlinear_arith)
            requires m * (90 * cd - cn) < 0, r >= 0, cd > 0, cn >= 0, m >= 1, b == 180 * cd;
    } else {
        let a_min = m * (90 * cd - cn);
        lemma_fundamental_div_mod(2 * a_min + b, 2 * b);
        assert(-(90 * cd * (2 * r - m)) <= cn * m + b) by (nonlinear_arith)
            requires r >= (2 * a_min + b) / (2 * b), b == 180 * cd, a_min == m * (90 * cd - cn), cd > 0,
                2 * a_min + b == (2 * b) * ((2 * a_min + b) / (2 * b)) + (2 * a_min + b) % (2 * b),
                (2 * a_min + b) % (2 * b) < 2 * b;
    }
    assert(-((cn * m + 180 * cd) * d) <= n * cd * m <= (cn * m + 180 * cd) * d) by (nonlinear_arith)
        requires n == 180 * (2 * r + 1 - ny), d == 2 * m, m == ny - 1, m >= 1, cd > 0,
            90 * cd * (2 * r - m) <= cn * m + b, -(90 * cd * (2 * r - m)) <= cn * m + b, b == 180 * cd;
}

} // verus!
