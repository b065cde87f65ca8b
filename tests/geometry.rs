use mapproj::cylindrical::car::Car;
use mapproj::img2celestial::Img2Celestial;
use mapproj::img2proj::WcsImgXY2ProjXY;
use mapproj::{CenteredProjection, ImgXY, LonLat};
use skygeom::enmap::{band_geometry, fullsky_geometry};
use skygeom::frac::Frac;
use skygeom::wcs::{ConfigurationError, WCS};

fn val(f: Frac) -> f64 {
    f.num as f64 / f.den as f64
}

fn deg(num: i64, den: i64) -> Frac {
    Frac::new(num, den)
}

fn engine(w: &WCS) -> Img2Celestial<Car, WcsImgXY2ProjXY> {
    let mut proj = CenteredProjection::new(Car::default());
    proj.set_proj_center_from_lonlat(&LonLat::new(val(w.crval1()).to_radians(), val(w.crval2()).to_radians()));
    let img2proj = WcsImgXY2ProjXY::from_cr(val(w.crpix1()), val(w.crpix2()), 0.0, val(w.cdelt1()), val(w.cdelt2()));
    Img2Celestial::new(img2proj, proj)
}

fn sky2pix(w: &WCS, lon: f64, lat: f64) -> (f64, f64) {
    let xy = engine(w).lonlat2img(&LonLat::new(lon, lat)).unwrap();
    (xy.x() - 1., xy.y() - 1.)
}

fn pix2sky(w: &WCS, x: f64, y: f64) -> (f64, f64) {
    let lonlat = engine(w).img2lonlat(&ImgXY::new(x + 1., y + 1.)).unwrap();
    (lonlat.lon(), lonlat.lat())
}

fn close(a: f64, b: f64) -> bool {
    (a - b).abs() <= 1e-6
}

#[test]
fn test_band_geometry() {
    let res = deg(1, 1);
    let dec_cut = deg(30, 1);
    let ((nx, ny), wcs) = band_geometry(res, dec_cut);
    assert_eq!(nx, 360);
    assert_eq!(ny, 60);
    assert_eq!(val(wcs.crpix1()), 180.5);
    assert_eq!(val(wcs.crpix2()), 31.0);
    assert_eq!(val(wcs.cdelt1()), -1.0);
    assert_eq!(val(wcs.cdelt2()), 1.0);
    assert_eq!(val(wcs.crval1()), 0.5);
    assert_eq!(val(wcs.crval2()), 0.0);
    assert_eq!(sky2pix(&wcs, 0.0, 0.0), (180., 30.));
}

#[test]
fn test_fullsky_geometry() {
    let res = deg(1, 1);
    let ((nx, ny), wcs) = fullsky_geometry(res);
    assert_eq!(nx, 360);
    assert_eq!(ny, 181);
    assert_eq!(val(wcs.crpix1()), 180.5);
    assert_eq!(val(wcs.crpix2()), 91.0);
    assert_eq!(val(wcs.cdelt1()), -1.0);
    assert_eq!(val(wcs.cdelt2()), 1.0);
    assert_eq!(val(wcs.crval1()), 0.5);
    assert_eq!(val(wcs.crval2()), 0.0);
    assert_eq!(sky2pix(&wcs, 0.0, 0.0), (180., 90.));
}

fn reference_wcs() -> WCS {
    WCS::new(deg(361, 2), deg(91, 1), deg(-1, 1), deg(1, 1), deg(1, 2), deg(0, 1)).unwrap()
}

#[test]
fn test_pix2sky_conversion() {
    let wcs = reference_wcs();
    let (lon, lat) = pix2sky(&wcs, 0., 0.);
    assert!(close(lon, 180_f64.to_radians()));
    assert!(close(lat, -90_f64.to_radians()));
    let (lon, lat) = pix2sky(&wcs, 22., 11.5);
    assert!(close(lon, 158_f64.to_radians()));
    assert!(close(lat, -78.5_f64.to_radians()));
}

#[test]
fn test_sky2pix_conversion() {
    let wcs = reference_wcs();
    let (x, y) = sky2pix(&wcs, 0., 0.);
    assert!(close(x, 180.));
    assert!(close(y, 90.));
}

#[test]
fn wcs_keeps_parameters_as_given() {
    let wcs = WCS::new(deg(3, 2), deg(5, 4), deg(-7, 6), deg(9, 8), deg(11, 10), deg(-13, 12)).unwrap();
    assert_eq!(wcs.crpix1(), deg(3, 2));
    assert_eq!(wcs.crpix2(), deg(5, 4));
    assert_eq!(wcs.cdelt1(), deg(-7, 6));
    assert_eq!(wcs.cdelt2(), deg(9, 8));
    assert_eq!(wcs.crval1(), deg(11, 10));
    assert_eq!(wcs.crval2(), deg(-13, 12));
}

#[test]
fn fullsky_shape_follows_rounding() {
    // 360 / 0.7 = 514.28..., 180 / 0.7 = 257.14...
    let ((nx, ny), wcs) = fullsky_geometry(deg(7, 10));
    assert_eq!((nx, ny), (514, 258));
    assert_eq!(wcs.cdelt1(), deg(-360, 514));
    assert_eq!(wcs.cdelt2(), deg(180, 257));
    assert_eq!(wcs.crpix1(), deg(515, 2));
    assert_eq!(wcs.crpix2(), deg(259, 2));
    assert_eq!(wcs.crval1(), deg(7, 20));
    // 360 / 0.8 = 450, 180 / 0.8 = 225, odd count of columns
    let ((nx, ny), wcs) = fullsky_geometry(deg(4, 5));
    assert_eq!((nx, ny), (450, 226));
    assert_eq!(val(wcs.crpix1()), 225.5);
    // 360 / 7 = 51.43, 180 / 7 = 25.71: rounds up along latitude
    let ((nx, ny), _) = fullsky_geometry(deg(7, 1));
    assert_eq!((nx, ny), (51, 27));
}

#[test]
fn fullsky_shape_at_half_degree_and_coarsest() {
    let ((nx, ny), _) = fullsky_geometry(deg(1, 2));
    assert_eq!((nx, ny), (720, 361));
    let ((nx, ny), wcs) = fullsky_geometry(deg(180, 1));
    assert_eq!((nx, ny), (2, 2));
    assert_eq!(val(wcs.cdelt1()), -180.0);
    assert_eq!(val(wcs.cdelt2()), 180.0);
    assert_eq!(val(wcs.crpix1()), 1.5);
    assert_eq!(val(wcs.crpix2()), 1.5);
}

#[test]
fn reference_pixel_maps_to_reference_position() {
    let ((_, _), wcs) = fullsky_geometry(deg(1, 1));
    let (lon, lat) = pix2sky(&wcs, val(wcs.crpix1()) - 1.0, val(wcs.crpix2()) - 1.0);
    assert!(close(lon, val(wcs.crval1()).to_radians()));
    assert!(close(lat, val(wcs.crval2()).to_radians()));
}

#[test]
fn pixel_sky_round_trip() {
    let ((_, _), wcs) = fullsky_geometry(deg(1, 1));
    for &(x, y) in &[(0.0, 1.0), (17.25, 45.5), (200.0, 100.0), (359.0, 179.0)] {
        let (lon, lat) = pix2sky(&wcs, x, y);
        let (x2, y2) = sky2pix(&wcs, lon, lat);
        assert!(close(x, x2) && close(y, y2), "{} {} -> {} {}", x, y, x2, y2);
    }
}

#[test]
fn band_past_half_a_row_beyond_the_pole_is_full_sky() {
    let ((nx, ny), wcs) = band_geometry(deg(1, 1), deg(91, 1));
    assert_eq!((nx, ny), (360, 181));
    assert_eq!(val(wcs.crpix2()), 91.0);
    // at exactly 90° the last row rounds to the pole's row index, which is excluded
    let ((_, ny), wcs) = band_geometry(deg(1, 1), deg(90, 1));
    assert_eq!(ny, 180);
    assert_eq!(val(wcs.crpix2()), 91.0);
}

#[test]
fn band_of_zero_cut_is_empty() {
    let ((nx, ny), wcs) = band_geometry(deg(1, 1), deg(0, 1));
    assert_eq!((nx, ny), (360, 0));
    assert_eq!(val(wcs.crpix2()), 1.0);
}

#[test]
fn band_rows_round_to_nearest() {
    // cut 30.4°: rows 59.6 and 120.4 round to 60 and 120
    let ((_, ny), wcs) = band_geometry(deg(1, 1), deg(304, 10));
    assert_eq!(ny, 60);
    assert_eq!(val(wcs.crpix2()), 31.0);
    // cut 30.6°: rows 59.4 and 120.6 round to 59 and 121
    let ((_, ny), wcs) = band_geometry(deg(1, 1), deg(306, 10));
    assert_eq!(ny, 62);
    assert_eq!(val(wcs.crpix2()), 32.0);
}

#[test]
fn band_rows_stay_within_cut() {
    let cut = 30.6;
    let ((_, ny), wcs) = band_geometry(deg(1, 1), deg(306, 10));
    for j in 0..ny {
        let (_, lat) = pix2sky(&wcs, 10.0, j as f64);
        assert!(lat.to_degrees().abs() <= cut + val(wcs.cdelt2()) + 1e-9);
    }
}

#[test]
fn wcs_rejects_zero_scale() {
    let zero = deg(0, 5);
    assert_eq!(WCS::new(deg(1, 1), deg(1, 1), zero, deg(1, 1), deg(0, 1), deg(0, 1)).err(), Some(ConfigurationError));
    assert_eq!(WCS::new(deg(1, 1), deg(1, 1), deg(-1, 1), zero, deg(0, 1), deg(0, 1)).err(), Some(ConfigurationError));
}

#[test]
fn wcs_rejects_centre_beyond_pole() {
    assert!(WCS::new(deg(1, 1), deg(1, 1), deg(-1, 1), deg(1, 1), deg(0, 1), deg(181, 2)).is_err());
    assert!(WCS::new(deg(1, 1), deg(1, 1), deg(-1, 1), deg(1, 1), deg(0, 1), deg(-181, 2)).is_err());
    assert!(WCS::new(deg(1, 1), deg(1, 1), deg(-1, 1), deg(1, 1), deg(0, 1), deg(90, 1)).is_ok());
    assert!(WCS::new(deg(1, 1), deg(1, 1), deg(-1, 1), deg(1, 1), deg(0, 1), deg(-180, 2)).is_ok());
}

#[test]
fn fullsky_at_finest_denominator() {
    // res = 1000/7900000 = 1/7900 degree, written with the largest accepted denominator
    let ((nx, ny), _) = fullsky_geometry(deg(1_000, 7_900_000));
    assert_eq!((nx, ny), (2_844_000, 1_422_001));
}
