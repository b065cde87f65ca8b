//! Pixel-grid geometry for sky maps in the plate carrée (CAR) projection.
//!
//! Angles and pixel positions are exact fractions, so the discretisation
//! rules (rounding a sky extent to a pixel count, placing the reference
//! pixel, cropping a declination band) are stated and proved exactly.
pub mod frac;
pub mod wcs;
pub mod enmap;
