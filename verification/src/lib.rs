//! Time, calendar and selection logic behind the Diamond Fuji observation
//! search: when the sun sets behind the summit of Mount Fuji, seen from a
//! given place on a given day.
//!
//! The astronomy and geodesy of the search run on floating point and live
//! outside this library; what is decided on integers stands here with its
//! contract: normalising a sunset clock time, the calendar arithmetic of the
//! observation window, the choice of the best sample, the grouping of samples
//! into azimuth bins and the shape of the resulting polygon.

pub mod alignment;
pub mod bins;
pub mod calendar;
pub mod clock;
pub mod geometry;
pub mod ring;
pub mod selection;
pub mod window;
