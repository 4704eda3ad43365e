//! Integer core of a two-dimensional orbit visualiser: the pixel geometry of
//! a body's filled disk, its bounded orbit trail, and the choice of which
//! bodies attract which.

pub mod gravity;
pub mod planets;
pub mod raster;
pub mod trail;
