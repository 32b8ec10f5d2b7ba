//! Conversion of high-dynamic-range images into RGB9E5 textures stored in
//! KTX 2.0 containers, with the job scheduler that drives a batch of
//! conversions.
//!
//! Colour samples are handled by their bit patterns and modelled as exact
//! integers ([`binary32`], [`binary16`], [`samples`]). [`rgb9e5`] encodes
//! one pixel and [`decode`] reads it back; [`encoder`] encodes the mip
//! levels of an [`image`]; [`ktx2`] lays the packed levels out as a file.
//! [`scheduler`] decides what happens to the jobs of a batch, and [`batch`]
//! checks the batch beforehand and reports on it afterwards.

pub mod arith;
pub mod endian;
pub mod binary16;
pub mod binary32;
pub mod samples;
pub mod rgb9e5;
pub mod decode;
pub mod image;
pub mod encoder;
pub mod ktx2;
pub mod scheduler;
pub mod batch;
