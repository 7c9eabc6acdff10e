//! Reprojection of vector geometries between coordinate reference systems:
//! coordinate validation, structure-preserving geometry dispatch, a bounded
//! pool of reusable coordinate buffers, a cached transformer configuration,
//! and Douglas-Peucker simplification with ring-validity rules.
//!
//! Coordinates are carried as the IEEE-754 binary64 bit patterns of their
//! components (`f64::to_bits`), so that every decision made on them here is
//! exact and checked; the floating-point arithmetic of projecting and of
//! measuring distances is done by the caller.
pub mod coordinates;
pub mod error;
pub mod simplification;
pub mod pool;
pub mod transformer;
pub mod geometry_processor;
pub mod conversions;
