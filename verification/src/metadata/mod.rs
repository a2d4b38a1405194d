//! Metadata embedding for exported image containers.

pub mod icc;
pub mod icc_serialize;
pub mod jpeg;
pub mod xmp;
