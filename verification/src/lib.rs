//! Raw image processing: sensor-data transforms, demosaicing, and the
//! container-level metadata embedding used on export.

pub mod black_level;
pub mod bytes;
pub mod image;
pub mod isobmff;
pub mod model_match;
pub mod metadata;
pub mod processing;
pub mod transforms;
