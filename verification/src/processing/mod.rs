//! Raw-to-RGB processing stages.

pub mod demosaic;
