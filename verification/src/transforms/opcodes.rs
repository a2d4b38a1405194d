//! DNG Opcode List processing.
//!
//! DNG Opcodes allow for deferred image processing steps like lens distortion
//! correction (warping), vignetting correction, bad pixel fixing, and gain maps
//! (crucial for Apple ProRAW). Opcode application works on floating-point
//! image data and lives outside this library.

use vstd::prelude::*;

verus! {

/// A single DNG Opcode.
#[derive(Debug, Clone, Copy, PartialEq, Eq)]
pub enum DngOpcode {
    GainMap,
    WarpRectilinear,
    FixBadPixels,
}

/// Applies the parsed opcode lists (`OpcodeList1`, `2`, `3`) in order.
pub struct OpcodeProcessor {}

} // verus!
