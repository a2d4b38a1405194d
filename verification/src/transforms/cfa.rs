//! Color Filter Array (CFA) demosaicing.
//!
//! This transform acts as a high-level wrapper around the demosaicing
//! algorithms of `crate::processing::demosaic`: it selects the algorithm and
//! turns raw sensor data into an RGB image buffer.

use crate::image::{RawImage, RgbImage};
use crate::processing::demosaic::{
    demosaic_ready, is_bilinear_output, rgb_len, Bilinear, DemosaicError, DemosaicMethod,
};
use vstd::prelude::*;

verus! {

/// Available demosaicing algorithms.
#[derive(Debug, Clone, Copy, PartialEq, Eq)]
pub enum DemosaicAlgorithm {
    /// Fast, simple bilinear interpolation.
    /// Good for previews or speed-critical applications.
    Bilinear,
    /// Adaptive Homogeneity-Directed (AHD) interpolation.
    /// Better quality for fine details, but slower; runs as bilinear for now.
    Ahd,
}

/// Demosaicing transform pipeline step.
pub struct CfaTransform {
    algorithm: DemosaicAlgorithm,
}

impl CfaTransform {
    /// The algorithm this transform runs.
    pub closed spec fn algorithm(&self) -> DemosaicAlgorithm {
        self.algorithm
    }

    /// Create a new CFA transform with the specified algorithm.
    pub fn new(algorithm: DemosaicAlgorithm) -> (t: Self)
        ensures
            t.algorithm() == algorithm,
    {
        Self { algorithm }
    }

    /// Apply demosaicing to a RawImage, producing an RgbImage of its active
    /// area. Every algorithm currently runs bilinear interpolation.
    pub fn apply(&self, raw: &RawImage) -> (r: Result<RgbImage, DemosaicError>)
        requires
            demosaic_ready(raw),
            rgb_len(raw) <= usize::MAX,
        ensures
            r matches Ok(img) && img.width == raw.active_area.size.width && img.height
                == raw.active_area.size.height && is_bilinear_output(raw, img.data@),
    {
        match self.algorithm {
            DemosaicAlgorithm::Bilinear | DemosaicAlgorithm::Ahd => {
                let method = Bilinear;
                Ok(method.demosaic(raw))
            },
        }
    }
}

} // verus!
