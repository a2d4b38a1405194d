# rawshift

Raw image processing with machine-checked contracts: black level
subtraction, bilinear demosaicing, and the container-level metadata embedding
used on export (ICC profiles into JPEG, JXL and AVIF; XMP packets into JPEG
and AVIF), with the ISOBMFF box walking and `iloc` offset relocation these
need.

## Layout

- `src/` — the library, verified with Verus.
  - `bytes.rs` — big-endian fields in byte buffers.
  - `isobmff.rs` — box walking, `iloc` parsing and offset relocation, and the
    laws of relocation (what it changes, what it leaves alone, how it is undone).
  - `image.rs`, `black_level.rs`, `processing/demosaic.rs`, `transforms/` —
    sensor data and its processing.
  - `model_match.rs` — the camera-model name lookups (exact and substring).
  - `metadata/` — ICC and XMP embedding. `icc_serialize.rs`, `jpeg.rs` and the
    parse wrappers in `icc_serialize.rs` and `xmp.rs` are the boundary to
    `gamut-icc`, `gamut-xmp` and `img-parts`: each trusted function there says
    in its doc comment what its contract assumes of the crate it calls.
- `tests/` — tests run against the compiled library with the real crates.
- `app/` — what stays outside the verified library: floating-point colour
  work, the camera calibration tables (looked up through `model_match`), error `Display` impls, and the VA-API
  runtime loader with its C-layout structures.
