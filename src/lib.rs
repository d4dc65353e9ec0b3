//! Decode-and-normalize core of an image viewer, each function with a
//! machine-checked contract: RGBA pixel buffers with checked construction,
//! orientation correction, one TIFF/EXIF tag walker fed by extractors for JPEG,
//! PNG, WebP, TIFF, ISOBMFF (AVIF, HEIC) and JPEG XL containers, a BMP decoder
//! with resource guards, GIF frame compositing and animation timing, and the
//! small pixel and text helpers of the viewer around it.

pub mod bytes;
pub mod text;
pub mod image;
pub mod orient;
pub mod tiff;
pub mod exif;
pub mod container;
pub mod laws;
pub mod bmp;
pub mod anim;
pub mod convert;
pub mod thumb;
pub mod names;
pub mod dates;
pub mod status;
pub mod gallery;
pub mod render;
