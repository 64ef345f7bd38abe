//! A tiny register machine for scalar fields and a two-tone rasteriser for
//! the sign of the field it computes.
//!
//! Numbers are carried as IEEE-754 binary64 bit patterns (`u64`). The
//! arithmetic on them is supplied by the caller as a function from an
//! [`eval::Arith`] request to a bit pattern; everything around it — the text
//! format, the dataflow, the sampling grid and the pixel rule — is proved
//! here for every such function.

pub mod text;
pub mod ident;
pub mod literal;
pub mod program;
pub mod parse;
pub mod eval;
pub mod binary64;
pub mod canvas;
pub mod raster;
