//! A color-representation and color-space-conversion library.
//!
//! Colors live in four spaces (RGB, HSL, HSV, HSI, each with alpha). Every
//! component is a fixed-point fraction of [`UNIT`]: the value `v` stands for
//! the real number `v / UNIT` on a `[0, 1]` scale. Conversions between any
//! two spaces are routed through a single hub representation (hue, chroma,
//! minimum channel, alpha), so each space only needs one encoder into and one
//! decoder out of the hub.

pub mod colors;
pub mod definitions;
pub mod maps;
pub mod math;
pub mod utils;

pub use definitions::{
    clamp_unit, wrap_hue, Color, ColorHSIA, ColorHSLA, ColorHSVA, ColorMap, ColorND, ColorRGBA,
    UNIT,
};
