//! Renders a color palette swatch image: caller-supplied hexadecimal color
//! strings are decoded, a readable label color is derived for each via a
//! luma threshold, both are substituted into a vector-graphics template,
//! and the result is rasterized to PNG bytes.

pub mod color;
pub mod hex;
pub mod raster;
pub mod render;
pub mod template;
