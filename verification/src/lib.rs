//! Meme rendering engine: fits text into template slots by a binary search
//! over font sizes, composites glyph coverage masks onto RGBA rasters, and
//! scales nested content into rectangular slots.

pub mod compositor;
pub mod config;
pub mod fit;
pub mod glyphs;
pub mod raster;
pub mod scale;
pub mod template;
