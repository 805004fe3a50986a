//! Finds text regions on comic pages, grows each to its speech bubble, and
//! lays replacement text out inside it: decoding of a text detector's output,
//! diagonal region growth, word wrapping with hyphenation, and splicing of
//! rendered patches back into the page.

use vstd::prelude::*;

pub mod compositor;
pub mod config;
pub mod detection;
pub mod expander;
pub mod geometry;
pub mod layout;
pub mod nms;
pub mod raster;
pub mod validation;
pub mod web;

verus! {

/// Padding, in pixels, added around each detected box when it fits.
pub const DEFAULT_PADDING: u16 = 10;

} // verus!
