use vstd::prelude::*;

pub mod classify;
pub mod csv;
pub mod frames;
pub mod geometry;
pub mod image;
pub mod kinds;
pub mod locale;
pub mod navigation;
pub mod settings;
pub mod text;
pub mod timestamps;
pub mod view;

verus! {

/// The detector is `SIZE` by `SIZE` pixels.
pub const SIZE: usize = 256;

/// The number of pixels of a frame.
pub const GRID_LEN: usize = 65536;

} // verus!
