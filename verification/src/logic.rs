//! Pure computations on measurements: numbers, ticks, colours and text.

pub mod binary32;
pub mod colormap;
pub mod display;
pub mod formatting;
pub mod text;
pub mod ticks;
