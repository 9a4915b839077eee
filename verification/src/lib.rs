//! The decision core of a bead-sorting machine.
//!
//! A low-resolution camera frame of one bead is reduced to the number of the tube that
//! the bead belongs in:
//!
//! - [`color`]: unpacking 5/6/5 pixels and the distance of two colors in RGB space;
//! - [`lab`]: the CIE Lab coordinates of a color, in exact integer arithmetic, and the
//!   squared Lab distance that every threshold here is measured in;
//! - [`analysis`]: locating the bead in a frame and taking the mean color and variance
//!   of the pixels that agree best;
//! - [`palette`]: clustering colors online into a bounded palette;
//! - [`sorter`]: giving each cluster one of thirty tubes, and the nearest tube once all
//!   are in use.
//!
//! Every function carries a contract over a mathematical model of its data. The
//! contracts are proved, except those of the five small functions in [`sorter`] that call
//! `heapless::Vec`: these state what that crate's source shows.

pub mod analysis;
pub mod color;
pub mod lab;
pub mod palette;
pub mod sorter;

pub use crate::analysis::{analyze_image, analyze_image_debug, AnalysisConfig, BeadAnalysis};
pub use crate::color::Rgb;
pub use crate::palette::{Palette, PaletteEntry, PaletteMatch};
pub use crate::sorter::BeadSorter;
