//! Tile mosaics of bitmaps.
//!
//! An image is cut into square tiles, each tile is reduced to the average of
//! its pixels, channel by channel, and every pixel of the result takes the
//! average of the tile it lies in. The three stages (sum, average, scatter)
//! exist in three interchangeable strategies whose results are proved equal.
//!
//! - [`image_data`] holds decoded pixels and cuts them down to whole tiles.
//! - [`mosaic_factory`] holds the tiling, says what each stage returns, and
//!   drives, compares and times the strategies; [`diff`] counts where two
//!   buffers differ.
//! - [`serial_mosaic`], [`parallel_mosaic`] and [`slow_parallel_mosaic`] are
//!   the strategies; [`par`] is what they take on trust from rayon.
//! - [`laws`] states what holds of the whole, [`tiling`], [`schedule`] and
//!   [`arith`] what the proofs need on the way.
//! - [`args`], [`output`], [`clock`] and [`error`] serve the front end.
pub mod args;
pub mod arith;
pub mod clock;
pub mod diff;
pub mod error;
pub mod image_data;
pub mod laws;
pub mod mosaic_factory;
pub mod output;
pub mod par;
pub mod parallel_mosaic;
pub mod schedule;
pub mod serial_mosaic;
pub mod slow_parallel_mosaic;
pub mod tiling;

pub use crate::args::{AlgorithmType, CliArgs};
pub use crate::error::MosaicError;
pub use crate::image_data::{ColorFormat, ImageData};
pub use crate::mosaic_factory::{MosaicBuilder, MosaicFactory};
pub use crate::parallel_mosaic::ParallelMosaic;
pub use crate::serial_mosaic::SerialMosaic;
pub use crate::slow_parallel_mosaic::SlowParallelMosaic;
