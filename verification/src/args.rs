use crate::error::MosaicError;
use crate::mosaic_factory::{tile_side_in_range, MosaicFactory};
use vstd::prelude::*;

verus! {

/// The strategy that runs the three stages.
#[derive(Clone, Copy, Debug, PartialEq, Eq, Structural)]
pub enum AlgorithmType {
    /// One thread, nested loops.
    Serial,
    /// One task per disjoint part of each stage's output.
    Parallel,
    /// One task per row of tiles, every write made while holding a lock.
    SlowParallel,
}

/// What the command line asks for.
#[derive(Clone, Debug)]
pub struct CliArgs {
    /// Path to a source image.
    pub input_image_path: String,
    /// Strategy to use in the image processing.
    pub algorithm_type: AlgorithmType,
    /// Path to save an output file; without one the result is computed and dropped.
    pub output_image_path: Option<String>,
    /// Tile side length in pixels.
    pub tile_side_length: u32,
    /// Number of benchmark iterations to run; zero runs none.
    pub benchmark_runs: u32,
}

/// The steps of one run, in the order in which they are taken.
#[derive(Clone, Copy, Debug, PartialEq, Eq, Structural)]
pub struct Workflow {
    /// Compare the chosen strategy with the serial one, then time it.
    pub check_and_benchmark: bool,
    /// Number of timed iterations; positive exactly when `check_and_benchmark` holds.
    pub benchmark_runs: u32,
    /// Hand the mosaic to the encoder; otherwise it is dropped.
    pub save: bool,
}

impl CliArgs {
    /// The tile side length that is used when none is given.
    pub const DEFAULT_TILE_SIDE_LENGTH: u32 = 32;

    /// The steps that these arguments ask for.
    pub open spec fn spec_workflow(&self) -> Workflow {
        Workflow {
            check_and_benchmark: self.benchmark_runs > 0,
            benchmark_runs: self.benchmark_runs,
            save: self.output_image_path is Some,
        }
    }

    /// Whether an engine takes the tile side length: it is not zero, and the
    /// sums of a tile fit 32 bits.
    pub open spec fn tile_side_accepted(&self) -> bool {
        self.tile_side_length > 0 && tile_side_in_range(self.tile_side_length)
    }

    /// Validates the arguments and lays out the run: a tile side length
    /// that no engine takes is refused, benchmarking precedes any save and
    /// happens only for a positive iteration count.
    pub fn workflow(&self) -> (plan: Result<Workflow, MosaicError>)
        ensures
            !self.tile_side_accepted() ==> plan == Err::<Workflow, MosaicError>(
                MosaicError::InvalidTileSize,
            ),
            self.tile_side_accepted() ==> plan == Ok::<Workflow, MosaicError>(
                self.spec_workflow(),
            ),
    {
        if self.tile_side_length == 0 || !MosaicFactory::supports_tile_side(self.tile_side_length) {
            return Err(MosaicError::InvalidTileSize);
        }
        Ok(
            Workflow {
                check_and_benchmark: self.benchmark_runs > 0,
                benchmark_runs: self.benchmark_runs,
                save: self.output_image_path.is_some(),
            },
        )
    }
}

} // verus!
