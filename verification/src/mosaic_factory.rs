use crate::arith::{lemma_mean_is_byte, lemma_mul_le};
use crate::clock::{nanos_since, now};
use crate::diff::{calc_diff, lemma_no_mismatch_with_itself, mismatches};
use crate::error::MosaicError;
use crate::image_data::ImageData;
use crate::serial_mosaic::SerialMosaic;
use crate::tiling::lemma_buffer_lengths;
use vstd::prelude::*;

verus! {

/// The three stages of the mosaic pipeline. Every strategy returns, for every
/// engine, exactly what the engine's model says: strategies differ in how the
/// work is laid out, never in the result.
pub trait MosaicBuilder: Sync {
    /// Adds together channels in pixels belonging to the same tile, each
    /// channel is summed to a separate value.
    fn sum_tile_channels(&self, mosaic_factory: &MosaicFactory) -> (tile_sum: Vec<u32>)
        requires
            mosaic_factory.wf(),
        ensures
            tile_sum@ == mosaic_factory.tile_sums(),
    ;

    /// Calculates the average of each of the channels in a tile. Also
    /// calculates the global image average, which is the mean of the tile
    /// averages and not that of the pixels.
    fn calc_tile_average(&self, mosaic_factory: &MosaicFactory, tile_sum: &[u32]) -> (averages: (
        Vec<u8>,
        Vec<u8>,
    ))
        requires
            mosaic_factory.wf(),
            tile_sum.len() == mosaic_factory.tile_buffer_len(),
        ensures
            averages.0@ == mosaic_factory.tile_averages(tile_sum@),
            averages.1@ == mosaic_factory.global_average(averages.0@),
    ;

    /// Creates a mosaic from the tile averages.
    fn create_mosaic(&self, mosaic_factory: &MosaicFactory, tile_average: &[u8]) -> (mosaic: Vec<
        u8,
    >)
        requires
            mosaic_factory.wf(),
            tile_average.len() == mosaic_factory.tile_buffer_len(),
        ensures
            mosaic@ == mosaic_factory.mosaic(tile_average@),
    ;
}

/// What the stages of one strategy returned for one engine.
pub struct StageResults {
    /// The sums of the first stage.
    pub tile_sum: Vec<u32>,
    /// The tile averages of the second stage.
    pub tile_average: Vec<u8>,
    /// The global average of the second stage.
    pub global_average: Vec<u8>,
    /// The mosaic of the third stage.
    pub mosaic: Vec<u8>,
}

/// Counts, position by position and as far as both buffers reach, the
/// entries in which the results of a strategy differ from those of a
/// reference: tile sums, tile averages, global average and mosaic, in this
/// order.
pub fn compare_stages(candidate: &StageResults, reference: &StageResults) -> (counts: (
    usize,
    usize,
    usize,
    usize,
))
    ensures
        counts.0 == mismatches(candidate.tile_sum@, reference.tile_sum@),
        counts.1 == mismatches(candidate.tile_average@, reference.tile_average@),
        counts.2 == mismatches(candidate.global_average@, reference.global_average@),
        counts.3 == mismatches(candidate.mosaic@, reference.mosaic@),
{
    (
        calc_diff(candidate.tile_sum.as_slice(), reference.tile_sum.as_slice()),
        calc_diff(candidate.tile_average.as_slice(), reference.tile_average.as_slice()),
        calc_diff(candidate.global_average.as_slice(), reference.global_average.as_slice()),
        calc_diff(candidate.mosaic.as_slice(), reference.mosaic.as_slice()),
    )
}

/// An image cut into square tiles, with the tiling worked out once.
pub struct MosaicFactory {
    pub tile_side_length: u32,
    pub tile_pixels: u32,
    pub tiles_x: u32,
    pub tiles_y: u32,
    pub image_data: ImageData,
}

/// The tile side lengths for which the sum of a tile's channel always fits
/// 32 bits: the sides up to 4104 (and zero, which is refused for itself).
pub open spec fn tile_side_in_range(tile_side_length: u32) -> bool {
    255 * (tile_side_length * tile_side_length) <= u32::MAX
}

impl MosaicFactory {
    /// The tiling covers the image exactly and no sum can overflow.
    pub open spec fn wf(&self) -> bool {
        &&& self.image_data.wf()
        &&& self.tile_side_length > 0
        &&& self.tile_pixels == self.tile_side_length * self.tile_side_length
        &&& tile_side_in_range(self.tile_side_length)
        &&& self.tiles_x * self.tile_side_length == self.image_data.width
        &&& self.tiles_y * self.tile_side_length == self.image_data.height
    }

    /// Number of tiles.
    pub open spec fn tile_count(&self) -> int {
        self.tiles_x * self.tiles_y
    }

    /// Length of a buffer with one entry per tile and channel.
    pub open spec fn tile_buffer_len(&self) -> int {
        self.tiles_x * self.tiles_y * self.image_data.channels
    }

    /// Where the entry of channel `channel` of tile `(tile_x, tile_y)` stands
    /// in a buffer with one entry per tile and channel.
    pub open spec fn tile_entry(&self, tile_x: int, tile_y: int, channel: int) -> int {
        (tile_y * self.tiles_x + tile_x) * self.image_data.channels + channel
    }

    /// Sum of one channel over the first `count` pixels of row `pixel_y` of a tile.
    pub open spec fn row_segment_sum(
        &self,
        tile_x: int,
        tile_y: int,
        channel: int,
        pixel_y: int,
        count: int,
    ) -> int
        decreases count,
    {
        if count <= 0 {
            0
        } else {
            self.row_segment_sum(tile_x, tile_y, channel, pixel_y, count - 1)
                + self.image_data.byte_at(
                tile_x * self.tile_side_length + count - 1,
                tile_y * self.tile_side_length + pixel_y,
                channel,
            )
        }
    }

    /// Sum of one channel over the first `rows` rows of a tile.
    pub open spec fn tile_rows_sum(&self, tile_x: int, tile_y: int, channel: int, rows: int) -> int
        decreases rows,
    {
        if rows <= 0 {
            0
        } else {
            self.tile_rows_sum(tile_x, tile_y, channel, rows - 1) + self.row_segment_sum(
                tile_x,
                tile_y,
                channel,
                rows - 1,
                self.tile_side_length as int,
            )
        }
    }

    /// Sum of the raw bytes of one channel over all pixels of one tile.
    pub open spec fn tile_sum(&self, tile_x: int, tile_y: int, channel: int) -> int {
        self.tile_rows_sum(tile_x, tile_y, channel, self.tile_side_length as int)
    }

    /// The sum that belongs at `index` of the buffer of tile sums.
    pub open spec fn entry_sum(&self, index: int) -> int {
        let channels = self.image_data.channels as int;
        let tile = index / channels;
        self.tile_sum(tile % (self.tiles_x as int), tile / (self.tiles_x as int), index % channels)
    }

    /// The result of the first stage: for every tile and channel, the sum of
    /// that channel over the tile's pixels.
    pub open spec fn tile_sums(&self) -> Seq<u32> {
        Seq::new(self.tile_buffer_len() as nat, |index: int| self.entry_sum(index) as u32)
    }

    /// The average that a sum gives: the quotient by the number of pixels of a
    /// tile, rounded down. A quotient above 255, which no sum of a tile's
    /// bytes gives, keeps its low eight bits.
    pub open spec fn average_of(&self, sum: u32) -> u8 {
        ((sum / self.tile_pixels) % 256) as u8
    }

    /// The first result of the second stage: the average of every sum.
    pub open spec fn tile_averages(&self, sums: Seq<u32>) -> Seq<u8> {
        Seq::new(sums.len(), |index: int| self.average_of(sums[index]))
    }

    /// Sum of the averages of one channel over the first `tiles` tiles.
    pub open spec fn channel_total(&self, averages: Seq<u8>, channel: int, tiles: int) -> int
        decreases tiles,
    {
        if tiles <= 0 {
            0
        } else {
            self.channel_total(averages, channel, tiles - 1) + averages[(tiles - 1)
                * self.image_data.channels + channel]
        }
    }

    /// Mean of the tile averages of one channel, rounded down; zero where
    /// there is no tile.
    pub open spec fn channel_mean(&self, averages: Seq<u8>, channel: int) -> u8 {
        if self.tile_count() == 0 {
            0
        } else {
            (self.channel_total(averages, channel, self.tile_count()) / self.tile_count()) as u8
        }
    }

    /// The second result of the second stage: for every channel, the mean of
    /// the tile averages.
    pub open spec fn global_average(&self, averages: Seq<u8>) -> Seq<u8> {
        Seq::new(
            self.image_data.channels as nat,
            |channel: int| self.channel_mean(averages, channel),
        )
    }

    /// The entry of the tile buffer that owns byte `index` of the image: that
    /// of the byte's channel in the tile in which the byte's pixel lies.
    pub open spec fn owner_entry(&self, index: int) -> int {
        let channels = self.image_data.channels as int;
        let pixel = index / channels;
        let x = pixel % (self.image_data.width as int);
        let y = pixel / (self.image_data.width as int);
        self.tile_entry(
            x / (self.tile_side_length as int),
            y / (self.tile_side_length as int),
            index % channels,
        )
    }

    /// The result of the third stage: an image of the engine's size in which
    /// every byte is the average of its channel in its tile.
    pub open spec fn mosaic(&self, averages: Seq<u8>) -> Seq<u8> {
        Seq::new(self.image_data.data.len() as nat, |index: int| averages[self.owner_entry(index)])
    }

    /// The mosaic of the engine's image: the three stages one after the other.
    pub open spec fn spec_mosaic(&self) -> Seq<u8> {
        self.mosaic(self.tile_averages(self.tile_sums()))
    }

    /// The average that `sum` gives: its quotient by the number of pixels
    /// of a tile, rounded down, of which the low eight bits are kept.
    pub fn average(&self, sum: u32) -> (average: u8)
        requires
            self.wf(),
        ensures
            average == self.average_of(sum),
    {
        proof {
            assert(self.tile_pixels > 0) by (nonlinear_arith)
                requires
                    self.tile_pixels == self.tile_side_length * self.tile_side_length,
                    self.tile_side_length > 0,
            ;
        }
        ((sum / self.tile_pixels) % 256) as u8
    }

    /// The mean per channel that the totals of the tile averages give: each
    /// total divided by the number of tiles, rounded down, and zero where
    /// there is no tile.
    pub fn means_of_totals(&self, totals: &[u128]) -> (means: Vec<u8>)
        requires
            self.wf(),
            forall|channel: int|
                0 <= channel < totals.len() ==> #[trigger] totals@[channel] <= 255
                    * self.tile_count(),
        ensures
            means.len() == totals.len(),
            forall|channel: int|
                0 <= channel < totals.len() ==> #[trigger] means[channel] == if self.tile_count()
                    == 0 {
                    0
                } else {
                    totals@[channel] as int / self.tile_count()
                },
    {
        proof {
            lemma_mul_le(
                self.tiles_x as int,
                self.tiles_y as int,
                u32::MAX as int,
                u32::MAX as int,
            );
        }
        let tiles = (self.tiles_x as u128) * (self.tiles_y as u128);
        let mut means: Vec<u8> = Vec::new();
        let mut channel: usize = 0;
        while channel < totals.len()
            invariant
                tiles == self.tile_count(),
                channel <= totals.len(),
                means.len() == channel,
                forall|c: int|
                    0 <= c < totals.len() ==> #[trigger] totals@[c] <= 255 * self.tile_count(),
                forall|c: int|
                    0 <= c < channel ==> #[trigger] means[c] == if self.tile_count() == 0 {
                        0
                    } else {
                        totals@[c] as int / self.tile_count()
                    },
            decreases totals.len() - channel,
        {
            let mean: u128 = if tiles > 0 {
                let total = totals[channel];
                proof {
                    lemma_mean_is_byte(total as int, tiles as int);
                }
                total / tiles
            } else {
                0
            };
            means.push(mean as u8);
            channel += 1;
        }
        means
    }

    /// Length of a buffer with one entry per tile and channel.
    pub fn tile_buffer_size(&self) -> (size: usize)
        requires
            self.wf(),
        ensures
            size == self.tile_buffer_len(),
            size <= self.image_data.data.len(),
            size > 0 ==> self.tiles_x > 0 && self.tiles_y > 0 && self.image_data.channels > 0,
    {
        proof {
            lemma_buffer_lengths(self);
        }
        // With a factor at zero the product of the other two need not fit.
        if self.tiles_x == 0 || self.tiles_y == 0 || self.image_data.channels == 0 {
            assert(self.tiles_x * self.tiles_y * self.image_data.channels == 0) by (nonlinear_arith)
                requires
                    self.tiles_x == 0 || self.tiles_y == 0 || self.image_data.channels == 0,
            ;
            return 0;
        }
        proof {
            lemma_mul_le(
                self.tiles_x * self.tiles_y,
                1,
                self.tiles_x * self.tiles_y,
                self.image_data.channels as int,
            );
            assert(self.tiles_x * self.tiles_y * self.image_data.channels > 0) by (nonlinear_arith)
                requires
                    self.tiles_x > 0,
                    self.tiles_y > 0,
                    self.image_data.channels > 0,
            ;
        }
        self.tiles_x as usize * self.tiles_y as usize * self.image_data.channels as usize
    }

    /// The three stages, one after the other, by the given strategy: the
    /// mosaic of the engine's image, as long as the image.
    pub fn generate_mosaic<B: MosaicBuilder + ?Sized>(&self, mosaic_builder: &B) -> (mosaic: Vec<
        u8,
    >)
        requires
            self.wf(),
        ensures
            mosaic@ == self.spec_mosaic(),
            mosaic.len() == self.image_data.data.len(),
    {
        let tile_sum = mosaic_builder.sum_tile_channels(self);
        let average_results = mosaic_builder.calc_tile_average(self, tile_sum.as_slice());
        mosaic_builder.create_mosaic(self, average_results.0.as_slice())
    }

    /// Runs the serial strategy and the given one side by side and counts,
    /// position by position, the entries in which their results differ:
    /// tile sums, tile averages, global average and mosaic, in this order.
    /// The second and third stage of the given strategy are fed what the
    /// serial strategy returned for the stage before, so that a difference
    /// shows in the stage that made it. Every strategy meets the contract
    /// of [`MosaicBuilder`], so every count is zero.
    pub fn check_correctness<B: MosaicBuilder + ?Sized>(&self, mosaic_builder: &B) -> (mismatches:
        (usize, usize, usize, usize))
        requires
            self.wf(),
        ensures
            mismatches == (0usize, 0usize, 0usize, 0usize),
    {
        let serial_stage_1 = SerialMosaic.sum_tile_channels(self);
        let serial_stage_2 = SerialMosaic.calc_tile_average(self, serial_stage_1.as_slice());
        let serial_stage_3 = SerialMosaic.create_mosaic(self, serial_stage_2.0.as_slice());
        let new_stage_1 = mosaic_builder.sum_tile_channels(self);
        let new_stage_2 = mosaic_builder.calc_tile_average(self, serial_stage_1.as_slice());
        let new_stage_3 = mosaic_builder.create_mosaic(self, serial_stage_2.0.as_slice());
        let reference = StageResults {
            tile_sum: serial_stage_1,
            tile_average: serial_stage_2.0,
            global_average: serial_stage_2.1,
            mosaic: serial_stage_3,
        };
        let candidate = StageResults {
            tile_sum: new_stage_1,
            tile_average: new_stage_2.0,
            global_average: new_stage_2.1,
            mosaic: new_stage_3,
        };
        proof {
            lemma_no_mismatch_with_itself(reference.tile_sum@, reference.tile_sum@.len() as int);
            lemma_no_mismatch_with_itself(
                reference.tile_average@,
                reference.tile_average@.len() as int,
            );
            lemma_no_mismatch_with_itself(
                reference.global_average@,
                reference.global_average@.len() as int,
            );
            lemma_no_mismatch_with_itself(reference.mosaic@, reference.mosaic@.len() as int);
        }
        compare_stages(&candidate, &reference)
    }

    /// Runs each stage of the given strategy `benchmark_runs` times, reads
    /// the clock for each stage of each run, and returns the mean per stage
    /// in nanoseconds, rounded down, as [`mean_stage_times`] gives it for the
    /// readings. What the clock shows is not known beforehand: of the
    /// numbers no more is promised than that they are the means of
    /// `benchmark_runs` readings.
    pub fn benchmark<B: MosaicBuilder + ?Sized>(&self, mosaic_builder: &B, benchmark_runs: u32) -> (means:
        (u128, u128, u128))
        requires
            self.wf(),
            benchmark_runs > 0,
        ensures
            (exists|readings: Seq<(u128, u128, u128)>|
                readings.len() == benchmark_runs && means == #[trigger] mean_times(readings)),
    {
        let mut readings: Vec<(u128, u128, u128)> = Vec::new();
        let mut run: u32 = 0;
        while run < benchmark_runs
            invariant
                self.wf(),
                run <= benchmark_runs,
                readings.len() == run,
            decreases benchmark_runs - run,
        {
            let start = now();
            let tile_sum = mosaic_builder.sum_tile_channels(self);
            let sum_tile_channels_time = nanos_since(&start);

            let start = now();
            let tile_average = mosaic_builder.calc_tile_average(self, tile_sum.as_slice());
            let calc_tile_average_time = nanos_since(&start);

            let start = now();
            let _ = mosaic_builder.create_mosaic(self, tile_average.0.as_slice());
            let create_mosaic_time = nanos_since(&start);

            readings.push((sum_tile_channels_time, calc_tile_average_time, create_mosaic_time));
            run += 1;
        }
        mean_stage_times(readings.as_slice())
    }

    /// Width and height of the mosaic in pixels: the tiles of each axis
    /// times the side of a tile, which is the size of the engine's image.
    pub fn mosaic_size(&self) -> (size: (u32, u32))
        requires
            self.wf(),
        ensures
            size.0 == self.tiles_x * self.tile_side_length,
            size.1 == self.tiles_y * self.tile_side_length,
            size.0 == self.image_data.width,
            size.1 == self.image_data.height,
    {
        (self.tiles_x * self.tile_side_length, self.tiles_y * self.tile_side_length)
    }

    /// Whether `tile_side_length` is small enough for sums of 32 bits.
    pub fn supports_tile_side(tile_side_length: u32) -> (supported: bool)
        ensures
            supported == tile_side_in_range(tile_side_length),
    {
        let side = tile_side_length as u128;
        proof {
            lemma_mul_le(
                tile_side_length as int,
                tile_side_length as int,
                u32::MAX as int,
                u32::MAX as int,
            );
        }
        255 * (side * side) <= u32::MAX as u128
    }

    /// Lays the tiling of side `tile_side_length` over an image that was cut
    /// down to whole tiles of that side. A side of zero is refused, and so
    /// is one so long that the sums of a tile need not fit 32 bits.
    pub fn new(image_data: ImageData, tile_side_length: u32) -> (result: Result<
        MosaicFactory,
        MosaicError,
    >)
        requires
            image_data.wf(),
            tile_side_length > 0 ==> image_data.aligned_to(tile_side_length),
        ensures
            tile_side_length == 0 || !tile_side_in_range(tile_side_length) ==> result is Err
                && result->Err_0 == MosaicError::InvalidTileSize,
            tile_side_length > 0 && tile_side_in_range(tile_side_length) ==> {
                &&& result is Ok
                &&& result->Ok_0.wf()
                &&& result->Ok_0.image_data == image_data
                &&& result->Ok_0.tile_side_length == tile_side_length
                &&& result->Ok_0.tile_pixels == tile_side_length * tile_side_length
                &&& result->Ok_0.tiles_x == image_data.width as int / tile_side_length as int
                &&& result->Ok_0.tiles_y == image_data.height as int / tile_side_length as int
            },
    {
        if tile_side_length == 0 || !Self::supports_tile_side(tile_side_length) {
            return Err(MosaicError::InvalidTileSize);
        }
        proof {
            assert(tile_side_length * tile_side_length <= 255 * (tile_side_length
                * tile_side_length)) by (nonlinear_arith);
            vstd::arithmetic::div_mod::lemma_fundamental_div_mod(
                image_data.width as int,
                tile_side_length as int,
            );
            vstd::arithmetic::div_mod::lemma_fundamental_div_mod(
                image_data.height as int,
                tile_side_length as int,
            );
            assert(forall|a: int, b: int| #[trigger] (a * b) == b * a) by (nonlinear_arith);
        }
        Ok(
            MosaicFactory {
                tile_side_length,
                tile_pixels: tile_side_length * tile_side_length,
                tiles_x: image_data.width / tile_side_length,
                tiles_y: image_data.height / tile_side_length,
                image_data,
            },
        )
    }
}

/// `amount`, cut off at the largest number of 128 bits.
pub open spec fn saturated(amount: int) -> int {
    if amount > u128::MAX {
        u128::MAX as int
    } else {
        amount
    }
}

/// The totals per stage of the first `taken` readings. A total stays at
/// the largest number of 128 bits once it has reached it.
pub open spec fn total_times(readings: Seq<(u128, u128, u128)>, taken: int) -> (int, int, int)
    decreases taken,
{
    if taken <= 0 {
        (0, 0, 0)
    } else {
        let before = total_times(readings, taken - 1);
        let reading = readings[taken - 1];
        (
            saturated(before.0 + reading.0),
            saturated(before.1 + reading.1),
            saturated(before.2 + reading.2),
        )
    }
}

/// The means per stage of the readings: the totals divided by the number
/// of readings, rounded down.
pub open spec fn mean_times(readings: Seq<(u128, u128, u128)>) -> (u128, u128, u128) {
    let totals = total_times(readings, readings.len() as int);
    let runs = readings.len() as int;
    ((totals.0 / runs) as u128, (totals.1 / runs) as u128, (totals.2 / runs) as u128)
}

/// Adds the nanoseconds of one run to the totals per stage. A total that
/// would pass 128 bits stays at the largest number.
pub fn add_stage_times(totals: (u128, u128, u128), sample: (u128, u128, u128)) -> (raised: (
    u128,
    u128,
    u128,
))
    ensures
        raised.0 == saturated(totals.0 + sample.0),
        raised.1 == saturated(totals.1 + sample.1),
        raised.2 == saturated(totals.2 + sample.2),
{
    (
        totals.0.saturating_add(sample.0),
        totals.1.saturating_add(sample.1),
        totals.2.saturating_add(sample.2),
    )
}

/// The mean per stage of the readings of all runs, in nanoseconds: the
/// readings of each stage added up and divided by the number of runs,
/// rounded down.
pub fn mean_stage_times(readings: &[(u128, u128, u128)]) -> (means: (u128, u128, u128))
    requires
        readings.len() > 0,
    ensures
        means == mean_times(readings@),
{
    let mut totals: (u128, u128, u128) = (0, 0, 0);
    let mut run: usize = 0;
    while run < readings.len()
        invariant
            run <= readings.len(),
            totals.0 == total_times(readings@, run as int).0,
            totals.1 == total_times(readings@, run as int).1,
            totals.2 == total_times(readings@, run as int).2,
        decreases readings.len() - run,
    {
        totals = add_stage_times(totals, readings[run]);
        run += 1;
    }
    let runs = readings.len() as u128;
    proof {
        lemma_mean_of_total_fits(totals.0 as int, runs as int);
        lemma_mean_of_total_fits(totals.1 as int, runs as int);
        lemma_mean_of_total_fits(totals.2 as int, runs as int);
    }
    (totals.0 / runs, totals.1 / runs, totals.2 / runs)
}

/// A total of 128 bits divided by a positive number is a number of 128 bits.
proof fn lemma_mean_of_total_fits(total: int, runs: int)
    requires
        0 <= total <= u128::MAX,
        runs > 0,
    ensures
        0 <= total / runs <= u128::MAX,
{
    vstd::arithmetic::div_mod::lemma_div_pos_is_pos(total, runs);
    vstd::arithmetic::div_mod::lemma_div_is_ordered_by_denominator(total, 1, runs);
    vstd::arithmetic::div_mod::lemma_div_basics(total);
}

} // verus!
