use crate::arith::{lemma_div_mod_of_sum, lemma_index_coordinates, lemma_mul_le};
use crate::mosaic_factory::{MosaicBuilder, MosaicFactory};
use crate::par::{chunk_at, par_fill, par_fill_chunks};
use crate::tiling::{
    lemma_buffer_lengths, lemma_channel_total_bound,
    lemma_chunk_count, lemma_chunk_owner, lemma_entry_sum_fits, lemma_pixel_of_tile,
    lemma_row_segment_sum_bound, lemma_tile_entry, lemma_tile_rows_sum_bound,
};
use vstd::prelude::*;

verus! {

/// The strategy of disjoint parts: every stage cuts its output into parts
/// that no two tasks share, and rayon runs one task per part.
#[derive(Clone, Copy, Debug)]
pub struct ParallelMosaic;

/// The sum of one channel of one tile: the entry `index` of the first stage.
pub fn tile_channel_sum(factory: &MosaicFactory, index: usize) -> (sum: u32)
    requires
        factory.wf(),
        index < factory.tile_buffer_len(),
    ensures
        sum == factory.entry_sum(index as int),
{
    let channels = factory.image_data.channels as usize;
    let side = factory.tile_side_length as usize;
    let width = factory.image_data.width as usize;
    proof {
        lemma_buffer_lengths(factory);
        lemma_index_coordinates(
            index as int,
            factory.tiles_y as int,
            factory.tiles_x as int,
            channels as int,
        );
        assert(factory.tiles_y * factory.tiles_x == factory.tiles_x * factory.tiles_y)
            by (nonlinear_arith);
    }
    let tile = index / channels;
    let channel = index % channels;
    let tile_x = tile % factory.tiles_x as usize;
    let tile_y = tile / factory.tiles_x as usize;
    let ghost tx = tile_x as int;
    let ghost ty = tile_y as int;
    let ghost ch = channel as int;
    let mut sum: u32 = 0;
    let mut pixel_y: usize = 0;
    while pixel_y < side
        invariant
            factory.wf(),
            tx == tile_x < factory.tiles_x,
            ty == tile_y < factory.tiles_y,
            ch == channel < channels,
            channels == factory.image_data.channels,
            side == factory.tile_side_length,
            width == factory.image_data.width,
            factory.image_data.width * factory.image_data.height <= factory.image_data.data.len(),
            pixel_y <= side,
            sum == factory.tile_rows_sum(tx, ty, ch, pixel_y as int),
        decreases side - pixel_y,
    {
        let mut pixel_x: usize = 0;
        while pixel_x < side
            invariant
                factory.wf(),
                tx == tile_x < factory.tiles_x,
                ty == tile_y < factory.tiles_y,
                ch == channel < channels,
                channels == factory.image_data.channels,
                side == factory.tile_side_length,
                width == factory.image_data.width,
                factory.image_data.width * factory.image_data.height
                    <= factory.image_data.data.len(),
                pixel_y < side,
                pixel_x <= side,
                sum == factory.tile_rows_sum(tx, ty, ch, pixel_y as int) + factory.row_segment_sum(
                    tx,
                    ty,
                    ch,
                    pixel_y as int,
                    pixel_x as int,
                ),
            decreases side - pixel_x,
        {
            proof {
                lemma_pixel_of_tile(factory, tx, ty, pixel_x as int, pixel_y as int, ch);
                lemma_pixel_of_tile(factory, tx, ty, pixel_x as int, pixel_y as int, 0);
                lemma_tile_rows_sum_bound(factory, tx, ty, ch, pixel_y as int);
                lemma_row_segment_sum_bound(factory, tx, ty, ch, pixel_y as int, pixel_x as int);
                assert(255 * (pixel_y * side) + 255 * pixel_x + 255 <= 255 * (side * side))
                    by (nonlinear_arith)
                    requires
                        0 <= pixel_y < side,
                        0 <= pixel_x < side,
                ;
            }
            let x = tile_x * side + pixel_x;
            let y = tile_y * side + pixel_y;
            let pixel_index = (y * width + x) * channels;
            sum = sum + factory.image_data.data[pixel_index + channel] as u32;
            pixel_x += 1;
        }
        pixel_y += 1;
    }
    sum
}

/// The averages of all sums, one task per average.
pub fn tile_averages_in_parallel(factory: &MosaicFactory, tile_sum: &[u32]) -> (tile_average: Vec<
    u8,
>)
    requires
        factory.wf(),
    ensures
        tile_average@ == factory.tile_averages(tile_sum@),
{
    let mut tile_average: Vec<u8> = vec![0; tile_sum.len()];
    let average_of = |index: usize| -> (average: u8)
        requires
            index < tile_sum.len(),
        ensures
            average == factory.average_of(tile_sum@[index as int]),
        { factory.average(tile_sum[index]) };
    par_fill(&mut tile_average, average_of);
    proof {
        assert(tile_average@ =~= factory.tile_averages(tile_sum@));
    }
    tile_average
}

/// The total of the tile averages of one channel, tile after tile.
pub fn channel_total_of(factory: &MosaicFactory, tile_sum: &[u32], channel: usize) -> (total: u128)
    requires
        factory.wf(),
        tile_sum.len() == factory.tile_buffer_len(),
        channel < factory.image_data.channels,
    ensures
        total == factory.channel_total(
            factory.tile_averages(tile_sum@),
            channel as int,
            factory.tile_count(),
        ),
{
    let channels = factory.image_data.channels as usize;
    let ghost expected = factory.tile_averages(tile_sum@);
    proof {
        lemma_buffer_lengths(factory);
        lemma_mul_le(
            factory.tile_count(),
            1,
            factory.tile_count(),
            channels as int,
        );
    }
    let tiles = factory.tiles_x as usize * factory.tiles_y as usize;
    let mut total: u128 = 0;
    let mut tile: usize = 0;
    while tile < tiles
        invariant
            factory.wf(),
            tile_sum.len() == factory.tile_buffer_len(),
            channels == factory.image_data.channels,
            channel < channels,
            tiles == factory.tile_count(),
            expected == factory.tile_averages(tile_sum@),
            tile <= tiles,
            total == factory.channel_total(expected, channel as int, tile as int),
        decreases tiles - tile,
    {
        proof {
            lemma_channel_total_bound(factory, expected, channel as int, tile as int);
            assert(0 <= tile * channels + channel < tiles * channels) by (nonlinear_arith)
                requires
                    0 <= tile < tiles,
                    0 <= channel < channels,
            ;
        }
        let tile_sum_channel = tile_sum[tile * channels + channel];
        let tile_average_channel = factory.average(tile_sum_channel);
        total = total + tile_average_channel as u128;
        tile += 1;
    }
    total
}

/// The totals of the tile averages of all channels, one task per channel.
pub fn channel_totals_in_parallel(factory: &MosaicFactory, tile_sum: &[u32]) -> (global_sum: Vec<
    u128,
>)
    requires
        factory.wf(),
        tile_sum.len() == factory.tile_buffer_len(),
    ensures
        global_sum.len() == factory.image_data.channels,
        forall|c: int|
            0 <= c < factory.image_data.channels ==> #[trigger] global_sum[c]
                == factory.channel_total(factory.tile_averages(tile_sum@), c, factory.tile_count()),
{
    let channels = factory.image_data.channels as usize;
    let mut global_sum: Vec<u128> = vec![0; channels];
    let total_of = |channel: usize| -> (total: u128)
        requires
            channel < channels,
        ensures
            total == factory.channel_total(
                factory.tile_averages(tile_sum@),
                channel as int,
                factory.tile_count(),
            ),
        { channel_total_of(factory, tile_sum, channel) };
    par_fill(&mut global_sum, total_of);
    global_sum
}

impl MosaicBuilder for ParallelMosaic {
    fn sum_tile_channels(&self, mosaic_factory: &MosaicFactory) -> (tile_sum: Vec<u32>) {
        let size = mosaic_factory.tile_buffer_size();
        let mut tile_sum: Vec<u32> = vec![0; size];
        let sum_of = |index: usize| -> (sum: u32)
            requires
                index < size,
            ensures
                sum == mosaic_factory.entry_sum(index as int),
            { tile_channel_sum(mosaic_factory, index) };
        par_fill(&mut tile_sum, sum_of);
        proof {
            assert forall|i: int| 0 <= i < tile_sum.len() implies tile_sum[i]
                == mosaic_factory.tile_sums()[i] by {
                lemma_entry_sum_fits(mosaic_factory, i);
            }
            assert(tile_sum@ =~= mosaic_factory.tile_sums());
        }
        tile_sum
    }

    fn calc_tile_average(&self, mosaic_factory: &MosaicFactory, tile_sum: &[u32]) -> (averages: (
        Vec<u8>,
        Vec<u8>,
    )) {
        let channels = mosaic_factory.image_data.channels as usize;
        let ghost expected = mosaic_factory.tile_averages(tile_sum@);
        let calc_tile_avg = || -> (tile_average: Vec<u8>)
            ensures
                tile_average@ == mosaic_factory.tile_averages(tile_sum@),
            { tile_averages_in_parallel(mosaic_factory, tile_sum) };
        let calc_global_avg = || -> (global_sum: Vec<u128>)
            ensures
                global_sum.len() == channels,
                forall|c: int|
                    0 <= c < channels ==> #[trigger] global_sum[c]
                        == mosaic_factory.channel_total(
                        mosaic_factory.tile_averages(tile_sum@),
                        c,
                        mosaic_factory.tile_count(),
                    ),
            { channel_totals_in_parallel(mosaic_factory, tile_sum) };
        let (tile_average, global_sum) = rayon::join(calc_tile_avg, calc_global_avg);
        let totals = global_sum.as_slice();
        proof {
            assert forall|c: int| 0 <= c < totals.len() implies #[trigger] totals@[c] <= 255
                * mosaic_factory.tile_count() by {
                assert(totals@[c] == global_sum[c]);
                lemma_channel_total_bound(mosaic_factory, expected, c, mosaic_factory.tile_count());
                assert(0 <= mosaic_factory.tile_count()) by (nonlinear_arith)
                    requires
                        mosaic_factory.tile_count() == mosaic_factory.tiles_x
                            * mosaic_factory.tiles_y,
                ;
            }
        }
        let global_average = mosaic_factory.means_of_totals(totals);
        proof {
            assert(global_average@ =~= mosaic_factory.global_average(expected));
        }
        (tile_average, global_average)
    }

    fn create_mosaic(&self, mosaic_factory: &MosaicFactory, tile_average: &[u8]) -> (mosaic: Vec<
        u8,
    >) {
        let size = mosaic_factory.image_data.data.len();
        let mut mosaic: Vec<u8> = vec![0; size];
        // Without a byte there is no chunk, and rayon refuses chunks of no bytes.
        if size == 0 {
            proof {
                assert(mosaic@ =~= mosaic_factory.mosaic(tile_average@));
            }
            return mosaic;
        }
        proof {
            assert(mosaic_factory.image_data.channels > 0) by (nonlinear_arith)
                requires
                    mosaic_factory.image_data.data.len() == mosaic_factory.image_data.width
                        * mosaic_factory.image_data.height * mosaic_factory.image_data.channels,
                    mosaic_factory.image_data.data.len() > 0,
            ;
            lemma_chunk_count(mosaic_factory);
            assert(mosaic_factory.tile_side_length * mosaic_factory.image_data.channels
                <= mosaic_factory.image_data.data.len()) by (nonlinear_arith)
                requires
                    mosaic_factory.image_data.data.len() == (mosaic_factory.tiles_x
                        * mosaic_factory.image_data.height) * (mosaic_factory.tile_side_length
                        * mosaic_factory.image_data.channels),
                    mosaic_factory.image_data.data.len() > 0,
                    mosaic_factory.tile_side_length * mosaic_factory.image_data.channels > 0,
            ;
        }
        let chunk_len = mosaic_factory.tile_side_length as usize
            * mosaic_factory.image_data.channels as usize;
        let ghost chunks = mosaic_factory.tiles_x * mosaic_factory.image_data.height;
        let segment_of = |index: usize| -> (segment: Vec<u8>)
            requires
                index < chunks,
            ensures
                segment.len() == chunk_len,
                forall|offset: int|
                    0 <= offset < chunk_len ==> #[trigger] segment[offset]
                        == tile_average@[mosaic_factory.owner_entry(index * chunk_len + offset)],
            { tile_row_segment(mosaic_factory, tile_average, index) };
        par_fill_chunks(&mut mosaic, chunk_len, segment_of);
        proof {
            assert forall|i: int| 0 <= i < mosaic.len() implies mosaic[i] == mosaic_factory.mosaic(
                tile_average@,
            )[i] by {
                vstd::arithmetic::div_mod::lemma_fundamental_div_mod(i, chunk_len as int);
                vstd::arithmetic::div_mod::lemma_mod_bound(i, chunk_len as int);
                let index = i / (chunk_len as int);
                let offset = i % (chunk_len as int);
                assert(chunk_len * index == index * chunk_len) by (nonlinear_arith);
                assert(0 <= index < chunks) by (nonlinear_arith)
                    requires
                        i == index * chunk_len + offset,
                        0 <= offset < chunk_len,
                        0 <= i < chunks * chunk_len,
                ;
                assert((index + 1) * chunk_len == index * chunk_len + chunk_len && (index + 1)
                    * chunk_len <= chunks * chunk_len) by (nonlinear_arith)
                    requires
                        0 <= index < chunks,
                        chunk_len > 0,
                ;
                let part = chunk_at(mosaic@, chunk_len as int, index);
                let segment = choose|segment: Vec<u8>|
                    call_ensures(segment_of, (index as usize,), segment) && segment@ == part;
                assert(part[offset] == mosaic[i]);
                assert(segment[offset] == tile_average@[mosaic_factory.owner_entry(
                    index * chunk_len + offset,
                )]);
            }
            assert(mosaic@ =~= mosaic_factory.mosaic(tile_average@));
        }
        mosaic
    }
}

/// The bytes of chunk `index` of the mosaic: one tile's width of pixels of
/// one row, each pixel the averages of the tile.
pub fn tile_row_segment(factory: &MosaicFactory, tile_average: &[u8], index: usize) -> (segment:
    Vec<u8>)
    requires
        factory.wf(),
        tile_average.len() == factory.tile_buffer_len(),
        factory.image_data.channels > 0,
        index < factory.tiles_x * factory.image_data.height,
    ensures
        segment.len() == factory.tile_side_length * factory.image_data.channels,
        forall|offset: int|
            0 <= offset < segment.len() ==> #[trigger] segment[offset]
                == tile_average@[factory.owner_entry(
                index * (factory.tile_side_length * factory.image_data.channels) + offset,
            )],
{
    let channels = factory.image_data.channels as usize;
    let side = factory.tile_side_length as usize;
    let tiles_x = factory.tiles_x as usize;
    let ghost chunk_len = factory.tile_side_length * factory.image_data.channels;
    proof {
        lemma_chunk_count(factory);
        lemma_chunk_owner(factory, index as int, 0);
        lemma_buffer_lengths(factory);
        lemma_mul_le(1, side as int, factory.tiles_x as int, side as int);
    }
    let tile_x = index % tiles_x;
    let tile_y = index / (tiles_x * side);
    proof {
        lemma_tile_entry(factory, tile_x as int, tile_y as int, 0);
        lemma_tile_entry(factory, tile_x as int, tile_y as int, channels - 1);
        lemma_mul_le(
            tile_y as int,
            tiles_x as int,
            factory.tiles_y as int,
            tiles_x as int,
        );
        lemma_mul_le(
            factory.tile_count(),
            1,
            factory.tile_count(),
            channels as int,
        );
        assert(factory.tiles_y * factory.tiles_x == factory.tiles_x * factory.tiles_y)
            by (nonlinear_arith);
    }
    let tile = (tile_y * tiles_x + tile_x) * channels;
    let mut segment: Vec<u8> = Vec::new();
    let mut pixel_x: usize = 0;
    while pixel_x < side
        invariant
            factory.wf(),
            tile_average.len() == factory.tile_buffer_len(),
            channels == factory.image_data.channels,
            channels > 0,
            side == factory.tile_side_length,
            chunk_len == side * channels,
            tile == factory.tile_entry(tile_x as int, tile_y as int, 0),
            tile + channels <= tile_average.len(),
            pixel_x <= side,
            segment.len() == pixel_x * channels,
            forall|offset: int|
                0 <= offset < segment.len() ==> #[trigger] segment[offset] == tile_average@[tile
                    + offset % (channels as int)],
        decreases side - pixel_x,
    {
        let mut channel: usize = 0;
        while channel < channels
            invariant
                tile + channels <= tile_average.len(),
                channels > 0,
                channel <= channels,
                pixel_x < side,
                segment.len() == pixel_x * channels + channel,
                forall|offset: int|
                    0 <= offset < segment.len() ==> #[trigger] segment[offset]
                        == tile_average@[tile + offset % (channels as int)],
            decreases channels - channel,
        {
            proof {
                lemma_div_mod_of_sum(pixel_x as int, channels as int, channel as int);
            }
            segment.push(tile_average[tile + channel]);
            channel += 1;
        }
        proof {
            assert((pixel_x + 1) * channels == pixel_x * channels + channels) by (nonlinear_arith);
        }
        pixel_x += 1;
    }
    proof {
        assert forall|offset: int| 0 <= offset < segment.len() implies #[trigger] segment[offset]
            == tile_average@[factory.owner_entry(index * chunk_len + offset)] by {
            lemma_chunk_owner(factory, index as int, offset);
        }
    }
    segment
}

} // verus!
