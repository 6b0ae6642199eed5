use crate::arith::{lemma_div_mod_of_sum, lemma_div_mod_succ, lemma_index_coordinates, lemma_mul_le};
use crate::mosaic_factory::{MosaicBuilder, MosaicFactory};
use crate::tiling::{
    lemma_buffer_lengths, lemma_channel_total_bound,
    lemma_entry_sum_fits, lemma_pixel_done_edges, lemma_pixel_of_tile, lemma_pixel_step,
    lemma_row_segment_sum_bound, lemma_tile_entry, lemma_tile_rows_sum_bound, pixel_done,
    row_scattered, tile_row_of_byte,
};
use vstd::prelude::*;
use vstd::wrapping::u32_specs;

verus! {

/// The reference strategy: nested loops over tiles, then pixels, then
/// channels, on one thread.
#[derive(Clone, Copy, Debug)]
pub struct SerialMosaic;

/// What the entry of `channel` holds while the pixels of a tile are added
/// one by one: the full rows above `pixel_y`, the pixels left of `pixel_x` in
/// row `pixel_y`, and the pixel at `pixel_x` itself once the channel loop has
/// passed `channel`.
pub open spec fn running_sum(
    factory: &MosaicFactory,
    tile_x: int,
    tile_y: int,
    channel: int,
    pixel_y: int,
    pixel_x: int,
    passed: int,
) -> int {
    factory.tile_rows_sum(tile_x, tile_y, channel, pixel_y) + factory.row_segment_sum(
        tile_x,
        tile_y,
        channel,
        pixel_y,
        pixel_x,
    ) + if channel < passed {
        factory.image_data.byte_at(
            tile_x * factory.tile_side_length + pixel_x,
            tile_y * factory.tile_side_length + pixel_y,
            channel,
        ) as int
    } else {
        0
    }
}

/// While a tile is being summed, no entry exceeds what the whole tile can hold.
pub proof fn lemma_running_sum_bound(
    factory: &MosaicFactory,
    tile_x: int,
    tile_y: int,
    channel: int,
    pixel_y: int,
    pixel_x: int,
    passed: int,
)
    requires
        factory.wf(),
        0 <= channel,
        0 <= pixel_y < factory.tile_side_length,
        0 <= pixel_x < factory.tile_side_length,
    ensures
        0 <= running_sum(factory, tile_x, tile_y, channel, pixel_y, pixel_x, passed),
        running_sum(factory, tile_x, tile_y, channel, pixel_y, pixel_x, 0) + 255 <= u32::MAX,
{
    lemma_tile_rows_sum_bound(factory, tile_x, tile_y, channel, pixel_y);
    lemma_row_segment_sum_bound(factory, tile_x, tile_y, channel, pixel_y, pixel_x);
    let side = factory.tile_side_length as int;
    assert(255 * (pixel_y * side) + 255 * pixel_x + 255 <= 255 * (side * side)) by (nonlinear_arith)
        requires
            0 <= pixel_y < side,
            0 <= pixel_x < side,
    ;
}

/// Adds the pixels of one tile, channel by channel, to the tile's entries,
/// whatever they hold, wrapping at 32 bits: entries that start at zero end
/// as the tile's sums, which fit. No other entry changes.
pub fn add_tile(factory: &MosaicFactory, tile_x: usize, tile_y: usize, sums: &mut Vec<u32>)
    requires
        factory.wf(),
        tile_x < factory.tiles_x,
        tile_y < factory.tiles_y,
        old(sums).len() == factory.tile_buffer_len(),
    ensures
        final(sums).len() == old(sums).len(),
        forall|i: int|
            0 <= i < final(sums).len() ==> final(sums)[i] == if i / (
            factory.image_data.channels as int) == tile_y * factory.tiles_x + tile_x {
                u32_specs::wrapping_add(old(sums)[i], factory.entry_sum(i) as u32)
            } else {
                old(sums)[i]
            },
{
    let channels = factory.image_data.channels as usize;
    let side = factory.tile_side_length as usize;
    let width = factory.image_data.width as usize;
    if channels == 0 {
        assert(factory.tile_buffer_len() == 0) by (nonlinear_arith)
            requires
                factory.tile_buffer_len() == factory.tiles_x * factory.tiles_y * 0,
        ;
        return ;
    }
    proof {
        lemma_buffer_lengths(factory);
        lemma_tile_entry(factory, tile_x as int, tile_y as int, 0);
        lemma_tile_entry(factory, tile_x as int, tile_y as int, channels - 1);
        lemma_mul_le(
            tile_y as int,
            factory.tiles_x as int,
            factory.tiles_y as int,
            factory.tiles_x as int,
        );
    }
    let tile = tile_y * factory.tiles_x as usize + tile_x;
    let base = tile * channels;
    let ghost tx = tile_x as int;
    let ghost ty = tile_y as int;
    let mut pixel_y: usize = 0;
    while pixel_y < side
        invariant
            factory.wf(),
            tx == tile_x < factory.tiles_x,
            ty == tile_y < factory.tiles_y,
            channels == factory.image_data.channels,
            channels > 0,
            side == factory.tile_side_length,
            width == factory.image_data.width,
            base == (ty * factory.tiles_x + tx) * channels,
            base + channels <= sums.len(),
            sums.len() == old(sums).len(),
            factory.image_data.width * factory.image_data.height <= factory.image_data.data.len(),
            pixel_y <= side,
            forall|i: int|
                base <= i < base + channels ==> #[trigger] sums[i] == u32_specs::wrapping_add(
                    old(sums)[i],
                    running_sum(factory, tx, ty, i - base, pixel_y as int, 0, 0) as u32,
                ),
            forall|i: int|
                0 <= i < sums.len() && !(base <= i < base + channels) ==> #[trigger] sums[i] == old(
                    sums,
                )[i],
        decreases side - pixel_y,
    {
        let mut pixel_x: usize = 0;
        while pixel_x < side
            invariant
                factory.wf(),
                tx == tile_x < factory.tiles_x,
                ty == tile_y < factory.tiles_y,
                channels == factory.image_data.channels,
                channels > 0,
                side == factory.tile_side_length,
                width == factory.image_data.width,
                base == (ty * factory.tiles_x + tx) * channels,
                base + channels <= sums.len(),
                sums.len() == old(sums).len(),
                factory.image_data.width * factory.image_data.height
                    <= factory.image_data.data.len(),
                pixel_y < side,
                pixel_x <= side,
                forall|i: int|
                    base <= i < base + channels ==> #[trigger] sums[i] == u32_specs::wrapping_add(
                        old(sums)[i],
                        running_sum(factory, tx, ty, i - base, pixel_y as int, pixel_x as int, 0) as u32,
                    ),
                forall|i: int|
                    0 <= i < sums.len() && !(base <= i < base + channels) ==> #[trigger] sums[i]
                        == old(sums)[i],
            decreases side - pixel_x,
        {
            proof {
                lemma_pixel_of_tile(factory, tx, ty, pixel_x as int, pixel_y as int, 0);
                lemma_pixel_of_tile(
                    factory,
                    tx,
                    ty,
                    pixel_x as int,
                    pixel_y as int,
                    channels - 1,
                );
                assert forall|k: int| 0 <= k implies 0 <= #[trigger] running_sum(
                    factory,
                    tx,
                    ty,
                    k,
                    pixel_y as int,
                    pixel_x as int,
                    0,
                ) <= u32::MAX - 255 by {
                    lemma_running_sum_bound(factory, tx, ty, k, pixel_y as int, pixel_x as int, 0);
                }
            }
            let x = tile_x * side + pixel_x;
            let y = tile_y * side + pixel_y;
            let offset = (y * width + x) * channels;
            let mut channel: usize = 0;
            while channel < channels
                invariant
                    factory.wf(),
                    tx == tile_x < factory.tiles_x,
                    ty == tile_y < factory.tiles_y,
                    channels == factory.image_data.channels,
                    side == factory.tile_side_length,
                    x == tx * side + pixel_x,
                    y == ty * side + pixel_y,
                    offset == factory.image_data.byte_index(x as int, y as int, 0),
                    offset + channels <= factory.image_data.data.len(),
                    base + channels <= sums.len(),
                    sums.len() == old(sums).len(),
                    pixel_y < side,
                    pixel_x < side,
                    channel <= channels,
                    forall|k: int|
                        0 <= k ==> 0 <= #[trigger] running_sum(
                            factory,
                            tx,
                            ty,
                            k,
                            pixel_y as int,
                            pixel_x as int,
                            0,
                        ) <= u32::MAX - 255,
                    forall|i: int|
                        base <= i < base + channels ==> #[trigger] sums[i]
                            == u32_specs::wrapping_add(
                            old(sums)[i],
                            running_sum(
                                factory,
                                tx,
                                ty,
                                i - base,
                                pixel_y as int,
                                pixel_x as int,
                                channel as int,
                            ) as u32,
                        ),
                    forall|i: int|
                        0 <= i < sums.len() && !(base <= i < base + channels) ==> #[trigger] sums[i]
                            == old(sums)[i],
                decreases channels - channel,
            {
                let pixel = factory.image_data.data[offset + channel];
                proof {
                    assert(sums[base + channel] == u32_specs::wrapping_add(
                        old(sums)[base + channel],
                        running_sum(
                            factory,
                            tx,
                            ty,
                            channel as int,
                            pixel_y as int,
                            pixel_x as int,
                            channel as int,
                        ) as u32,
                    ));
                    assert(0 <= running_sum(
                        factory,
                        tx,
                        ty,
                        channel as int,
                        pixel_y as int,
                        pixel_x as int,
                        0,
                    ) <= u32::MAX - 255);
                }
                let entry = sums[base + channel].wrapping_add(pixel as u32);
                sums[base + channel] = entry;
                channel += 1;
            }
            pixel_x += 1;
        }
        pixel_y += 1;
    }
    proof {
        assert forall|i: int| 0 <= i < sums.len() implies sums[i] == if i / (channels as int) == ty
            * factory.tiles_x + tx {
            u32_specs::wrapping_add(old(sums)[i], factory.entry_sum(i) as u32)
        } else {
            old(sums)[i]
        } by {
            lemma_index_coordinates(
                i,
                factory.tiles_y as int,
                factory.tiles_x as int,
                channels as int,
            );
            if base <= i < base + channels {
                lemma_div_mod_of_sum(ty * factory.tiles_x + tx, channels as int, i - base);
                lemma_tile_entry(factory, tx, ty, i - base);
                lemma_entry_sum_fits(factory, i);
            } else {
                vstd::arithmetic::div_mod::lemma_fundamental_div_mod(i, channels as int);
                if i / (channels as int) == ty * factory.tiles_x + tx {
                    assert(i == channels * (ty * factory.tiles_x + tx) + i % (channels as int));
                    assert(channels * (ty * factory.tiles_x + tx) == base) by (nonlinear_arith)
                        requires
                            base == (ty * factory.tiles_x + tx) * channels,
                    ;
                    assert(false);
                }
            }
        }
    }
}

/// Number of tiles whose average of `channel` stands among the first `index`
/// entries of the tile buffer.
pub open spec fn tiles_seen(factory: &MosaicFactory, index: int, channel: int) -> int {
    let channels = factory.image_data.channels as int;
    index / channels + if channel < index % channels {
        1int
    } else {
        0int
    }
}

impl MosaicBuilder for SerialMosaic {
    fn sum_tile_channels(&self, mosaic_factory: &MosaicFactory) -> (tile_sum: Vec<u32>) {
        let size = mosaic_factory.tile_buffer_size();
        let mut tile_sum: Vec<u32> = vec![0; size];
        let tiles_x = mosaic_factory.tiles_x as usize;
        let tiles_y = mosaic_factory.tiles_y as usize;
        let ghost channels = mosaic_factory.image_data.channels as int;
        let mut tile_y: usize = 0;
        while tile_y < tiles_y
            invariant
                mosaic_factory.wf(),
                tiles_x == mosaic_factory.tiles_x,
                tiles_y == mosaic_factory.tiles_y,
                channels == mosaic_factory.image_data.channels,
                tile_sum.len() == mosaic_factory.tile_buffer_len(),
                tile_y <= tiles_y,
                forall|i: int|
                    0 <= i < tile_sum.len() ==> #[trigger] tile_sum[i] == if i / channels < tile_y
                        * tiles_x {
                        mosaic_factory.entry_sum(i) as u32
                    } else {
                        0
                    },
            decreases tiles_y - tile_y,
        {
            let mut tile_x: usize = 0;
            while tile_x < tiles_x
                invariant
                    mosaic_factory.wf(),
                    tiles_x == mosaic_factory.tiles_x,
                    tiles_y == mosaic_factory.tiles_y,
                    channels == mosaic_factory.image_data.channels,
                    tile_sum.len() == mosaic_factory.tile_buffer_len(),
                    tile_y < tiles_y,
                    tile_x <= tiles_x,
                    forall|i: int|
                        0 <= i < tile_sum.len() ==> #[trigger] tile_sum[i] == if i / channels
                            < tile_y * tiles_x + tile_x {
                            mosaic_factory.entry_sum(i) as u32
                        } else {
                            0
                        },
                decreases tiles_x - tile_x,
            {
                add_tile(mosaic_factory, tile_x, tile_y, &mut tile_sum);
                tile_x += 1;
            }
            proof {
                assert((tile_y + 1) * tiles_x == tile_y * tiles_x + tiles_x) by (nonlinear_arith);
            }
            tile_y += 1;
        }
        proof {
            assert forall|i: int| 0 <= i < tile_sum.len() implies tile_sum[i]
                == mosaic_factory.tile_sums()[i] by {
                lemma_index_coordinates(i, tiles_y as int, tiles_x as int, channels);
                assert(tiles_y * tiles_x == tiles_x * tiles_y) by (nonlinear_arith);
            }
            assert(tile_sum@ =~= mosaic_factory.tile_sums());
        }
        tile_sum
    }

    fn calc_tile_average(&self, mosaic_factory: &MosaicFactory, tile_sum: &[u32]) -> (averages: (
        Vec<u8>,
        Vec<u8>,
    )) {
        let channels = mosaic_factory.image_data.channels as usize;
        let len = mosaic_factory.tile_buffer_size();
        let mut global_sum: Vec<u128> = vec![0; channels];
        let mut tile_average: Vec<u8> = vec![0; len];
        let ghost expected = mosaic_factory.tile_averages(tile_sum@);
        proof {
            assert(mosaic_factory.tile_pixels > 0) by (nonlinear_arith)
                requires
                    mosaic_factory.tile_pixels == mosaic_factory.tile_side_length
                        * mosaic_factory.tile_side_length,
                    mosaic_factory.tile_side_length > 0,
            ;
            assert forall|c: int| 0 <= c < channels implies mosaic_factory.channel_total(
                expected,
                c,
                tiles_seen(mosaic_factory, 0, c),
            ) == 0 by {
                if channels > 0 {
                    lemma_div_mod_of_sum(0, channels as int, 0);
                }
            }
        }
        let mut tile_channel: usize = 0;
        while tile_channel < len
            invariant
                mosaic_factory.wf(),
                mosaic_factory.tile_pixels > 0,
                channels == mosaic_factory.image_data.channels,
                len == mosaic_factory.tile_buffer_len(),
                len == tile_sum@.len(),
                tile_average.len() == len,
                global_sum.len() == channels,
                expected == mosaic_factory.tile_averages(tile_sum@),
                tile_channel <= len,
                forall|i: int| 0 <= i < tile_channel ==> #[trigger] tile_average[i] == expected[i],
                forall|c: int|
                    0 <= c < channels ==> #[trigger] global_sum[c] == mosaic_factory.channel_total(
                        expected,
                        c,
                        tiles_seen(mosaic_factory, tile_channel as int, c),
                    ),
            decreases len - tile_channel,
        {
            proof {
                lemma_index_coordinates(
                    tile_channel as int,
                    mosaic_factory.tiles_y as int,
                    mosaic_factory.tiles_x as int,
                    channels as int,
                );
                assert(mosaic_factory.tiles_y * mosaic_factory.tiles_x == mosaic_factory.tiles_x
                    * mosaic_factory.tiles_y) by (nonlinear_arith);
                lemma_div_mod_succ(tile_channel as int, channels as int);
            }
            let channel = tile_channel % channels;
            let tile_sum_channel = tile_sum[tile_channel];
            let tile_average_channel = mosaic_factory.average(tile_sum_channel);
            proof {
                lemma_channel_total_bound(
                    mosaic_factory,
                    expected,
                    channel as int,
                    tile_channel as int / channels as int,
                );
                assert(tile_channel as int / channels as int <= tile_channel) by (nonlinear_arith)
                    requires
                        tile_channel == (tile_channel as int / channels as int) * channels
                            + tile_channel as int % channels as int,
                        0 <= tile_channel as int % channels as int,
                        0 <= tile_channel as int / channels as int,
                        channels >= 1,
                ;
            }
            tile_average[tile_channel] = tile_average_channel;
            let raised = global_sum[channel] + tile_average_channel as u128;
            global_sum[channel] = raised;
            tile_channel += 1;
        }
        let totals = global_sum.as_slice();
        proof {
            assert forall|c: int| 0 <= c < totals.len() implies #[trigger] totals@[c]
                == mosaic_factory.channel_total(expected, c, mosaic_factory.tile_count())
                && totals@[c] <= 255 * mosaic_factory.tile_count() by {
                assert(totals@[c] == global_sum[c]);
                lemma_div_mod_of_sum(mosaic_factory.tile_count(), channels as int, 0);
                lemma_channel_total_bound(mosaic_factory, expected, c, mosaic_factory.tile_count());
                assert(0 <= mosaic_factory.tile_count()) by (nonlinear_arith)
                    requires
                        mosaic_factory.tile_count() == mosaic_factory.tiles_x
                            * mosaic_factory.tiles_y,
                ;
            }
        }
        let global_average = mosaic_factory.means_of_totals(totals);
        proof {
            assert(tile_average@ =~= expected);
            assert(global_average@ =~= mosaic_factory.global_average(expected));
        }
        (tile_average, global_average)
    }

    fn create_mosaic(&self, mosaic_factory: &MosaicFactory, tile_average: &[u8]) -> (mosaic: Vec<
        u8,
    >) {
        let size = mosaic_factory.image_data.data.len();
        let mut mosaic: Vec<u8> = vec![0; size];
        proof {
            assert forall|i: int| 0 <= i < mosaic.len() implies 0 <= tile_row_of_byte(
                mosaic_factory,
                i,
            ) by {
                lemma_pixel_done_edges(mosaic_factory, i, 0, 0, 0);
            }
        }
        let mut tile_y: u32 = 0;
        while tile_y < mosaic_factory.tiles_y
            invariant
                mosaic_factory.wf(),
                tile_average.len() == mosaic_factory.tile_buffer_len(),
                mosaic.len() == mosaic_factory.image_data.data.len(),
                tile_y <= mosaic_factory.tiles_y,
                forall|i: int|
                    0 <= i < mosaic.len() ==> #[trigger] mosaic[i] == if tile_row_of_byte(
                        mosaic_factory,
                        i,
                    ) < tile_y {
                        tile_average@[mosaic_factory.owner_entry(i)]
                    } else {
                        0
                    },
            decreases mosaic_factory.tiles_y - tile_y,
        {
            scatter_tile_row(mosaic_factory, tile_average, tile_y, &mut mosaic);
            tile_y += 1;
        }
        proof {
            assert forall|i: int| 0 <= i < mosaic.len() implies mosaic[i] == mosaic_factory.mosaic(
                tile_average@,
            )[i] by {
                lemma_pixel_done_edges(mosaic_factory, i, 0, 0, 0);
            }
            assert(mosaic@ =~= mosaic_factory.mosaic(tile_average@));
        }
        mosaic
    }
}

/// Copies `count` bytes of `source`, from `from` on, over those of `target`
/// from `to` on.
pub fn copy_bytes(source: &[u8], from: usize, target: &mut Vec<u8>, to: usize, count: usize)
    requires
        from + count <= source.len(),
        to + count <= old(target).len(),
    ensures
        final(target).len() == old(target).len(),
        forall|i: int|
            0 <= i < final(target).len() ==> #[trigger] final(target)[i] == if to <= i < to
                + count {
                source@[from + (i - to)]
            } else {
                old(target)[i]
            },
{
    let mut k: usize = 0;
    while k < count
        invariant
            from + count <= source.len(),
            to + count <= target.len(),
            target.len() == old(target).len(),
            k <= count,
            forall|i: int|
                0 <= i < target.len() ==> #[trigger] target[i] == if to <= i < to + k {
                    source@[from + (i - to)]
                } else {
                    old(target)[i]
                },
        decreases count - k,
    {
        let byte = source[from + k];
        target[to + k] = byte;
        k += 1;
    }
}

/// Gives every pixel of one row of tiles the averages of its tile. The rest
/// of the image stays as it is.
pub fn scatter_tile_row(
    factory: &MosaicFactory,
    tile_average: &[u8],
    tile_y: u32,
    mosaic: &mut Vec<u8>,
)
    requires
        factory.wf(),
        tile_average.len() == factory.tile_buffer_len(),
        tile_y < factory.tiles_y,
        old(mosaic).len() == factory.image_data.data.len(),
    ensures
        final(mosaic)@ == row_scattered(factory, tile_average@, tile_y as int, old(mosaic)@),
{
    let channels = factory.image_data.channels as usize;
    let side = factory.tile_side_length as usize;
    let width = factory.image_data.width as usize;
    let tiles_x = factory.tiles_x as usize;
    let ghost ty = tile_y as int;
    if channels == 0 || tiles_x == 0 {
        proof {
            assert(factory.image_data.data.len() == 0) by (nonlinear_arith)
                requires
                    factory.image_data.data.len() == factory.image_data.width
                        * factory.image_data.height * factory.image_data.channels,
                    factory.image_data.width == factory.tiles_x * factory.tile_side_length,
                    factory.image_data.channels == 0 || factory.tiles_x == 0,
            ;
            assert(mosaic@ =~= row_scattered(factory, tile_average@, ty, old(mosaic)@));
        }
        return ;
    }
    proof {
        lemma_buffer_lengths(factory);
        assert forall|i: int| 0 <= i < mosaic.len() implies !pixel_done(factory, i, ty, 0, 0, 0) by {
            lemma_pixel_done_edges(factory, i, ty, 0, 0);
        }
    }
    let mut tile_x: usize = 0;
    while tile_x < tiles_x
        invariant
            factory.wf(),
            tile_average.len() == factory.tile_buffer_len(),
            ty == tile_y < factory.tiles_y,
            channels == factory.image_data.channels,
            channels > 0,
            side == factory.tile_side_length,
            width == factory.image_data.width,
            tiles_x == factory.tiles_x,
            factory.image_data.width * factory.image_data.height <= factory.image_data.data.len(),
            mosaic.len() == old(mosaic).len(),
            old(mosaic).len() == factory.image_data.data.len(),
            tile_x <= tiles_x,
            forall|i: int|
                0 <= i < mosaic.len() ==> #[trigger] mosaic[i] == if pixel_done(
                    factory,
                    i,
                    ty,
                    tile_x as int,
                    0,
                    0,
                ) {
                    tile_average@[factory.owner_entry(i)]
                } else {
                    old(mosaic)[i]
                },
        decreases tiles_x - tile_x,
    {
        proof {
            lemma_tile_entry(factory, tile_x as int, ty, 0);
            lemma_tile_entry(factory, tile_x as int, ty, channels - 1);
            lemma_mul_le(ty, tiles_x as int, factory.tiles_y as int, tiles_x as int);
        }
        let entry = (tile_y as usize * tiles_x + tile_x) * channels;
        let mut pixel_y: usize = 0;
        while pixel_y < side
            invariant
                factory.wf(),
                tile_average.len() == factory.tile_buffer_len(),
                ty == tile_y < factory.tiles_y,
                channels == factory.image_data.channels,
                channels > 0,
                side == factory.tile_side_length,
                width == factory.image_data.width,
                tiles_x == factory.tiles_x,
                factory.image_data.width * factory.image_data.height
                    <= factory.image_data.data.len(),
                mosaic.len() == old(mosaic).len(),
                old(mosaic).len() == factory.image_data.data.len(),
                tile_x < tiles_x,
                entry == factory.tile_entry(tile_x as int, ty, 0),
                entry + channels <= tile_average.len(),
                pixel_y <= side,
                forall|i: int|
                    0 <= i < mosaic.len() ==> #[trigger] mosaic[i] == if pixel_done(
                        factory,
                        i,
                        ty,
                        tile_x as int,
                        pixel_y as int,
                        0,
                    ) {
                        tile_average@[factory.owner_entry(i)]
                    } else {
                        old(mosaic)[i]
                    },
            decreases side - pixel_y,
        {
            let mut pixel_x: usize = 0;
            while pixel_x < side
                invariant
                    factory.wf(),
                    tile_average.len() == factory.tile_buffer_len(),
                    ty == tile_y < factory.tiles_y,
                    channels == factory.image_data.channels,
                    channels > 0,
                    side == factory.tile_side_length,
                    width == factory.image_data.width,
                    tiles_x == factory.tiles_x,
                    factory.image_data.width * factory.image_data.height
                        <= factory.image_data.data.len(),
                    mosaic.len() == old(mosaic).len(),
                    old(mosaic).len() == factory.image_data.data.len(),
                    tile_x < tiles_x,
                    entry == factory.tile_entry(tile_x as int, ty, 0),
                    entry + channels <= tile_average.len(),
                    pixel_y < side,
                    pixel_x <= side,
                    forall|i: int|
                        0 <= i < mosaic.len() ==> #[trigger] mosaic[i] == if pixel_done(
                            factory,
                            i,
                            ty,
                            tile_x as int,
                            pixel_y as int,
                            pixel_x as int,
                        ) {
                            tile_average@[factory.owner_entry(i)]
                        } else {
                            old(mosaic)[i]
                        },
                decreases side - pixel_x,
            {
                proof {
                    lemma_pixel_of_tile(factory, tile_x as int, ty, pixel_x as int, pixel_y as int, 0);
                    lemma_pixel_of_tile(
                        factory,
                        tile_x as int,
                        ty,
                        pixel_x as int,
                        pixel_y as int,
                        channels - 1,
                    );
                }
                let x = tile_x * side + pixel_x;
                let y = tile_y as usize * side + pixel_y;
                let offset = (y * width + x) * channels;
                let ghost before = mosaic@;
                copy_bytes(tile_average, entry, mosaic, offset, channels);
                proof {
                    assert forall|i: int| 0 <= i < mosaic.len() implies #[trigger] mosaic[i]
                        == if pixel_done(
                        factory,
                        i,
                        ty,
                        tile_x as int,
                        pixel_y as int,
                        pixel_x + 1,
                    ) {
                        tile_average@[factory.owner_entry(i)]
                    } else {
                        old(mosaic)[i]
                    } by {
                        lemma_pixel_step(
                            factory,
                            i,
                            ty,
                            tile_x as int,
                            pixel_y as int,
                            pixel_x as int,
                        );
                        assert(before[i] == if pixel_done(
                            factory,
                            i,
                            ty,
                            tile_x as int,
                            pixel_y as int,
                            pixel_x as int,
                        ) {
                            tile_average@[factory.owner_entry(i)]
                        } else {
                            old(mosaic)[i]
                        });
                    }
                }
                pixel_x += 1;
            }
            proof {
                assert forall|i: int| 0 <= i < mosaic.len() implies pixel_done(
                    factory,
                    i,
                    ty,
                    tile_x as int,
                    pixel_y as int,
                    side as int,
                ) == pixel_done(factory, i, ty, tile_x as int, pixel_y + 1, 0) by {
                    lemma_pixel_done_edges(factory, i, ty, tile_x as int, pixel_y as int);
                }
            }
            pixel_y += 1;
        }
        proof {
            assert forall|i: int| 0 <= i < mosaic.len() implies pixel_done(
                factory,
                i,
                ty,
                tile_x as int,
                side as int,
                0,
            ) == pixel_done(factory, i, ty, tile_x + 1, 0, 0) by {
                lemma_pixel_done_edges(factory, i, ty, tile_x as int, 0);
            }
        }
        tile_x += 1;
    }
    proof {
        assert forall|i: int| 0 <= i < mosaic.len() implies mosaic[i] == row_scattered(
            factory,
            tile_average@,
            ty,
            old(mosaic)@,
        )[i] by {
            lemma_pixel_done_edges(factory, i, ty, 0, 0);
        }
        assert(mosaic@ =~= row_scattered(factory, tile_average@, ty, old(mosaic)@));
    }
}

} // verus!
