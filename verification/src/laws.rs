use crate::arith::{lemma_byte_index_bound, lemma_div_mod_of_sum, lemma_entry_coordinates};
use crate::image_data::{crop_margin, cropped_extent};
use crate::error::MosaicError;
use crate::image_data::ImageData;
use crate::mosaic_factory::{tile_side_in_range, MosaicBuilder, MosaicFactory};
use crate::parallel_mosaic::ParallelMosaic;
use crate::serial_mosaic::SerialMosaic;
use crate::slow_parallel_mosaic::SlowParallelMosaic;
use crate::tiling::{
    lemma_average_exact, lemma_channel_mean_is_byte, lemma_entry_sum_fits, lemma_tile_entry,
};
use vstd::prelude::*;

verus! {

/// What the crop keeps of an axis is the largest whole number of tiles that
/// fits it, and what it removes is split between the two sides so that they
/// differ by one at most. An axis shorter than a tile keeps nothing.
pub proof fn crop_keeps_the_largest_whole_tiles(extent: u32, tile_side: u32)
    requires
        tile_side > 0,
    ensures
        0 <= cropped_extent(extent, tile_side) <= extent,
        cropped_extent(extent, tile_side) % (tile_side as int) == 0,
        extent - cropped_extent(extent, tile_side) < tile_side,
        tile_side > extent ==> cropped_extent(extent, tile_side) == 0,
        0 <= crop_margin(extent, tile_side),
        0 <= extent - cropped_extent(extent, tile_side) - 2 * crop_margin(extent, tile_side) <= 1,
{
    let tiles = extent as int / tile_side as int;
    vstd::arithmetic::div_mod::lemma_fundamental_div_mod(extent as int, tile_side as int);
    vstd::arithmetic::div_mod::lemma_mod_bound(extent as int, tile_side as int);
    assert(tile_side * tiles == tiles * tile_side) by (nonlinear_arith);
    lemma_div_mod_of_sum(tiles, tile_side as int, 0);
    if tile_side > extent {
        vstd::arithmetic::div_mod::lemma_basic_div(extent as int, tile_side as int);
        assert(tiles * tile_side == 0) by (nonlinear_arith)
            requires
                tiles == 0,
        ;
    }
}

/// Whatever the serial strategy returns from the first stage holds, for
/// every tile and channel, exactly the sum of the bytes of that channel
/// over the pixels of that tile.
pub proof fn serial_sums_are_sums_of_bytes(
    factory: &MosaicFactory,
    tile_sum: Vec<u32>,
    tile_x: int,
    tile_y: int,
    channel: int,
)
    requires
        factory.wf(),
        call_ensures(
            <SerialMosaic as MosaicBuilder>::sum_tile_channels,
            (&SerialMosaic, factory),
            tile_sum,
        ),
        0 <= tile_x < factory.tiles_x,
        0 <= tile_y < factory.tiles_y,
        0 <= channel < factory.image_data.channels,
    ensures
        tile_sum.len() == factory.tiles_x * factory.tiles_y * factory.image_data.channels,
        0 <= factory.tile_entry(tile_x, tile_y, channel) < tile_sum.len(),
        tile_sum[factory.tile_entry(tile_x, tile_y, channel)] == factory.tile_sum(
            tile_x,
            tile_y,
            channel,
        ),
{
    lemma_tile_entry(factory, tile_x, tile_y, channel);
    lemma_entry_sum_fits(factory, factory.tile_entry(tile_x, tile_y, channel));
}

/// The average of every tile and channel is the sum divided by the number
/// of pixels of a tile, which is the square of the tile's side, rounded
/// down.
pub proof fn tile_averages_are_floored_quotients(factory: &MosaicFactory, index: int)
    requires
        factory.wf(),
        0 <= index < factory.tile_buffer_len(),
    ensures
        factory.tile_pixels == factory.tile_side_length * factory.tile_side_length,
        factory.tile_averages(factory.tile_sums()).len() == factory.tile_buffer_len(),
        factory.tile_averages(factory.tile_sums())[index] == (factory.tile_sums()[index] as int)
            / (factory.tile_pixels as int),
{
    lemma_entry_sum_fits(factory, index);
    lemma_average_exact(factory, factory.tile_sums()[index]);
}

/// The global average of a channel is the sum of the tile averages of that
/// channel divided by the number of tiles, rounded down.
pub proof fn global_average_is_mean_of_tile_averages(
    factory: &MosaicFactory,
    averages: Seq<u8>,
    channel: int,
)
    requires
        factory.tile_count() > 0,
        0 <= channel < factory.image_data.channels,
    ensures
        factory.global_average(averages).len() == factory.image_data.channels,
        factory.global_average(averages)[channel] == factory.channel_total(
            averages,
            channel,
            factory.tile_count(),
        ) / factory.tile_count(),
{
    lemma_channel_mean_is_byte(factory, averages, channel);
}

/// The mosaic is as long as the image, and every byte of a pixel is the
/// average of its channel in the tile in which the pixel lies.
pub proof fn mosaic_pixels_take_their_tile_average(
    factory: &MosaicFactory,
    averages: Seq<u8>,
    x: int,
    y: int,
    channel: int,
)
    requires
        factory.wf(),
        0 <= x < factory.image_data.width,
        0 <= y < factory.image_data.height,
        0 <= channel < factory.image_data.channels,
    ensures
        factory.mosaic(averages).len() == factory.image_data.data.len(),
        0 <= factory.image_data.byte_index(x, y, channel) < factory.mosaic(averages).len(),
        factory.mosaic(averages)[factory.image_data.byte_index(x, y, channel)]
            == averages[factory.tile_entry(
            x / (factory.tile_side_length as int),
            y / (factory.tile_side_length as int),
            channel,
        )],
{
    lemma_byte_index_bound(
        factory.image_data.width as int,
        factory.image_data.height as int,
        factory.image_data.channels as int,
        x,
        y,
        channel,
    );
    lemma_entry_coordinates(
        y,
        x,
        channel,
        factory.image_data.width as int,
        factory.image_data.channels as int,
    );
}

/// The three strategies return the same tile sums for the same engine.
pub proof fn strategies_agree_on_sums(
    factory: &MosaicFactory,
    serial: Vec<u32>,
    parallel: Vec<u32>,
    slow_parallel: Vec<u32>,
)
    requires
        call_ensures(
            <SerialMosaic as MosaicBuilder>::sum_tile_channels,
            (&SerialMosaic, factory),
            serial,
        ),
        call_ensures(
            <ParallelMosaic as MosaicBuilder>::sum_tile_channels,
            (&ParallelMosaic, factory),
            parallel,
        ),
        call_ensures(
            <SlowParallelMosaic as MosaicBuilder>::sum_tile_channels,
            (&SlowParallelMosaic, factory),
            slow_parallel,
        ),
    ensures
        serial@ == parallel@,
        serial@ == slow_parallel@,
{
}

/// The three strategies return the same tile averages and the same global
/// average for the same engine and the same sums.
pub proof fn strategies_agree_on_averages(
    factory: &MosaicFactory,
    tile_sum: &[u32],
    serial: (Vec<u8>, Vec<u8>),
    parallel: (Vec<u8>, Vec<u8>),
    slow_parallel: (Vec<u8>, Vec<u8>),
)
    requires
        call_ensures(
            <SerialMosaic as MosaicBuilder>::calc_tile_average,
            (&SerialMosaic, factory, tile_sum),
            serial,
        ),
        call_ensures(
            <ParallelMosaic as MosaicBuilder>::calc_tile_average,
            (&ParallelMosaic, factory, tile_sum),
            parallel,
        ),
        call_ensures(
            <SlowParallelMosaic as MosaicBuilder>::calc_tile_average,
            (&SlowParallelMosaic, factory, tile_sum),
            slow_parallel,
        ),
    ensures
        serial.0@ == parallel.0@,
        serial.0@ == slow_parallel.0@,
        serial.1@ == parallel.1@,
        serial.1@ == slow_parallel.1@,
{
}

/// The three strategies return the same mosaic for the same engine and the
/// same averages.
pub proof fn strategies_agree_on_mosaic(
    factory: &MosaicFactory,
    tile_average: &[u8],
    serial: Vec<u8>,
    parallel: Vec<u8>,
    slow_parallel: Vec<u8>,
)
    requires
        call_ensures(
            <SerialMosaic as MosaicBuilder>::create_mosaic,
            (&SerialMosaic, factory, tile_average),
            serial,
        ),
        call_ensures(
            <ParallelMosaic as MosaicBuilder>::create_mosaic,
            (&ParallelMosaic, factory, tile_average),
            parallel,
        ),
        call_ensures(
            <SlowParallelMosaic as MosaicBuilder>::create_mosaic,
            (&SlowParallelMosaic, factory, tile_average),
            slow_parallel,
        ),
    ensures
        serial@ == parallel@,
        serial@ == slow_parallel@,
{
}

/// Two runs of `generate_mosaic` on the same engine with the same strategy
/// return the same bytes.
pub proof fn generate_mosaic_is_repeatable<B: MosaicBuilder>(
    factory: &MosaicFactory,
    mosaic_builder: &B,
    first: Vec<u8>,
    second: Vec<u8>,
)
    requires
        call_ensures(MosaicFactory::generate_mosaic::<B>, (factory, mosaic_builder), first),
        call_ensures(MosaicFactory::generate_mosaic::<B>, (factory, mosaic_builder), second),
    ensures
        first@ == second@,
{
}

/// A tile side that is longer than a side of the image is either refused
/// as invalid, or gives an engine without a tile on that axis, whose image
/// and whose mosaic are empty.
pub proof fn oversized_side_is_refused_or_leaves_no_tile(
    image_data: ImageData,
    tile_side_length: u32,
    result: Result<MosaicFactory, MosaicError>,
)
    requires
        image_data.wf(),
        image_data.aligned_to(tile_side_length),
        tile_side_length > image_data.width || tile_side_length > image_data.height,
        call_ensures(MosaicFactory::new, (image_data, tile_side_length), result),
    ensures
        result is Err ==> result->Err_0 == MosaicError::InvalidTileSize && !tile_side_in_range(
            tile_side_length,
        ),
        result is Ok ==> {
            &&& tile_side_length > image_data.width ==> result->Ok_0.tiles_x == 0
            &&& tile_side_length > image_data.height ==> result->Ok_0.tiles_y == 0
            &&& result->Ok_0.image_data.data.len() == 0
            &&& result->Ok_0.tile_sums().len() == 0
            &&& result->Ok_0.spec_mosaic().len() == 0
        },
{
    if result is Ok {
        let factory = result->Ok_0;
        oversized_tiles_give_an_empty_mosaic(&factory);
        if tile_side_length > image_data.width {
            vstd::arithmetic::div_mod::lemma_basic_div(
                image_data.width as int,
                tile_side_length as int,
            );
        }
        if tile_side_length > image_data.height {
            vstd::arithmetic::div_mod::lemma_basic_div(
                image_data.height as int,
                tile_side_length as int,
            );
        }
    }
}

/// An engine whose tiles are wider than its image or taller has no tile,
/// and its buffers and its mosaic are empty.
pub proof fn oversized_tiles_give_an_empty_mosaic(factory: &MosaicFactory)
    requires
        factory.wf(),
        factory.tile_side_length > factory.image_data.width || factory.tile_side_length
            > factory.image_data.height,
    ensures
        factory.tiles_x == 0 || factory.tiles_y == 0,
        factory.tile_count() == 0,
        factory.tile_sums().len() == 0,
        factory.image_data.data.len() == 0,
        factory.spec_mosaic().len() == 0,
{
    let side = factory.tile_side_length as int;
    let tiles_x = factory.tiles_x as int;
    let tiles_y = factory.tiles_y as int;
    assert(tiles_x == 0 || tiles_y == 0) by (nonlinear_arith)
        requires
            side > tiles_x * side || side > tiles_y * side,
            0 <= tiles_x,
            0 <= tiles_y,
            side > 0,
    ;
    assert(tiles_x * tiles_y == 0 && tiles_x * tiles_y * factory.image_data.channels == 0)
        by (nonlinear_arith)
        requires
            tiles_x == 0 || tiles_y == 0,
    ;
    assert((tiles_x * side) * (tiles_y * side) * factory.image_data.channels == 0)
        by (nonlinear_arith)
        requires
            tiles_x == 0 || tiles_y == 0,
    ;
}

} // verus!
