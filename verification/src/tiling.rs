use crate::arith::{
    lemma_byte_index_bound, lemma_div_mod_of_sum, lemma_entry_coordinates,
    lemma_index_coordinates, lemma_mean_is_byte, lemma_mul_le, lemma_tile_coordinate,
};
use crate::mosaic_factory::MosaicFactory;
use vstd::prelude::*;

verus! {

/// The sum over part of a tile's row is at most 255 for each pixel taken.
pub proof fn lemma_row_segment_sum_bound(
    factory: &MosaicFactory,
    tile_x: int,
    tile_y: int,
    channel: int,
    pixel_y: int,
    count: int,
)
    requires
        0 <= count,
    ensures
        0 <= factory.row_segment_sum(tile_x, tile_y, channel, pixel_y, count) <= 255 * count,
    decreases count,
{
    if count > 0 {
        lemma_row_segment_sum_bound(factory, tile_x, tile_y, channel, pixel_y, count - 1);
    }
}

/// The sum over the first rows of a tile is at most 255 for each pixel taken.
pub proof fn lemma_tile_rows_sum_bound(
    factory: &MosaicFactory,
    tile_x: int,
    tile_y: int,
    channel: int,
    rows: int,
)
    requires
        0 <= rows,
    ensures
        0 <= factory.tile_rows_sum(tile_x, tile_y, channel, rows) <= 255 * (rows
            * factory.tile_side_length),
    decreases rows,
{
    if rows > 0 {
        lemma_tile_rows_sum_bound(factory, tile_x, tile_y, channel, rows - 1);
        lemma_row_segment_sum_bound(
            factory,
            tile_x,
            tile_y,
            channel,
            rows - 1,
            factory.tile_side_length as int,
        );
        assert(255 * ((rows - 1) * factory.tile_side_length) + 255 * factory.tile_side_length
            == 255 * (rows * factory.tile_side_length)) by (nonlinear_arith);
    } else {
        assert(rows * factory.tile_side_length == 0) by (nonlinear_arith)
            requires
                rows == 0,
        ;
    }
}

/// The sum of a tile's channel is at most 255 times the number of pixels of
/// a tile, which fits 32 bits.
pub proof fn lemma_tile_sum_fits(factory: &MosaicFactory, tile_x: int, tile_y: int, channel: int)
    requires
        factory.wf(),
    ensures
        0 <= factory.tile_sum(tile_x, tile_y, channel) <= 255 * factory.tile_pixels <= u32::MAX,
{
    lemma_tile_rows_sum_bound(factory, tile_x, tile_y, channel, factory.tile_side_length as int);
}

/// Every sum of the first stage fits 32 bits and is at most 255 times the
/// number of pixels of a tile.
pub proof fn lemma_entry_sum_fits(factory: &MosaicFactory, index: int)
    requires
        factory.wf(),
    ensures
        0 <= factory.entry_sum(index) <= 255 * factory.tile_pixels <= u32::MAX,
{
    let channels = factory.image_data.channels as int;
    let tile = index / channels;
    lemma_tile_sum_fits(
        factory,
        tile % (factory.tiles_x as int),
        tile / (factory.tiles_x as int),
        index % channels,
    );
}

/// The buffers of the engine are no longer than its image, and where there
/// is a pixel the image's bytes outnumber its pixels.
pub proof fn lemma_buffer_lengths(factory: &MosaicFactory)
    requires
        factory.wf(),
    ensures
        0 <= factory.tile_count() <= factory.image_data.width * factory.image_data.height,
        0 <= factory.tile_buffer_len() <= factory.image_data.data.len(),
        factory.image_data.channels > 0 ==> factory.image_data.width * factory.image_data.height
            <= factory.image_data.data.len(),
{
    let side = factory.tile_side_length as int;
    let tx = factory.tiles_x as int;
    let ty = factory.tiles_y as int;
    let c = factory.image_data.channels as int;
    assert(0 <= tx <= tx * side && 0 <= ty <= ty * side) by (nonlinear_arith)
        requires
            side >= 1,
            0 <= tx,
            0 <= ty,
    ;
    lemma_mul_le(tx, ty, tx * side, ty * side);
    lemma_mul_le(tx * ty, c, (tx * side) * (ty * side), c);
    if c > 0 {
        lemma_mul_le((tx * side) * (ty * side), 1, (tx * side) * (ty * side), c);
    }
}

/// The entry of a tile's channel lies in the tile buffer, and the sum that
/// belongs there is the sum of that tile's channel.
pub proof fn lemma_tile_entry(factory: &MosaicFactory, tile_x: int, tile_y: int, channel: int)
    requires
        factory.wf(),
        0 <= tile_x < factory.tiles_x,
        0 <= tile_y < factory.tiles_y,
        0 <= channel < factory.image_data.channels,
    ensures
        0 <= factory.tile_entry(tile_x, tile_y, channel) < factory.tile_buffer_len(),
        factory.tile_entry(tile_x, tile_y, channel) / (factory.image_data.channels as int) == tile_y
            * factory.tiles_x + tile_x,
        factory.tile_entry(tile_x, tile_y, channel) % (factory.image_data.channels as int)
            == channel,
        factory.entry_sum(factory.tile_entry(tile_x, tile_y, channel)) == factory.tile_sum(
            tile_x,
            tile_y,
            channel,
        ),
{
    lemma_entry_coordinates(
        tile_y,
        tile_x,
        channel,
        factory.tiles_x as int,
        factory.image_data.channels as int,
    );
    lemma_byte_index_bound(
        factory.tiles_x as int,
        factory.tiles_y as int,
        factory.image_data.channels as int,
        tile_x,
        tile_y,
        channel,
    );
}

/// A pixel of a tile is a pixel of the image: its bytes lie in the image's
/// buffer, and the tile buffer's entry that owns each of them is that of the
/// tile.
pub proof fn lemma_pixel_of_tile(
    factory: &MosaicFactory,
    tile_x: int,
    tile_y: int,
    pixel_x: int,
    pixel_y: int,
    channel: int,
)
    requires
        factory.wf(),
        0 <= tile_x < factory.tiles_x,
        0 <= tile_y < factory.tiles_y,
        0 <= pixel_x < factory.tile_side_length,
        0 <= pixel_y < factory.tile_side_length,
        0 <= channel < factory.image_data.channels,
    ensures
        0 <= tile_x * factory.tile_side_length + pixel_x < factory.image_data.width,
        0 <= tile_y * factory.tile_side_length + pixel_y < factory.image_data.height,
        0 <= (tile_y * factory.tile_side_length + pixel_y) * factory.image_data.width <= (tile_y
            * factory.tile_side_length + pixel_y) * factory.image_data.width + (tile_x
            * factory.tile_side_length + pixel_x) < factory.image_data.width
            * factory.image_data.height,
        0 <= factory.image_data.byte_index(
            tile_x * factory.tile_side_length + pixel_x,
            tile_y * factory.tile_side_length + pixel_y,
            channel,
        ) < factory.image_data.data.len(),
        factory.owner_entry(
            factory.image_data.byte_index(
                tile_x * factory.tile_side_length + pixel_x,
                tile_y * factory.tile_side_length + pixel_y,
                channel,
            ),
        ) == factory.tile_entry(tile_x, tile_y, channel),
{
    let side = factory.tile_side_length as int;
    let x = tile_x * side + pixel_x;
    let y = tile_y * side + pixel_y;
    lemma_tile_coordinate(tile_x, factory.tiles_x as int, side, pixel_x);
    lemma_tile_coordinate(tile_y, factory.tiles_y as int, side, pixel_y);
    lemma_byte_index_bound(
        factory.image_data.width as int,
        factory.image_data.height as int,
        factory.image_data.channels as int,
        x,
        y,
        channel,
    );
    lemma_entry_coordinates(
        y,
        x,
        channel,
        factory.image_data.width as int,
        factory.image_data.channels as int,
    );
    assert(0 <= y * factory.image_data.width) by (nonlinear_arith)
        requires
            0 <= y,
    ;
}

/// Every byte of the image belongs to a pixel of a tile.
pub proof fn lemma_byte_coordinates(factory: &MosaicFactory, index: int)
    requires
        factory.wf(),
        0 <= index < factory.image_data.data.len(),
    ensures
        ({
            let channels = factory.image_data.channels as int;
            let width = factory.image_data.width as int;
            let side = factory.tile_side_length as int;
            let pixel = index / channels;
            let x = pixel % width;
            let y = pixel / width;
            &&& 0 <= index % channels < channels
            &&& 0 <= x / side < factory.tiles_x
            &&& 0 <= y / side < factory.tiles_y
            &&& 0 <= x % side < side
            &&& 0 <= y % side < side
            &&& x == (x / side) * side + x % side
            &&& y == (y / side) * side + y % side
            &&& factory.image_data.byte_index(x, y, index % channels) == index
        }),
{
    let channels = factory.image_data.channels as int;
    let width = factory.image_data.width as int;
    let height = factory.image_data.height as int;
    let side = factory.tile_side_length as int;
    assert(width * height * channels == height * width * channels) by (nonlinear_arith);
    lemma_index_coordinates(index, height, width, channels);
    let pixel = index / channels;
    let x = pixel % width;
    let y = pixel / width;
    vstd::arithmetic::div_mod::lemma_fundamental_div_mod(x, side);
    vstd::arithmetic::div_mod::lemma_fundamental_div_mod(y, side);
    vstd::arithmetic::div_mod::lemma_mod_bound(x, side);
    vstd::arithmetic::div_mod::lemma_mod_bound(y, side);
    let qx = x / side;
    let qy = y / side;
    assert(side * qx == qx * side && side * qy == qy * side) by (nonlinear_arith);
    assert(0 <= qx < factory.tiles_x) by (nonlinear_arith)
        requires
            x == qx * side + x % side,
            0 <= x % side < side,
            0 <= x < factory.tiles_x * side,
    ;
    assert(0 <= qy < factory.tiles_y) by (nonlinear_arith)
        requires
            y == qy * side + y % side,
            0 <= y % side < side,
            0 <= y < factory.tiles_y * side,
    ;
}

/// The total of a channel over some tiles is at most 255 for each tile.
pub proof fn lemma_channel_total_bound(
    factory: &MosaicFactory,
    averages: Seq<u8>,
    channel: int,
    tiles: int,
)
    requires
        0 <= tiles,
    ensures
        0 <= factory.channel_total(averages, channel, tiles) <= 255 * tiles,
    decreases tiles,
{
    if tiles > 0 {
        lemma_channel_total_bound(factory, averages, channel, tiles - 1);
    }
}

/// The mean of a channel's tile averages is itself a byte: the cast in
/// [`MosaicFactory::channel_mean`] loses nothing.
pub proof fn lemma_channel_mean_is_byte(factory: &MosaicFactory, averages: Seq<u8>, channel: int)
    requires
        factory.tile_count() > 0,
    ensures
        0 <= factory.channel_total(averages, channel, factory.tile_count()) / factory.tile_count()
            <= 255,
{
    let n = factory.tile_count();
    lemma_channel_total_bound(factory, averages, channel, n);
    lemma_mean_is_byte(factory.channel_total(averages, channel, n), n);
}

/// The average of a sum of a tile's bytes is the plain quotient: nothing is
/// cut off.
pub proof fn lemma_average_exact(factory: &MosaicFactory, sum: u32)
    requires
        factory.wf(),
        sum <= 255 * factory.tile_pixels,
    ensures
        factory.average_of(sum) == sum as int / factory.tile_pixels as int,
        0 <= sum as int / factory.tile_pixels as int <= 255,
{
    let n = factory.tile_pixels as int;
    assert(n > 0) by (nonlinear_arith)
        requires
            n == factory.tile_side_length * factory.tile_side_length,
            factory.tile_side_length > 0,
    ;
    vstd::arithmetic::div_mod::lemma_fundamental_div_mod(sum as int, n);
    vstd::arithmetic::div_mod::lemma_mod_bound(sum as int, n);
    let q = sum as int / n;
    assert(0 <= q <= 255) by (nonlinear_arith)
        requires
            sum == n * q + sum as int % n,
            0 <= sum as int % n < n,
            0 <= sum <= 255 * n,
            n > 0,
    ;
    vstd::arithmetic::div_mod::lemma_small_mod(q as nat, 256);
}

/// The row of tiles in which the pixel of byte `index` of the image lies.
pub open spec fn tile_row_of_byte(factory: &MosaicFactory, index: int) -> int {
    let pixel = index / (factory.image_data.channels as int);
    (pixel / (factory.image_data.width as int)) / (factory.tile_side_length as int)
}

/// An image in which the bytes of one row of tiles have taken the averages
/// of their tiles, and all other bytes are those of `before`.
pub open spec fn row_scattered(
    factory: &MosaicFactory,
    averages: Seq<u8>,
    tile_y: int,
    before: Seq<u8>,
) -> Seq<u8> {
    Seq::new(
        before.len(),
        |index: int|
            if tile_row_of_byte(factory, index) == tile_y {
                averages[factory.owner_entry(index)]
            } else {
                before[index]
            },
    )
}

/// Whether the pixel of byte `index` has been written when the scatter of
/// the row of tiles `tile_y` stands before pixel `(pixel_x, pixel_y)` of
/// tile `tile_x`: tiles go from left to right, and the pixels of a tile row
/// by row.
pub open spec fn pixel_done(
    factory: &MosaicFactory,
    index: int,
    tile_y: int,
    tile_x: int,
    pixel_y: int,
    pixel_x: int,
) -> bool {
    let side = factory.tile_side_length as int;
    let pixel = index / (factory.image_data.channels as int);
    let x = pixel % (factory.image_data.width as int);
    let y = pixel / (factory.image_data.width as int);
    &&& y / side == tile_y
    &&& (x / side < tile_x || (x / side == tile_x && (y % side < pixel_y || (y % side == pixel_y
        && x % side < pixel_x))))
}

/// Writing one pixel of a tile moves the scatter on by exactly the bytes of
/// that pixel, each of which is owned by the tile's entry of its channel.
pub proof fn lemma_pixel_step(
    factory: &MosaicFactory,
    index: int,
    tile_y: int,
    tile_x: int,
    pixel_y: int,
    pixel_x: int,
)
    requires
        factory.wf(),
        0 <= index < factory.image_data.data.len(),
        0 <= tile_x < factory.tiles_x,
        0 <= tile_y < factory.tiles_y,
        0 <= pixel_x < factory.tile_side_length,
        0 <= pixel_y < factory.tile_side_length,
    ensures
        ({
            let offset = factory.image_data.byte_index(
                tile_x * factory.tile_side_length + pixel_x,
                tile_y * factory.tile_side_length + pixel_y,
                0,
            );
            let inside = offset <= index < offset + factory.image_data.channels;
            &&& pixel_done(factory, index, tile_y, tile_x, pixel_y, pixel_x + 1) == (pixel_done(
                factory,
                index,
                tile_y,
                tile_x,
                pixel_y,
                pixel_x,
            ) || inside)
            &&& inside ==> !pixel_done(factory, index, tile_y, tile_x, pixel_y, pixel_x)
            &&& inside ==> factory.owner_entry(index) == factory.tile_entry(tile_x, tile_y, 0)
                + (index - offset)
            &&& inside ==> tile_row_of_byte(factory, index) == tile_y
        }),
{
    let side = factory.tile_side_length as int;
    let channels = factory.image_data.channels as int;
    let width = factory.image_data.width as int;
    let x0 = tile_x * side + pixel_x;
    let y0 = tile_y * side + pixel_y;
    let offset = factory.image_data.byte_index(x0, y0, 0);
    lemma_byte_coordinates(factory, index);
    let pixel = index / channels;
    let x = pixel % width;
    let y = pixel / width;
    lemma_tile_coordinate(tile_x, factory.tiles_x as int, side, pixel_x);
    lemma_tile_coordinate(tile_y, factory.tiles_y as int, side, pixel_y);
    if offset <= index < offset + channels {
        lemma_pixel_of_tile(factory, tile_x, tile_y, pixel_x, pixel_y, index - offset);
        lemma_entry_coordinates(y0, x0, index - offset, width, channels);
    } else if x == x0 && y == y0 {
        assert(false);
    }
}

/// Where the loops of the scatter of a row of tiles begin and end, the set
/// of the pixels that are written stays the same.
pub proof fn lemma_pixel_done_edges(
    factory: &MosaicFactory,
    index: int,
    tile_y: int,
    tile_x: int,
    pixel_y: int,
)
    requires
        factory.wf(),
        0 <= index < factory.image_data.data.len(),
        0 <= tile_x,
        0 <= pixel_y,
    ensures
        !pixel_done(factory, index, tile_y, 0, 0, 0),
        pixel_done(factory, index, tile_y, tile_x, pixel_y, factory.tile_side_length as int)
            == pixel_done(factory, index, tile_y, tile_x, pixel_y + 1, 0),
        pixel_done(factory, index, tile_y, tile_x, factory.tile_side_length as int, 0)
            == pixel_done(factory, index, tile_y, tile_x + 1, 0, 0),
        pixel_done(factory, index, tile_y, factory.tiles_x as int, 0, 0) == (tile_row_of_byte(
            factory,
            index,
        ) == tile_y),
        0 <= tile_row_of_byte(factory, index) < factory.tiles_y,
{
    lemma_byte_coordinates(factory, index);
}

/// The image is a whole number of chunks of one tile's width of pixels: as
/// many as there are tiles in a row for each row of pixels.
pub proof fn lemma_chunk_count(factory: &MosaicFactory)
    requires
        factory.wf(),
        factory.image_data.channels > 0,
    ensures
        ({
            let chunk_len = factory.tile_side_length * factory.image_data.channels;
            let chunks = factory.tiles_x * factory.image_data.height;
            &&& chunk_len > 0
            &&& factory.image_data.data.len() == chunks * chunk_len
            &&& factory.image_data.data.len() as int % chunk_len == 0
            &&& factory.image_data.data.len() as int / chunk_len == chunks
        }),
{
    let side = factory.tile_side_length as int;
    let channels = factory.image_data.channels as int;
    let chunk_len = side * channels;
    let chunks = factory.tiles_x * factory.image_data.height;
    assert(chunk_len > 0) by (nonlinear_arith)
        requires
            side > 0,
            channels > 0,
            chunk_len == side * channels,
    ;
    assert((factory.tiles_x * side) * factory.image_data.height * channels == chunks * chunk_len)
        by (nonlinear_arith)
        requires
            chunks == factory.tiles_x * factory.image_data.height,
            chunk_len == side * channels,
    ;
    lemma_div_mod_of_sum(chunks, chunk_len, 0);
}

/// Byte `offset` of chunk `index` belongs to the tile in column
/// `index % tiles_x` of the row of tiles `index / (tiles_x * tile_side)`.
pub proof fn lemma_chunk_owner(factory: &MosaicFactory, index: int, offset: int)
    requires
        factory.wf(),
        factory.image_data.channels > 0,
        0 <= index < factory.tiles_x * factory.image_data.height,
        0 <= offset < factory.tile_side_length * factory.image_data.channels,
    ensures
        ({
            let chunk_len = factory.tile_side_length * factory.image_data.channels;
            let tile_x = index % (factory.tiles_x as int);
            let tile_y = index / (factory.tiles_x * factory.tile_side_length);
            &&& 0 <= tile_x < factory.tiles_x
            &&& 0 <= tile_y < factory.tiles_y
            &&& 0 <= offset % (factory.image_data.channels as int) < factory.image_data.channels
            &&& 0 <= index * chunk_len + offset < factory.image_data.data.len()
            &&& factory.owner_entry(index * chunk_len + offset) == factory.tile_entry(
                tile_x,
                tile_y,
                offset % (factory.image_data.channels as int),
            )
        }),
{
    let side = factory.tile_side_length as int;
    let channels = factory.image_data.channels as int;
    let tiles_x = factory.tiles_x as int;
    let width = factory.image_data.width as int;
    let height = factory.image_data.height as int;
    let chunk_len = side * channels;
    assert(tiles_x > 0) by (nonlinear_arith)
        requires
            0 <= index < tiles_x * height,
            0 <= tiles_x,
    ;
    // The chunk's row of pixels and its tile within the row.
    vstd::arithmetic::div_mod::lemma_fundamental_div_mod(index, tiles_x);
    vstd::arithmetic::div_mod::lemma_mod_bound(index, tiles_x);
    let y = index / tiles_x;
    let tile_x = index % tiles_x;
    assert(tiles_x * y == y * tiles_x) by (nonlinear_arith);
    assert(0 <= y < height) by (nonlinear_arith)
        requires
            index == y * tiles_x + tile_x,
            0 <= tile_x < tiles_x,
            0 <= index < tiles_x * height,
    ;
    // The byte's pixel within the chunk and its channel.
    vstd::arithmetic::div_mod::lemma_fundamental_div_mod(offset, channels);
    vstd::arithmetic::div_mod::lemma_mod_bound(offset, channels);
    let pixel_x = offset / channels;
    let channel = offset % channels;
    assert(channels * pixel_x == pixel_x * channels) by (nonlinear_arith);
    assert(0 <= pixel_x < side) by (nonlinear_arith)
        requires
            offset == pixel_x * channels + channel,
            0 <= channel < channels,
            0 <= offset < side * channels,
    ;
    let x = tile_x * side + pixel_x;
    lemma_tile_coordinate(tile_x, tiles_x, side, pixel_x);
    let i = index * chunk_len + offset;
    assert(i == (y * width + x) * channels + channel) by (nonlinear_arith)
        requires
            i == index * chunk_len + offset,
            chunk_len == side * channels,
            index == y * tiles_x + tile_x,
            offset == pixel_x * channels + channel,
            x == tile_x * side + pixel_x,
            width == tiles_x * side,
    ;
    lemma_byte_index_bound(width, height, channels, x, y, channel);
    lemma_entry_coordinates(y, x, channel, width, channels);
    // The row of tiles: dividing by the tiles of a row and then by the side
    // is dividing by their product.
    vstd::arithmetic::div_mod::lemma_div_denominator(index, tiles_x, side);
    vstd::arithmetic::div_mod::lemma_fundamental_div_mod(y, side);
    vstd::arithmetic::div_mod::lemma_mod_bound(y, side);
    let tile_y = y / side;
    assert(side * tile_y == tile_y * side) by (nonlinear_arith);
    assert(0 <= tile_y < factory.tiles_y) by (nonlinear_arith)
        requires
            y == tile_y * side + y % side,
            0 <= y % side < side,
            0 <= y < factory.tiles_y * side,
    ;
}

/// The total of a channel grows by at most 255 with each tile.
pub proof fn lemma_channel_total_span(
    factory: &MosaicFactory,
    averages: Seq<u8>,
    channel: int,
    from: int,
    to: int,
)
    requires
        0 <= from <= to,
    ensures
        0 <= factory.channel_total(averages, channel, to) - factory.channel_total(
            averages,
            channel,
            from,
        ) <= 255 * (to - from),
    decreases to,
{
    if from < to {
        lemma_channel_total_span(factory, averages, channel, from, to - 1);
    }
}

} // verus!
