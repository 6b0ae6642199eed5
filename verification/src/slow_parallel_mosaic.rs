use crate::arith::{lemma_index_coordinates, lemma_mul_le};
use crate::mosaic_factory::{MosaicBuilder, MosaicFactory};
use crate::par::{
    each_once, locked_add_rows, locked_average_rows, locked_scatter_rows, rows_added_in_turn,
    rows_averaged_in_turn, rows_scattered_in_turn,
};
use crate::schedule::{
    lemma_len_through_run, lemma_rows_written, lemma_sum_any_order, step_keeps_len,
    step_keeps_rows, sum_below, sum_in_order,
};
use crate::serial_mosaic::add_tile;
use crate::tiling::{
    lemma_buffer_lengths, lemma_channel_total_bound, lemma_channel_total_span,
    lemma_entry_sum_fits, lemma_pixel_done_edges, lemma_tile_entry,
    row_scattered, tile_row_of_byte,
};
use vstd::prelude::*;
use vstd::wrapping::{u128_specs, u32_specs};

verus! {

/// The strategy of the guarded buffer: one task per row of tiles, and every
/// write of a task made while it holds the lock on the one shared buffer.
/// It is here to show what lock contention costs, and returns what the
/// other strategies return.
#[derive(Clone, Copy, Debug)]
pub struct SlowParallelMosaic;

/// The row of tiles to which entry `index` of the tile buffer belongs.
pub open spec fn tile_row_of_entry(factory: &MosaicFactory, index: int) -> int {
    (index / (factory.image_data.channels as int)) / (factory.tiles_x as int)
}

/// A buffer of sums to which the sums of one row of tiles have been added,
/// wrapping at 32 bits; the other rows' entries are those of `before`.
pub open spec fn row_added(factory: &MosaicFactory, tile_y: int, before: Seq<u32>) -> Seq<u32> {
    Seq::new(
        before.len(),
        |index: int|
            if tile_row_of_entry(factory, index) == tile_y {
                u32_specs::wrapping_add(before[index], factory.entry_sum(index) as u32)
            } else {
                before[index]
            },
    )
}

/// Adds the sums of one row of tiles to the buffer, whatever it holds,
/// wrapping at 32 bits. The entries of the other rows stay as they are.
pub fn add_tile_row(factory: &MosaicFactory, tile_y: u32, sums: &mut Vec<u32>)
    requires
        factory.wf(),
        tile_y < factory.tiles_y,
        old(sums).len() == factory.tile_buffer_len(),
    ensures
        final(sums)@ == row_added(factory, tile_y as int, old(sums)@),
{
    let tiles_x = factory.tiles_x as usize;
    let ghost channels = factory.image_data.channels as int;
    let ghost ty = tile_y as int;
    let mut tile_x: usize = 0;
    while tile_x < tiles_x
        invariant
            factory.wf(),
            tiles_x == factory.tiles_x,
            ty == tile_y < factory.tiles_y,
            channels == factory.image_data.channels,
            sums.len() == old(sums).len(),
            old(sums).len() == factory.tile_buffer_len(),
            tile_x <= tiles_x,
            forall|i: int|
                0 <= i < sums.len() ==> #[trigger] sums[i] == if ty * tiles_x <= i / channels < ty
                    * tiles_x + tile_x {
                    u32_specs::wrapping_add(old(sums)[i], factory.entry_sum(i) as u32)
                } else {
                    old(sums)[i]
                },
        decreases tiles_x - tile_x,
    {
        add_tile(factory, tile_x, tile_y as usize, sums);
        tile_x += 1;
    }
    proof {
        assert forall|i: int| 0 <= i < sums.len() implies sums[i] == row_added(factory, ty, old(sums)@)[i] by {
            lemma_index_coordinates(i, factory.tiles_y as int, tiles_x as int, channels);
            let tile = i / channels;
            vstd::arithmetic::div_mod::lemma_fundamental_div_mod(tile, tiles_x as int);
            vstd::arithmetic::div_mod::lemma_mod_bound(tile, tiles_x as int);
            let row = tile / (tiles_x as int);
            assert(tiles_x * row == row * tiles_x) by (nonlinear_arith);
            assert((row == ty) == (ty * tiles_x <= tile < ty * tiles_x + tiles_x))
                by (nonlinear_arith)
                requires
                    tile == row * tiles_x + tile % (tiles_x as int),
                    0 <= tile % (tiles_x as int) < tiles_x,
            ;
        }
        assert(sums@ =~= row_added(factory, ty, old(sums)@));
    }
}

/// What one row of tiles adds to the total of a channel: the averages of
/// that channel over the tiles of the row.
pub open spec fn row_total(
    factory: &MosaicFactory,
    averages: Seq<u8>,
    tile_y: int,
    channel: int,
) -> int {
    factory.channel_total(averages, channel, (tile_y + 1) * factory.tiles_x)
        - factory.channel_total(averages, channel, tile_y * factory.tiles_x)
}

/// A buffer of averages in which the entries of one row of tiles hold the
/// averages of their sums; the other rows' entries are those of `before`.
pub open spec fn row_averaged(
    factory: &MosaicFactory,
    sums: Seq<u32>,
    tile_y: int,
    before: Seq<u8>,
) -> Seq<u8> {
    Seq::new(
        before.len(),
        |index: int|
            if tile_row_of_entry(factory, index) == tile_y {
                factory.average_of(sums[index])
            } else {
                before[index]
            },
    )
}

/// The totals per channel to which one row of tiles has added its averages,
/// wrapping at 128 bits.
pub open spec fn row_totalled(
    factory: &MosaicFactory,
    sums: Seq<u32>,
    tile_y: int,
    before: Seq<u128>,
) -> Seq<u128> {
    Seq::new(
        before.len(),
        |channel: int|
            u128_specs::wrapping_add(
                before[channel],
                row_total(factory, factory.tile_averages(sums), tile_y, channel) as u128,
            ),
    )
}

/// Step `k` of a run adds the share of the row that runs to the total.
pub open spec fn total_step(
    totals: Seq<u128>,
    order: Seq<u32>,
    share: spec_fn(int) -> int,
    k: int,
) -> bool {
    totals[k + 1] == u128_specs::wrapping_add(totals[k], share(order[k] as int) as u128)
}

/// In a run in which every row adds its share to a total that starts at
/// zero, the total after `taken` steps is the sum of the shares of the rows
/// that ran, and nothing has wrapped.
proof fn lemma_totals_through_run(
    factory: &MosaicFactory,
    averages: Seq<u8>,
    channel: int,
    order: Seq<u32>,
    totals: Seq<u128>,
    share: spec_fn(int) -> int,
    taken: int,
)
    requires
        factory.wf(),
        each_once(order, factory.tiles_y),
        totals.len() == factory.tiles_y + 1,
        totals[0] == 0,
        0 <= taken <= factory.tiles_y,
        forall|row: int| #[trigger] share(row) == row_total(factory, averages, row, channel),
        forall|k: int| 0 <= k < factory.tiles_y ==> #[trigger] total_step(totals, order, share, k),
    ensures
        totals[taken] == sum_in_order(share, order, taken),
        0 <= sum_in_order(share, order, taken) <= 255 * (taken * factory.tiles_x),
    decreases taken,
{
    if taken > 0 {
        lemma_totals_through_run(factory, averages, channel, order, totals, share, taken - 1);
        assert(total_step(totals, order, share, taken - 1));
        let row = order[taken - 1] as int;
        let tiles_x = factory.tiles_x as int;
        assert(0 <= row * tiles_x <= (row + 1) * tiles_x && (row + 1) * tiles_x - row * tiles_x
            == tiles_x) by (nonlinear_arith)
            requires
                0 <= row,
                0 <= tiles_x,
        ;
        lemma_channel_total_span(factory, averages, channel, row * tiles_x, (row + 1) * tiles_x);
        assert(255 * ((taken - 1) * tiles_x) + 255 * tiles_x == 255 * (taken * tiles_x))
            by (nonlinear_arith);
        assert(255 * (taken * tiles_x) <= 255 * (0x1_0000_0000 * 0x1_0000_0000)) by (nonlinear_arith)
            requires
                0 <= taken <= 0x1_0000_0000,
                0 <= tiles_x <= 0x1_0000_0000,
        ;
    } else {
        assert(taken * factory.tiles_x == 0) by (nonlinear_arith)
            requires
                taken == 0,
        ;
    }
}

/// The shares of the rows below `rows` add up to the total over their tiles.
proof fn lemma_shares_telescope(
    factory: &MosaicFactory,
    averages: Seq<u8>,
    channel: int,
    share: spec_fn(int) -> int,
    rows: int,
)
    requires
        0 <= rows,
        forall|row: int| #[trigger] share(row) == row_total(factory, averages, row, channel),
    ensures
        sum_below(share, rows) == factory.channel_total(averages, channel, rows * factory.tiles_x),
    decreases rows,
{
    if rows > 0 {
        lemma_shares_telescope(factory, averages, channel, share, rows - 1);
        assert((rows - 1 + 1) * factory.tiles_x == rows * factory.tiles_x);
    } else {
        assert(rows * factory.tiles_x == 0) by (nonlinear_arith)
            requires
                rows == 0,
        ;
    }
}

/// Writes the averages of one row of tiles into the buffer of averages and
/// adds them to the totals per channel, whatever both hold, wrapping at 128
/// bits. The averages of the other rows stay as they are.
pub fn average_tile_row(
    factory: &MosaicFactory,
    tile_sum: &[u32],
    tile_y: u32,
    tile_average: &mut Vec<u8>,
    global_sum: &mut Vec<u128>,
)
    requires
        factory.wf(),
        tile_sum.len() == factory.tile_buffer_len(),
        tile_y < factory.tiles_y,
        old(tile_average).len() == factory.tile_buffer_len(),
        old(global_sum).len() == factory.image_data.channels,
    ensures
        final(tile_average)@ == row_averaged(
            factory,
            tile_sum@,
            tile_y as int,
            old(tile_average)@,
        ),
        final(global_sum)@ == row_totalled(factory, tile_sum@, tile_y as int, old(global_sum)@),
{
    let channels = factory.image_data.channels as usize;
    let tiles_x = factory.tiles_x as usize;
    let ghost ty = tile_y as int;
    let ghost expected = factory.tile_averages(tile_sum@);
    let ghost first = ty * tiles_x;
    proof {
        lemma_buffer_lengths(factory);
        assert(0 <= first) by (nonlinear_arith)
            requires
                first == ty * tiles_x,
                0 <= ty,
                0 <= tiles_x,
        ;
    }
    let mut tile_x: usize = 0;
    while tile_x < tiles_x
        invariant
            factory.wf(),
            tile_sum.len() == factory.tile_buffer_len(),
            tiles_x == factory.tiles_x,
            channels == factory.image_data.channels,
            ty == tile_y < factory.tiles_y,
            first == ty * tiles_x,
            0 <= first,
            expected == factory.tile_averages(tile_sum@),
            tile_average.len() == old(tile_average).len(),
            tile_average.len() == factory.tile_buffer_len(),
            global_sum.len() == channels,
            tile_x <= tiles_x,
            forall|i: int|
                0 <= i < tile_average.len() ==> #[trigger] tile_average[i] == if first <= i / (
                channels as int) < first + tile_x {
                    expected[i]
                } else {
                    old(tile_average)[i]
                },
            forall|c: int|
                0 <= c < channels ==> #[trigger] global_sum[c] == u128_specs::wrapping_add(
                    old(global_sum)[c],
                    (factory.channel_total(expected, c, first + tile_x) - factory.channel_total(
                        expected,
                        c,
                        first,
                    )) as u128,
                ),
        decreases tiles_x - tile_x,
    {
        if channels > 0 {
            proof {
                lemma_tile_entry(factory, tile_x as int, ty, 0);
                lemma_tile_entry(factory, tile_x as int, ty, channels - 1);
                lemma_mul_le(ty, tiles_x as int, factory.tiles_y as int, tiles_x as int);
                lemma_mul_le(factory.tile_count(), 1, factory.tile_count(), channels as int);
                assert(factory.tiles_y * factory.tiles_x == factory.tiles_x * factory.tiles_y)
                    by (nonlinear_arith);
            }
            let tile_index = (tile_y as usize * tiles_x + tile_x) * channels;
            let mut channel: usize = 0;
            while channel < channels
                invariant
                    factory.wf(),
                    tile_sum.len() == factory.tile_buffer_len(),
                    tiles_x == factory.tiles_x,
                    channels == factory.image_data.channels,
                    channels > 0,
                    ty == tile_y < factory.tiles_y,
                    first == ty * tiles_x,
                    0 <= first,
                    expected == factory.tile_averages(tile_sum@),
                    tile_average.len() == old(tile_average).len(),
                    tile_average.len() == factory.tile_buffer_len(),
                    global_sum.len() == channels,
                    tile_x < tiles_x,
                    tile_index == (first + tile_x) * channels,
                    tile_index + channels <= tile_average.len(),
                    channel <= channels,
                    forall|i: int|
                        0 <= i < tile_average.len() ==> #[trigger] tile_average[i] == if (first
                            <= i / (channels as int) < first + tile_x) || (tile_index <= i
                            < tile_index + channel) {
                            expected[i]
                        } else {
                            old(tile_average)[i]
                        },
                    forall|c: int|
                        0 <= c < channels ==> #[trigger] global_sum[c] == u128_specs::wrapping_add(
                            old(global_sum)[c],
                            (factory.channel_total(
                                expected,
                                c,
                                first + tile_x + if c < channel {
                                    1int
                                } else {
                                    0int
                                },
                            ) - factory.channel_total(expected, c, first)) as u128,
                        ),
                decreases channels - channel,
            {
                proof {
                    lemma_channel_total_span(
                        factory,
                        expected,
                        channel as int,
                        first,
                        first + tile_x,
                    );
                    lemma_channel_total_span(
                        factory,
                        expected,
                        channel as int,
                        first,
                        first + tile_x + 1,
                    );
                }
                let tile_sum_channel = tile_sum[tile_index + channel];
                let tile_average_channel = factory.average(tile_sum_channel);
                tile_average[tile_index + channel] = tile_average_channel;
                let raised = global_sum[channel].wrapping_add(tile_average_channel as u128);
                global_sum[channel] = raised;
                channel += 1;
            }
            proof {
                assert forall|i: int| 0 <= i < tile_average.len() implies #[trigger] tile_average[i]
                    == if first <= i / (channels as int) < first + tile_x + 1 {
                    expected[i]
                } else {
                    old(tile_average)[i]
                } by {
                    vstd::arithmetic::div_mod::lemma_fundamental_div_mod(i, channels as int);
                    vstd::arithmetic::div_mod::lemma_mod_bound(i, channels as int);
                    let tile = i / (channels as int);
                    assert(channels * tile == tile * channels) by (nonlinear_arith);
                    assert((tile == first + tile_x) == (tile_index <= i < tile_index + channels))
                        by (nonlinear_arith)
                        requires
                            i == tile * channels + i % (channels as int),
                            0 <= i % (channels as int) < channels,
                            tile_index == (first + tile_x) * channels,
                    ;
                }
            }
        }
        tile_x += 1;
    }
    proof {
        assert forall|i: int| 0 <= i < tile_average.len() implies tile_average[i] == row_averaged(
            factory,
            tile_sum@,
            ty,
            old(tile_average)@,
        )[i] by {
            lemma_index_coordinates(i, factory.tiles_y as int, tiles_x as int, channels as int);
            let tile = i / (channels as int);
            vstd::arithmetic::div_mod::lemma_fundamental_div_mod(tile, tiles_x as int);
            vstd::arithmetic::div_mod::lemma_mod_bound(tile, tiles_x as int);
            let row = tile / (tiles_x as int);
            assert(tiles_x * row == row * tiles_x) by (nonlinear_arith);
            assert((row == ty) == (ty * tiles_x <= tile < ty * tiles_x + tiles_x))
                by (nonlinear_arith)
                requires
                    tile == row * tiles_x + tile % (tiles_x as int),
                    0 <= tile % (tiles_x as int) < tiles_x,
            ;
        }
        assert(tile_average@ =~= row_averaged(factory, tile_sum@, ty, old(tile_average)@));
        assert((ty + 1) * tiles_x == first + tiles_x) by (nonlinear_arith)
            requires
                first == ty * tiles_x,
        ;
        assert(global_sum@ =~= row_totalled(factory, tile_sum@, ty, old(global_sum)@));
    }
}

impl MosaicBuilder for SlowParallelMosaic {
    fn sum_tile_channels(&self, mosaic_factory: &MosaicFactory) -> (tile_sum: Vec<u32>) {
        let size = mosaic_factory.tile_buffer_size();
        let start: Vec<u32> = vec![0; size];
        let tile_sum = locked_add_rows(mosaic_factory, start);
        proof {
            let count = mosaic_factory.tiles_y;
            let (order, states) = choose|order: Seq<u32>, states: Seq<Seq<u32>>|
                rows_added_in_turn(mosaic_factory, start@, order, states, tile_sum@);
            let row_of = |index: int| tile_row_of_entry(mosaic_factory, index);
            let apply = |index: int, before: u32|
                u32_specs::wrapping_add(before, mosaic_factory.entry_sum(index) as u32);
            assert forall|k: int| 0 <= k < count implies #[trigger] step_keeps_len(states, k) by {
                let row = order[k];
            }
            assert forall|k: int| 0 <= k <= count implies (#[trigger] states[k]).len() == size by {
                lemma_len_through_run(states, count as int, k);
            }
            assert forall|i: int| 0 <= i < tile_sum.len() implies tile_sum[i]
                == mosaic_factory.tile_sums()[i] by {
                lemma_index_coordinates(
                    i,
                    mosaic_factory.tiles_y as int,
                    mosaic_factory.tiles_x as int,
                    mosaic_factory.image_data.channels as int,
                );
                lemma_entry_sum_fits(mosaic_factory, i);
                assert forall|k: int| 0 <= k < count implies #[trigger] step_keeps_rows(
                    order,
                    states,
                    row_of,
                    apply,
                    k,
                    i,
                ) by {
                    let row = order[k];
                    assert(states[k].len() == size);
                    assert(states[k + 1] == row_added(mosaic_factory, row as int, states[k]));
                }
                lemma_rows_written(order, count, states, row_of, apply, i);
                assert(states[0][i] == 0);
            }
            assert(tile_sum@ =~= mosaic_factory.tile_sums());
        }
        tile_sum
    }

    fn calc_tile_average(&self, mosaic_factory: &MosaicFactory, tile_sum: &[u32]) -> (averages: (
        Vec<u8>,
        Vec<u8>,
    )) {
        let channels = mosaic_factory.image_data.channels as usize;
        let size = mosaic_factory.tile_buffer_size();
        let ghost expected = mosaic_factory.tile_averages(tile_sum@);
        let first_averages: Vec<u8> = vec![0; size];
        let first_totals: Vec<u128> = vec![0; channels];
        let (tile_average, global_sum) = locked_average_rows(
            mosaic_factory,
            tile_sum,
            first_averages,
            first_totals,
        );
        proof {
            let count = mosaic_factory.tiles_y;
            let (order, states) = choose|order: Seq<u32>, states: Seq<(Seq<u8>, Seq<u128>)>|
                rows_averaged_in_turn(
                    mosaic_factory,
                    tile_sum@,
                    (first_averages@, first_totals@),
                    order,
                    states,
                    (tile_average@, global_sum@),
                );
            let views = Seq::new(states.len(), |k: int| states[k].0);
            let sums = Seq::new(states.len(), |k: int| states[k].1);
            assert forall|k: int| 0 <= k < count implies #[trigger] step_keeps_len(views, k) by {
                let row = order[k];
            }
            assert forall|k: int| 0 <= k < count implies #[trigger] step_keeps_len(sums, k) by {
                let row = order[k];
            }
            assert forall|k: int| 0 <= k <= count implies (#[trigger] states[k]).0.len() == size
                && states[k].1.len() == channels by {
                lemma_len_through_run(views, count as int, k);
                lemma_len_through_run(sums, count as int, k);
            }
            // The averages: every row writes its own entries.
            let row_of = |index: int| tile_row_of_entry(mosaic_factory, index);
            let apply = |index: int, before: u8| expected[index];
            assert forall|i: int| 0 <= i < tile_average.len() implies tile_average[i]
                == expected[i] by {
                lemma_index_coordinates(
                    i,
                    mosaic_factory.tiles_y as int,
                    mosaic_factory.tiles_x as int,
                    channels as int,
                );
                assert forall|k: int| 0 <= k < count implies #[trigger] step_keeps_rows(
                    order,
                    views,
                    row_of,
                    apply,
                    k,
                    i,
                ) by {
                    let row = order[k];
                    assert(states[k].0.len() == size);
                    assert(views[k + 1] == row_averaged(
                        mosaic_factory,
                        tile_sum@,
                        row as int,
                        views[k],
                    ));
                }
                lemma_rows_written(order, count, views, row_of, apply, i);
            }
            assert(tile_average@ =~= expected);
            // The totals: every row adds its share, and the order does not matter.
            assert forall|c: int| 0 <= c < channels implies #[trigger] global_sum[c]
                == mosaic_factory.channel_total(expected, c, mosaic_factory.tile_count()) by {
                let totals = Seq::new(states.len(), |k: int| states[k].1[c]);
                let share = |row: int| row_total(mosaic_factory, expected, row, c);
                assert forall|k: int| 0 <= k < count implies #[trigger] total_step(
                    totals,
                    order,
                    share,
                    k,
                ) by {
                    let row = order[k];
                    assert(states[k].1.len() == channels);
                    assert(states[k + 1].1 == row_totalled(
                        mosaic_factory,
                        tile_sum@,
                        row as int,
                        states[k].1,
                    ));
                }
                lemma_totals_through_run(
                    mosaic_factory,
                    expected,
                    c,
                    order,
                    totals,
                    share,
                    count as int,
                );
                lemma_sum_any_order(share, order, count);
                lemma_shares_telescope(mosaic_factory, expected, c, share, count as int);
                assert(count * mosaic_factory.tiles_x == mosaic_factory.tile_count())
                    by (nonlinear_arith)
                    requires
                        count == mosaic_factory.tiles_y,
                        mosaic_factory.tile_count() == mosaic_factory.tiles_x
                            * mosaic_factory.tiles_y,
                ;
            }
        }
        let totals = global_sum.as_slice();
        proof {
            assert forall|c: int| 0 <= c < totals.len() implies #[trigger] totals@[c] <= 255
                * mosaic_factory.tile_count() by {
                assert(totals@[c] == global_sum[c]);
                lemma_channel_total_bound(mosaic_factory, expected, c, mosaic_factory.tile_count());
                assert(0 <= mosaic_factory.tile_count()) by (nonlinear_arith)
                    requires
                        mosaic_factory.tile_count() == mosaic_factory.tiles_x
                            * mosaic_factory.tiles_y,
                ;
            }
        }
        let global_average = mosaic_factory.means_of_totals(totals);
        proof {
            assert(global_average@ =~= mosaic_factory.global_average(expected));
        }
        (tile_average, global_average)
    }

    fn create_mosaic(&self, mosaic_factory: &MosaicFactory, tile_average: &[u8]) -> (mosaic: Vec<
        u8,
    >) {
        let size = mosaic_factory.image_data.data.len();
        let start: Vec<u8> = vec![0; size];
        let mosaic = locked_scatter_rows(mosaic_factory, tile_average, start);
        proof {
            let count = mosaic_factory.tiles_y;
            let (order, states) = choose|order: Seq<u32>, states: Seq<Seq<u8>>|
                rows_scattered_in_turn(
                    mosaic_factory,
                    tile_average@,
                    start@,
                    order,
                    states,
                    mosaic@,
                );
            let row_of = |index: int| tile_row_of_byte(mosaic_factory, index);
            let apply = |index: int, before: u8| tile_average@[mosaic_factory.owner_entry(index)];
            assert forall|k: int| 0 <= k < count implies #[trigger] step_keeps_len(states, k) by {
                let row = order[k];
            }
            assert forall|k: int| 0 <= k <= count implies (#[trigger] states[k]).len() == size by {
                lemma_len_through_run(states, count as int, k);
            }
            assert forall|i: int| 0 <= i < mosaic.len() implies mosaic[i] == mosaic_factory.mosaic(
                tile_average@,
            )[i] by {
                lemma_pixel_done_edges(mosaic_factory, i, 0, 0, 0);
                assert forall|k: int| 0 <= k < count implies #[trigger] step_keeps_rows(
                    order,
                    states,
                    row_of,
                    apply,
                    k,
                    i,
                ) by {
                    let row = order[k];
                    assert(states[k].len() == size);
                    assert(states[k + 1] == row_scattered(
                        mosaic_factory,
                        tile_average@,
                        row as int,
                        states[k],
                    ));
                }
                lemma_rows_written(order, count, states, row_of, apply, i);
            }
            assert(mosaic@ =~= mosaic_factory.mosaic(tile_average@));
        }
        mosaic
    }
}

} // verus!
