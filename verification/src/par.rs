use rayon::iter::{
    IndexedParallelIterator, IntoParallelIterator, IntoParallelRefMutIterator, ParallelIterator,
};
use crate::mosaic_factory::MosaicFactory;
use crate::serial_mosaic::scatter_tile_row;
use crate::slow_parallel_mosaic::{
    add_tile_row, average_tile_row, row_added, row_averaged, row_totalled,
};
use crate::tiling::row_scattered;
use rayon::slice::ParallelSliceMut;
use std::sync::Mutex;
use vstd::prelude::*;

verus! {

/// `rayon::join` runs both closures, possibly at the same time, and returns
/// the pair of what they returned. Assumed: it calls each closure once, so
/// each half of the pair is a result of the closure on its side.
pub assume_specification<A, B, RA, RB>[ rayon::join::<A, B, RA, RB> ](oper_a: A, oper_b: B) -> (results:
    (RA, RB)) where A: FnOnce() -> RA + Send, B: FnOnce() -> RB + Send, RA: Send, RB: Send
    requires
        call_requires(oper_a, ()),
        call_requires(oper_b, ()),
    ensures
        call_ensures(oper_a, (), results.0),
        call_ensures(oper_b, (), results.1),
;

/// Overwrites every element of `values` with what `produce` returns for the
/// element's index, one task per element, through rayon's
/// `par_iter_mut().enumerate().for_each(..)`. Assumed: rayon hands each
/// element to the closure exactly once, together with its index, and
/// returns when all have run.
#[verifier::external_body]
pub(crate) fn par_fill<T: Send, F: Fn(usize) -> T + Sync + Send>(values: &mut Vec<T>, produce: F)
    requires
        forall|index: usize| index < old(values).len() ==> call_requires(produce, (index,)),
    ensures
        final(values).len() == old(values).len(),
        forall|index: int|
            0 <= index < final(values).len() ==> call_ensures(
                produce,
                (index as usize,),
                #[trigger] final(values)[index],
            ),
{
    values.par_iter_mut().enumerate().for_each(|(index, slot)| *slot = produce(index));
}

/// The chunk `index` of `bytes` cut into consecutive chunks of `chunk_len`.
pub open spec fn chunk_at(bytes: Seq<u8>, chunk_len: int, index: int) -> Seq<u8> {
    bytes.subrange(index * chunk_len, (index + 1) * chunk_len)
}

/// Overwrites each chunk of `chunk_len` bytes of `bytes` with what `produce`
/// returns for the chunk's index, one task per chunk, through rayon's
/// `par_chunks_mut(chunk_len).enumerate().for_each(..)`. Assumed: the chunks
/// are the consecutive, non-overlapping parts of `chunk_len` bytes, in
/// order, and rayon hands each to the closure exactly once, together with
/// its index. A zero `chunk_len` makes rayon panic, and a result of another
/// length makes the copy panic: both are excluded.
#[verifier::external_body]
pub(crate) fn par_fill_chunks<F: Fn(usize) -> Vec<u8> + Sync + Send>(
    bytes: &mut Vec<u8>,
    chunk_len: usize,
    produce: F,
)
    requires
        chunk_len > 0,
        old(bytes).len() as int % chunk_len as int == 0,
        forall|index: usize|
            index < old(bytes).len() as int / chunk_len as int ==> call_requires(produce, (index,)),
        forall|index: usize, chunk: Vec<u8>|
            index < old(bytes).len() as int / chunk_len as int && call_ensures(produce, (index,), chunk)
                ==> chunk.len() == chunk_len,
    ensures
        final(bytes).len() == old(bytes).len(),
        forall|index: int|
            #![trigger chunk_at(final(bytes)@, chunk_len as int, index)]
            0 <= index < final(bytes).len() as int / chunk_len as int ==> exists|chunk: Vec<u8>|
                #![trigger call_ensures(produce, (index as usize,), chunk)]
                call_ensures(produce, (index as usize,), chunk) && chunk@ == chunk_at(
                    final(bytes)@,
                    chunk_len as int,
                    index,
                ),
{
    bytes.par_chunks_mut(chunk_len).enumerate().for_each(
        |(index, chunk)| chunk.copy_from_slice(&produce(index)),
    );
}

/// `order` lists every row in `0..count` exactly once.
pub open spec fn each_once(order: Seq<u32>, count: u32) -> bool {
    &&& order.len() == count
    &&& order.no_duplicates()
    &&& forall|k: int| 0 <= k < count ==> #[trigger] order[k] < count
    &&& forall|row: u32| row < count ==> order.contains(row)
}

/// The sums after each step of a run in which every row of tiles, in the
/// order `order`, had its sums added once: `states` begins with `start`,
/// ends with `end`, and each step is [`row_added`] of the row whose turn it
/// is.
pub open spec fn rows_added_in_turn(
    factory: &MosaicFactory,
    start: Seq<u32>,
    order: Seq<u32>,
    states: Seq<Seq<u32>>,
    end: Seq<u32>,
) -> bool {
    &&& each_once(order, factory.tiles_y)
    &&& states.len() == factory.tiles_y + 1
    &&& states[0] == start
    &&& states[factory.tiles_y as int] == end
    &&& forall|k: int|
        0 <= k < factory.tiles_y ==> states[k + 1] == row_added(
            factory,
            #[trigger] order[k] as int,
            states[k],
        )
}

/// Adds the sums of every row of tiles to `start`, one row after the
/// other in an order that is not known. rayon's
/// `(0..tiles_y).into_par_iter().for_each(..)` hands each row to a task,
/// and the task calls [`add_tile_row`] on the buffer while it holds the
/// one `std::sync::Mutex` that guards it. Assumed: rayon runs the task
/// once for each row and returns when all have run, and the lock lets one
/// task at a time touch the buffer.
#[verifier::external_body]
pub(crate) fn locked_add_rows(factory: &MosaicFactory, start: Vec<u32>) -> (end: Vec<u32>)
    requires
        factory.wf(),
        start.len() == factory.tile_buffer_len(),
    ensures
        exists|order: Seq<u32>, states: Seq<Seq<u32>>|
            rows_added_in_turn(factory, start@, order, states, end@),
{
    let guarded = Mutex::new(start);
    (0..factory.tiles_y).into_par_iter().for_each(
        |tile_y| add_tile_row(factory, tile_y, &mut guarded.lock().unwrap()),
    );
    guarded.into_inner().unwrap()
}

/// The averages and the totals per channel after each step of a run in
/// which every row of tiles, in the order `order`, was averaged once:
/// `states` begins with `start`, ends with `end`, and each step is
/// [`row_averaged`] and [`row_totalled`] of the row whose turn it is.
pub open spec fn rows_averaged_in_turn(
    factory: &MosaicFactory,
    sums: Seq<u32>,
    start: (Seq<u8>, Seq<u128>),
    order: Seq<u32>,
    states: Seq<(Seq<u8>, Seq<u128>)>,
    end: (Seq<u8>, Seq<u128>),
) -> bool {
    &&& each_once(order, factory.tiles_y)
    &&& states.len() == factory.tiles_y + 1
    &&& states[0] == start
    &&& states[factory.tiles_y as int] == end
    &&& forall|k: int|
        0 <= k < factory.tiles_y ==> states[k + 1] == (
            row_averaged(factory, sums, #[trigger] order[k] as int, states[k].0),
            row_totalled(factory, sums, order[k] as int, states[k].1),
        )
}

/// Writes the averages of every row of tiles into `tile_average` and adds
/// them to `global_sum`, one row after the other in an order that is not
/// known. rayon's `(0..tiles_y).into_par_iter().for_each(..)` hands each
/// row to a task, and the task calls [`average_tile_row`] on the two
/// buffers while it holds the one `std::sync::Mutex` that guards them.
/// Assumed: rayon runs the task once for each row and returns when all
/// have run, and the lock lets one task at a time touch the buffers.
#[verifier::external_body]
pub(crate) fn locked_average_rows(
    factory: &MosaicFactory,
    tile_sum: &[u32],
    tile_average: Vec<u8>,
    global_sum: Vec<u128>,
) -> (end: (Vec<u8>, Vec<u128>))
    requires
        factory.wf(),
        tile_sum.len() == factory.tile_buffer_len(),
        tile_average.len() == factory.tile_buffer_len(),
        global_sum.len() == factory.image_data.channels,
    ensures
        exists|order: Seq<u32>, states: Seq<(Seq<u8>, Seq<u128>)>|
            rows_averaged_in_turn(
                factory,
                tile_sum@,
                (tile_average@, global_sum@),
                order,
                states,
                (end.0@, end.1@),
            ),
{
    let guarded = Mutex::new((tile_average, global_sum));
    (0..factory.tiles_y).into_par_iter().for_each(
        |tile_y| {
            let mut state = guarded.lock().unwrap();
            let (tile_average, global_sum) = &mut *state;
            average_tile_row(factory, tile_sum, tile_y, tile_average, global_sum)
        },
    );
    guarded.into_inner().unwrap()
}

/// The mosaic after each step of a run in which every row of tiles, in
/// the order `order`, was scattered once: `states` begins with `start`,
/// ends with `end`, and each step is [`row_scattered`] of the row whose
/// turn it is.
pub open spec fn rows_scattered_in_turn(
    factory: &MosaicFactory,
    averages: Seq<u8>,
    start: Seq<u8>,
    order: Seq<u32>,
    states: Seq<Seq<u8>>,
    end: Seq<u8>,
) -> bool {
    &&& each_once(order, factory.tiles_y)
    &&& states.len() == factory.tiles_y + 1
    &&& states[0] == start
    &&& states[factory.tiles_y as int] == end
    &&& forall|k: int|
        0 <= k < factory.tiles_y ==> states[k + 1] == row_scattered(
            factory,
            averages,
            #[trigger] order[k] as int,
            states[k],
        )
}

/// Gives the pixels of every row of tiles the averages of their tiles, one
/// row after the other in an order that is not known. rayon's
/// `(0..tiles_y).into_par_iter().for_each(..)` hands each row to a task,
/// and the task calls [`scatter_tile_row`] on the mosaic while it holds
/// the one `std::sync::Mutex` that guards it. Assumed: rayon runs the task
/// once for each row and returns when all have run, and the lock lets one
/// task at a time touch the mosaic.
#[verifier::external_body]
pub(crate) fn locked_scatter_rows(
    factory: &MosaicFactory,
    tile_average: &[u8],
    start: Vec<u8>,
) -> (end: Vec<u8>)
    requires
        factory.wf(),
        tile_average.len() == factory.tile_buffer_len(),
        start.len() == factory.image_data.data.len(),
    ensures
        exists|order: Seq<u32>, states: Seq<Seq<u8>>|
            rows_scattered_in_turn(factory, tile_average@, start@, order, states, end@),
{
    let guarded = Mutex::new(start);
    (0..factory.tiles_y).into_par_iter().for_each(
        |tile_y| scatter_tile_row(factory, tile_average, tile_y, &mut guarded.lock().unwrap()),
    );
    guarded.into_inner().unwrap()
}

} // verus!
