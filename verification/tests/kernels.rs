use mosaic::image_data::{ColorFormat, ImageData};
use mosaic::mosaic_factory::MosaicFactory;
use mosaic::parallel_mosaic::{
    channel_total_of, channel_totals_in_parallel, tile_averages_in_parallel, tile_channel_sum,
    tile_row_segment,
};
use mosaic::serial_mosaic::{add_tile, copy_bytes, scatter_tile_row};
use mosaic::slow_parallel_mosaic::{add_tile_row, average_tile_row};

/// 4 x 4 pixels of two channels in tiles of 2 x 2: channel 0 counts the
/// pixels from 0, channel 1 from 100.
fn two_channel_engine() -> MosaicFactory {
    let mut data = Vec::new();
    for pixel in 0..16u8 {
        data.push(pixel);
        data.push(100 + pixel);
    }
    let image = ImageData::new(4, 4, ColorFormat::La8, data, 2).unwrap();
    MosaicFactory::new(image, 2).unwrap()
}

// Pixels of the tiles: (0,0) 0 1 4 5, (1,0) 2 3 6 7, (0,1) 8 9 12 13, (1,1) 10 11 14 15.
const SUMS: [u32; 8] = [10, 410, 18, 418, 42, 442, 50, 450];
const AVERAGES: [u8; 8] = [2, 102, 4, 104, 10, 110, 12, 112];

#[test]
fn sum_of_one_tile_and_channel() {
    let factory = two_channel_engine();
    for (index, sum) in SUMS.iter().enumerate() {
        assert_eq!(tile_channel_sum(&factory, index), *sum);
    }
}

#[test]
fn row_of_sums_is_added_to_what_is_there() {
    let factory = two_channel_engine();
    let mut sums = vec![0; 8];
    add_tile_row(&factory, 1, &mut sums);
    assert_eq!(sums, vec![0, 0, 0, 0, 42, 442, 50, 450]);
    add_tile_row(&factory, 0, &mut sums);
    assert_eq!(sums, SUMS.to_vec());
    add_tile_row(&factory, 0, &mut sums);
    assert_eq!(sums, vec![20, 820, 36, 836, 42, 442, 50, 450]);
}

#[test]
fn row_of_sums_wraps() {
    let factory = two_channel_engine();
    let mut sums = vec![u32::MAX, u32::MAX - 410, 7, 0, 1, 2, 3, 4];
    add_tile_row(&factory, 0, &mut sums);
    assert_eq!(sums, vec![9, u32::MAX, 25, 418, 1, 2, 3, 4]);
}

#[test]
fn one_tile_is_added_to_what_is_there() {
    let factory = two_channel_engine();
    let mut sums = vec![1, 2, 3, 4, 5, 6, 7, 8];
    add_tile(&factory, 1, 0, &mut sums);
    assert_eq!(sums, vec![1, 2, 21, 422, 5, 6, 7, 8]);
    add_tile(&factory, 0, 1, &mut sums);
    assert_eq!(sums, vec![1, 2, 21, 422, 47, 448, 7, 8]);
}

#[test]
fn averages_one_by_one_task() {
    let factory = two_channel_engine();
    assert_eq!(tile_averages_in_parallel(&factory, &SUMS), AVERAGES.to_vec());
    assert_eq!(tile_averages_in_parallel(&factory, &[]), Vec::<u8>::new());
    assert_eq!(tile_averages_in_parallel(&factory, &[7, 8, 1024]), vec![1, 2, 0]);
}

#[test]
fn totals_of_the_channels() {
    let factory = two_channel_engine();
    assert_eq!(channel_total_of(&factory, &SUMS, 0), 28);
    assert_eq!(channel_total_of(&factory, &SUMS, 1), 428);
    assert_eq!(channel_totals_in_parallel(&factory, &SUMS), vec![28, 428]);
}

#[test]
fn row_of_averages_is_written_and_added() {
    let factory = two_channel_engine();
    let mut averages = vec![9; 8];
    let mut totals = vec![1000, u128::MAX];
    average_tile_row(&factory, &SUMS, 1, &mut averages, &mut totals);
    assert_eq!(averages, vec![9, 9, 9, 9, 10, 110, 12, 112]);
    assert_eq!(totals, vec![1022, 221]);
    average_tile_row(&factory, &SUMS, 0, &mut averages, &mut totals);
    assert_eq!(averages, AVERAGES.to_vec());
    assert_eq!(totals, vec![1028, 427]);
}

#[test]
fn row_of_tiles_is_scattered() {
    let factory = two_channel_engine();
    let mut mosaic = vec![0; 32];
    scatter_tile_row(&factory, &AVERAGES, 1, &mut mosaic);
    let mut expected = vec![0u8; 16];
    for _ in 0..2 {
        expected.extend_from_slice(&[10, 110, 10, 110, 12, 112, 12, 112]);
    }
    assert_eq!(mosaic, expected);
    scatter_tile_row(&factory, &AVERAGES, 0, &mut mosaic);
    let mut expected = Vec::new();
    for _ in 0..2 {
        expected.extend_from_slice(&[2, 102, 2, 102, 4, 104, 4, 104]);
    }
    for _ in 0..2 {
        expected.extend_from_slice(&[10, 110, 10, 110, 12, 112, 12, 112]);
    }
    assert_eq!(mosaic, expected);
}

#[test]
fn means_of_the_totals() {
    let factory = two_channel_engine();
    // Four tiles: 28 / 4 and 428 / 4.
    assert_eq!(factory.means_of_totals(&[28, 428]), vec![7, 107]);
    assert_eq!(factory.means_of_totals(&[0, 3, 4, 1020]), vec![0, 0, 1, 255]);
    assert_eq!(factory.means_of_totals(&[]), Vec::<u8>::new());
}

#[test]
fn segment_of_a_row_of_pixels() {
    let factory = two_channel_engine();
    // Eight segments: two for each of the four rows of pixels.
    let expected: [[u8; 2]; 8] =
        [[2, 102], [4, 104], [2, 102], [4, 104], [10, 110], [12, 112], [10, 110], [12, 112]];
    for (index, pixel) in expected.iter().enumerate() {
        let segment = tile_row_segment(&factory, &AVERAGES, index);
        assert_eq!(segment, vec![pixel[0], pixel[1], pixel[0], pixel[1]]);
    }
}

#[test]
fn bytes_are_copied_into_place() {
    let mut target = vec![0u8; 6];
    copy_bytes(&[1, 2, 3, 4, 5], 1, &mut target, 2, 3);
    assert_eq!(target, vec![0, 0, 2, 3, 4, 0]);
    copy_bytes(&[9], 0, &mut target, 5, 1);
    assert_eq!(target, vec![0, 0, 2, 3, 4, 9]);
    copy_bytes(&[], 0, &mut target, 6, 0);
    assert_eq!(target, vec![0, 0, 2, 3, 4, 9]);
}

#[test]
fn average_of_a_sum() {
    let factory = two_channel_engine();
    assert_eq!(factory.average(0), 0);
    assert_eq!(factory.average(3), 0);
    assert_eq!(factory.average(4), 1);
    assert_eq!(factory.average(1020), 255);
    assert_eq!(factory.average(1023), 255);
    assert_eq!(factory.average(1024), 0);
    assert_eq!(factory.average(u32::MAX), 255);
}
