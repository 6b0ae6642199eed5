use mosaic::error::MosaicError;
use mosaic::image_data::{floor_to_multiple, ColorFormat, ImageData};

fn counting_bytes(count: usize) -> Vec<u8> {
    (0..count).map(|i| (i % 251) as u8).collect()
}

#[test]
fn zero_tile_side_is_refused_before_anything_else() {
    let result = ImageData::new(2, 2, ColorFormat::L8, vec![1, 2, 3, 4], 0);
    assert_eq!(result, Err(MosaicError::InvalidTileSize));
    // Even a buffer of the wrong length is not looked at first.
    let result = ImageData::new(2, 2, ColorFormat::L8, vec![1, 2, 3], 0);
    assert_eq!(result, Err(MosaicError::InvalidTileSize));
}

#[test]
fn buffer_of_wrong_length_is_a_decode_failure() {
    let result = ImageData::new(2, 2, ColorFormat::Rgb8, vec![0; 11], 1);
    assert_eq!(result, Err(MosaicError::DecodeFailure));
    let result = ImageData::new(2, 2, ColorFormat::Rgb8, vec![0; 13], 1);
    assert_eq!(result, Err(MosaicError::DecodeFailure));
}

#[test]
fn sixteen_bit_samples_are_a_decode_failure() {
    // Two bytes per channel: twice as many bytes as channels.
    let result = ImageData::new(2, 2, ColorFormat::Rgb16, vec![0; 24], 1);
    assert_eq!(result, Err(MosaicError::DecodeFailure));
}

#[test]
fn aligned_image_is_kept_whole() {
    let data = counting_bytes(4 * 4 * 3);
    let image = ImageData::new(4, 4, ColorFormat::Rgb8, data.clone(), 2).unwrap();
    assert_eq!(image.width, 4);
    assert_eq!(image.height, 4);
    assert_eq!(image.channels, 3);
    assert_eq!(image.color, ColorFormat::Rgb8);
    assert_eq!(image.data, data);
}

#[test]
fn crop_leaves_whole_tiles() {
    for (width, height, tile) in [(5u32, 7u32, 2u32), (8, 8, 3), (10, 3, 4), (1, 1, 1), (9, 9, 9)] {
        let data = counting_bytes((width * height) as usize);
        let image = ImageData::new(width, height, ColorFormat::L8, data, tile).unwrap();
        assert_eq!(image.width % tile, 0);
        assert_eq!(image.height % tile, 0);
        assert_eq!(image.width, (width / tile) * tile);
        assert_eq!(image.height, (height / tile) * tile);
        assert_eq!(image.data.len() as u32, image.width * image.height);
    }
}

#[test]
fn crop_splits_the_margin_evenly() {
    // 8 x 8 with tiles of 3: 6 x 6 are kept, one column and one row go on each side.
    let data = counting_bytes(8 * 8 * 2);
    let image = ImageData::new(8, 8, ColorFormat::La8, data.clone(), 3).unwrap();
    assert_eq!((image.width, image.height, image.channels), (6, 6, 2));
    for y in 0..6usize {
        for x in 0..6usize {
            for channel in 0..2usize {
                let kept = image.data[(y * 6 + x) * 2 + channel];
                let source = data[((y + 1) * 8 + (x + 1)) * 2 + channel];
                assert_eq!(kept, source);
            }
        }
    }
}

#[test]
fn crop_puts_the_odd_column_on_the_far_side() {
    // 5 wide with tiles of 2: 4 are kept, the margin is (5 - 4) / 2 = 0,
    // so the last column is the one that goes.
    let data = counting_bytes(5 * 2);
    let image = ImageData::new(5, 2, ColorFormat::L8, data, 2).unwrap();
    assert_eq!(image.data, vec![0, 1, 2, 3, 5, 6, 7, 8]);
}

#[test]
fn tile_wider_than_the_image_leaves_no_pixel() {
    let image = ImageData::new(4, 4, ColorFormat::Rgba8, vec![7; 64], 5).unwrap();
    assert_eq!((image.width, image.height), (0, 0));
    assert!(image.data.is_empty());
    let image = ImageData::new(4, 8, ColorFormat::L8, vec![7; 32], 5).unwrap();
    assert_eq!((image.width, image.height), (0, 5));
    assert!(image.data.is_empty());
}

#[test]
fn crop_image_of_a_struct_built_by_hand() {
    let image = ImageData {
        width: 3,
        height: 3,
        channels: 1,
        data: vec![1, 2, 3, 4, 5, 6, 7, 8, 9],
        color: ColorFormat::L8,
    };
    let cropped = image.crop_image(2);
    assert_eq!(cropped.data, vec![1, 2, 4, 5]);
    assert_eq!(cropped.color, ColorFormat::L8);
}

#[test]
fn floor_to_multiple_values() {
    assert_eq!(floor_to_multiple(0, 3), 0);
    assert_eq!(floor_to_multiple(2, 3), 0);
    assert_eq!(floor_to_multiple(3, 3), 3);
    assert_eq!(floor_to_multiple(100, 32), 96);
    assert_eq!(floor_to_multiple(u32::MAX, 1), u32::MAX);
    assert_eq!(floor_to_multiple(u32::MAX, u32::MAX), u32::MAX);
    assert_eq!(floor_to_multiple(u32::MAX, 2), u32::MAX - 1);
}

#[test]
fn channel_counts_of_the_formats() {
    assert_eq!(ColorFormat::L8.channel_count(), 1);
    assert_eq!(ColorFormat::La8.channel_count(), 2);
    assert_eq!(ColorFormat::Rgb8.channel_count(), 3);
    assert_eq!(ColorFormat::Rgba8.channel_count(), 4);
    assert_eq!(ColorFormat::L16.channel_count(), 1);
    assert_eq!(ColorFormat::La16.channel_count(), 2);
    assert_eq!(ColorFormat::Rgb16.channel_count(), 3);
    assert_eq!(ColorFormat::Rgba16.channel_count(), 4);
    assert_eq!(ColorFormat::Rgb32F.channel_count(), 3);
    assert_eq!(ColorFormat::Rgba32F.channel_count(), 4);
}

#[test]
fn pixel_channel_is_read_where_it_exists() {
    let image = ImageData::new(3, 2, ColorFormat::Rgb8, counting_bytes(18), 1).unwrap();
    assert_eq!(image.get_pixel_channel(0, 0, 0), Some(&0));
    assert_eq!(image.get_pixel_channel(2, 0, 1), Some(&7));
    assert_eq!(image.get_pixel_channel(1, 1, 2), Some(&14));
    assert_eq!(image.get_pixel_channel(2, 1, 2), Some(&17));
    assert_eq!(image.get_pixel_channel(3, 0, 0), None);
    assert_eq!(image.get_pixel_channel(0, 2, 0), None);
    assert_eq!(image.get_pixel_channel(0, 0, 3), None);
}

#[test]
fn pixel_channel_is_written_where_it_exists() {
    let mut image = ImageData::new(3, 2, ColorFormat::Rgb8, counting_bytes(18), 1).unwrap();
    *image.get_pixel_channel_mut(1, 1, 2).unwrap() = 200;
    let mut expected = counting_bytes(18);
    expected[14] = 200;
    assert_eq!(image.data, expected);
    assert!(image.get_pixel_channel_mut(3, 0, 0).is_none());
    assert!(image.get_pixel_channel_mut(0, 2, 0).is_none());
    assert!(image.get_pixel_channel_mut(0, 0, 3).is_none());
    assert_eq!(image.data, expected);
}
