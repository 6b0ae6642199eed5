use mosaic::error::MosaicError;
use mosaic::image_data::{ColorFormat, ImageData};
use mosaic::diff::calc_diff;
use mosaic::mosaic_factory::{
    add_stage_times, compare_stages, mean_stage_times, MosaicBuilder, MosaicFactory, StageResults,
};
use mosaic::parallel_mosaic::ParallelMosaic;
use mosaic::serial_mosaic::SerialMosaic;
use mosaic::slow_parallel_mosaic::SlowParallelMosaic;

fn strategies() -> Vec<Box<dyn MosaicBuilder>> {
    vec![Box::new(SerialMosaic), Box::new(ParallelMosaic), Box::new(SlowParallelMosaic)]
}

fn engine(width: u32, height: u32, color: ColorFormat, data: Vec<u8>, tile: u32) -> MosaicFactory {
    let image = ImageData::new(width, height, color, data, tile).unwrap();
    assert!(MosaicFactory::supports_tile_side(tile));
    MosaicFactory::new(image, tile).unwrap()
}

/// Bytes that look random and are the same on every run.
fn scrambled_bytes(count: usize, seed: u32) -> Vec<u8> {
    let mut state = seed;
    (0..count)
        .map(|_| {
            state = state.wrapping_mul(1_664_525).wrapping_add(1_013_904_223);
            (state >> 24) as u8
        })
        .collect()
}

/// The three stages written out in the plainest way, pixel by pixel.
fn plain_pipeline(factory: &MosaicFactory) -> (Vec<u32>, Vec<u8>, Vec<u8>, Vec<u8>) {
    let image = &factory.image_data;
    let (width, height) = (image.width as usize, image.height as usize);
    let channels = image.channels as usize;
    let side = factory.tile_side_length as usize;
    let (tiles_x, tiles_y) = (width / side, height / side);
    let mut sums = vec![0u32; tiles_x * tiles_y * channels];
    for y in 0..height {
        for x in 0..width {
            for c in 0..channels {
                let tile = (y / side) * tiles_x + x / side;
                sums[tile * channels + c] += image.data[(y * width + x) * channels + c] as u32;
            }
        }
    }
    let averages: Vec<u8> = sums.iter().map(|sum| (sum / (side * side) as u32) as u8).collect();
    let mut global = vec![0u8; channels];
    if tiles_x * tiles_y > 0 {
        for c in 0..channels {
            let total: u64 = (0..tiles_x * tiles_y).map(|t| averages[t * channels + c] as u64).sum();
            global[c] = (total / (tiles_x * tiles_y) as u64) as u8;
        }
    }
    let mut mosaic = vec![0u8; width * height * channels];
    for y in 0..height {
        for x in 0..width {
            for c in 0..channels {
                let tile = (y / side) * tiles_x + x / side;
                mosaic[(y * width + x) * channels + c] = averages[tile * channels + c];
            }
        }
    }
    (sums, averages, global, mosaic)
}

#[test]
fn four_by_four_scenario() {
    let data = vec![10, 10, 20, 20, 10, 10, 20, 20, 30, 30, 40, 40, 30, 30, 40, 40];
    let factory = engine(4, 4, ColorFormat::L8, data.clone(), 2);
    assert_eq!((factory.tiles_x, factory.tiles_y, factory.tile_pixels), (2, 2, 4));
    for strategy in strategies() {
        let sums = strategy.sum_tile_channels(&factory);
        assert_eq!(sums, vec![40, 80, 120, 160]);
        let (averages, global) = strategy.calc_tile_average(&factory, &sums);
        assert_eq!(averages, vec![10, 20, 30, 40]);
        assert_eq!(global, vec![25]);
        let mosaic = strategy.create_mosaic(&factory, &averages);
        assert_eq!(mosaic, data);
        assert_eq!(factory.generate_mosaic(strategy.as_ref()), data);
    }
}

#[test]
fn averages_round_down() {
    // One tile: 1 + 2 + 2 + 2 = 7, and 7 / 4 is 1, not 2.
    let factory = engine(2, 2, ColorFormat::L8, vec![1, 2, 2, 2], 2);
    for strategy in strategies() {
        let sums = strategy.sum_tile_channels(&factory);
        assert_eq!(sums, vec![7]);
        let (averages, global) = strategy.calc_tile_average(&factory, &sums);
        assert_eq!(averages, vec![1]);
        assert_eq!(global, vec![1]);
        assert_eq!(strategy.create_mosaic(&factory, &averages), vec![1, 1, 1, 1]);
    }
}

#[test]
fn global_average_is_the_mean_of_the_rounded_tile_averages() {
    // Two tiles of 2 x 2: sums 7 and 11, averages 1 and 2, global (1 + 2) / 2 = 1.
    // The mean of the pixels themselves would be 18 / 8 = 2.
    let data = vec![1, 2, 2, 3, 2, 2, 3, 3];
    let factory = engine(4, 2, ColorFormat::L8, data, 2);
    for strategy in strategies() {
        let sums = strategy.sum_tile_channels(&factory);
        assert_eq!(sums, vec![7, 11]);
        let (averages, global) = strategy.calc_tile_average(&factory, &sums);
        assert_eq!(averages, vec![1, 2]);
        assert_eq!(global, vec![1]);
    }
}

#[test]
fn channels_are_kept_apart() {
    // 2 x 2 pixels of RGB, one tile.
    let data = vec![10, 100, 200, 20, 110, 210, 30, 120, 220, 40, 130, 230];
    let factory = engine(2, 2, ColorFormat::Rgb8, data, 2);
    for strategy in strategies() {
        let sums = strategy.sum_tile_channels(&factory);
        assert_eq!(sums, vec![100, 460, 860]);
        let (averages, global) = strategy.calc_tile_average(&factory, &sums);
        assert_eq!(averages, vec![25, 115, 215]);
        assert_eq!(global, vec![25, 115, 215]);
        let mosaic = strategy.create_mosaic(&factory, &averages);
        assert_eq!(mosaic, vec![25, 115, 215, 25, 115, 215, 25, 115, 215, 25, 115, 215]);
    }
}

#[test]
fn brightest_tile_does_not_overflow() {
    let factory = engine(16, 16, ColorFormat::L8, vec![255; 256], 16);
    for strategy in strategies() {
        let sums = strategy.sum_tile_channels(&factory);
        assert_eq!(sums, vec![255 * 256]);
        let (averages, global) = strategy.calc_tile_average(&factory, &sums);
        assert_eq!(averages, vec![255]);
        assert_eq!(global, vec![255]);
    }
}

#[test]
fn strategies_match_the_plain_pipeline() {
    let cases = [
        (6u32, 4u32, ColorFormat::Rgb8, 2u32),
        (9, 6, ColorFormat::Rgba8, 3),
        (5, 5, ColorFormat::La8, 1),
        (8, 8, ColorFormat::L8, 4),
        (7, 10, ColorFormat::Rgb8, 3),
        (12, 4, ColorFormat::Rgba8, 4),
    ];
    for (case, (width, height, color, tile)) in cases.into_iter().enumerate() {
        let channels = color.channel_count() as usize;
        let data = scrambled_bytes((width * height) as usize * channels, case as u32 + 1);
        let factory = engine(width, height, color, data, tile);
        let (sums, averages, global, mosaic) = plain_pipeline(&factory);
        for strategy in strategies() {
            assert_eq!(strategy.sum_tile_channels(&factory), sums);
            assert_eq!(strategy.calc_tile_average(&factory, &sums), (averages.clone(), global.clone()));
            assert_eq!(strategy.create_mosaic(&factory, &averages), mosaic);
            assert_eq!(factory.generate_mosaic(strategy.as_ref()), mosaic);
            assert_eq!(mosaic.len(), factory.image_data.data.len());
        }
    }
}

#[test]
fn every_pixel_takes_the_average_of_its_tile() {
    let data = scrambled_bytes(6 * 6 * 3, 99);
    let factory = engine(6, 6, ColorFormat::Rgb8, data, 3);
    let sums = SerialMosaic.sum_tile_channels(&factory);
    let (averages, _) = SerialMosaic.calc_tile_average(&factory, &sums);
    for strategy in strategies() {
        let mosaic = factory.generate_mosaic(strategy.as_ref());
        assert_eq!(mosaic.len(), factory.image_data.data.len());
        for y in 0..6usize {
            for x in 0..6usize {
                let tile = (y / 3) * 2 + x / 3;
                assert_eq!(mosaic[(y * 6 + x) * 3..(y * 6 + x) * 3 + 3], averages[tile * 3..tile * 3 + 3]);
            }
        }
    }
}

#[test]
fn check_correctness_finds_nothing() {
    let data = scrambled_bytes(8 * 6 * 4, 5);
    let factory = engine(8, 6, ColorFormat::Rgba8, data, 2);
    for strategy in strategies() {
        assert_eq!(factory.check_correctness(strategy.as_ref()), (0, 0, 0, 0));
    }
}

#[test]
fn generate_mosaic_twice_gives_the_same_bytes() {
    let data = scrambled_bytes(9 * 9 * 3, 17);
    let factory = engine(9, 9, ColorFormat::Rgb8, data, 3);
    for strategy in strategies() {
        let first = factory.generate_mosaic(strategy.as_ref());
        let second = factory.generate_mosaic(strategy.as_ref());
        assert_eq!(first, second);
    }
}

#[test]
fn tile_side_too_long_for_the_sums_is_refused() {
    // No tile would fit this image; the side is refused all the same.
    let image = ImageData::new(100, 100, ColorFormat::L8, vec![0; 10_000], 5000).unwrap();
    assert!(image.data.is_empty());
    match MosaicFactory::new(image, 5000) {
        Err(error) => assert_eq!(error, MosaicError::InvalidTileSize),
        Ok(_) => panic!("a tile side of 5000 was accepted"),
    }
    let image = ImageData::new(4, 4, ColorFormat::L8, vec![0; 16], u32::MAX).unwrap();
    assert!(MosaicFactory::new(image, u32::MAX).is_err());
    // The longest side that is taken.
    let image = ImageData::new(4, 4, ColorFormat::L8, vec![0; 16], 4104).unwrap();
    let factory = MosaicFactory::new(image, 4104).unwrap();
    assert_eq!((factory.tiles_x, factory.tiles_y, factory.tile_pixels), (0, 0, 4104 * 4104));
    let image = ImageData::new(4, 4, ColorFormat::L8, vec![0; 16], 4105).unwrap();
    assert!(MosaicFactory::new(image, 4105).is_err());
}

#[test]
fn zero_tile_side_is_refused_by_the_engine() {
    let image = ImageData {
        width: 2,
        height: 2,
        channels: 1,
        data: vec![1, 2, 3, 4],
        color: ColorFormat::L8,
    };
    match MosaicFactory::new(image, 0) {
        Err(error) => assert_eq!(error, MosaicError::InvalidTileSize),
        Ok(_) => panic!("a tile side of zero was accepted"),
    }
}

#[test]
fn tile_larger_than_the_image_gives_an_empty_mosaic() {
    let factory = engine(4, 4, ColorFormat::Rgb8, vec![9; 48], 8);
    assert_eq!((factory.tiles_x, factory.tiles_y), (0, 0));
    for strategy in strategies() {
        let sums = strategy.sum_tile_channels(&factory);
        assert!(sums.is_empty());
        let (averages, global) = strategy.calc_tile_average(&factory, &sums);
        assert!(averages.is_empty());
        assert_eq!(global, vec![0, 0, 0]);
        assert!(strategy.create_mosaic(&factory, &averages).is_empty());
        assert!(factory.generate_mosaic(strategy.as_ref()).is_empty());
        assert_eq!(factory.check_correctness(strategy.as_ref()), (0, 0, 0, 0));
    }
}

#[test]
fn tile_taller_than_the_image_gives_an_empty_mosaic() {
    // Wide enough for two tiles, not high enough for one.
    let factory = engine(8, 3, ColorFormat::L8, vec![9; 24], 4);
    assert_eq!((factory.tiles_x, factory.tiles_y), (2, 0));
    for strategy in strategies() {
        assert!(factory.generate_mosaic(strategy.as_ref()).is_empty());
        let sums = strategy.sum_tile_channels(&factory);
        assert!(sums.is_empty());
        assert_eq!(strategy.calc_tile_average(&factory, &sums), (vec![], vec![0]));
    }
}

#[test]
fn averages_of_other_sums_keep_the_low_eight_bits() {
    // Sums that no tile of bytes gives: 4 * 300 / 4 = 300, and 300 - 256 = 44.
    let factory = engine(2, 2, ColorFormat::L8, vec![0; 4], 2);
    for strategy in strategies() {
        let (averages, global) = strategy.calc_tile_average(&factory, &[1200]);
        assert_eq!(averages, vec![44]);
        assert_eq!(global, vec![44]);
    }
}

#[test]
fn mosaic_of_other_averages() {
    let factory = engine(4, 2, ColorFormat::La8, vec![0; 16], 2);
    for strategy in strategies() {
        let mosaic = strategy.create_mosaic(&factory, &[1, 2, 3, 4]);
        assert_eq!(mosaic, vec![1, 2, 1, 2, 3, 4, 3, 4, 1, 2, 1, 2, 3, 4, 3, 4]);
    }
}

#[test]
fn supported_tile_sides() {
    assert!(MosaicFactory::supports_tile_side(0));
    assert!(MosaicFactory::supports_tile_side(1));
    assert!(MosaicFactory::supports_tile_side(32));
    assert!(MosaicFactory::supports_tile_side(4096));
    assert!(MosaicFactory::supports_tile_side(4104));
    assert!(!MosaicFactory::supports_tile_side(4105));
    assert!(!MosaicFactory::supports_tile_side(65536));
    assert!(!MosaicFactory::supports_tile_side(u32::MAX));
}

#[test]
fn engine_geometry() {
    let factory = engine(10, 7, ColorFormat::Rgb8, vec![0; 210], 3);
    assert_eq!(factory.tile_side_length, 3);
    assert_eq!(factory.tile_pixels, 9);
    assert_eq!((factory.tiles_x, factory.tiles_y), (3, 2));
    assert_eq!((factory.image_data.width, factory.image_data.height), (9, 6));
    assert_eq!(factory.mosaic_size(), (9, 6));
    assert_eq!(factory.tile_buffer_size(), 18);
}

#[test]
fn mismatches_are_counted_position_by_position() {
    assert_eq!(calc_diff(&[1u32, 2, 3], &[1, 2, 3]), 0);
    assert_eq!(calc_diff(&[1u32, 2, 3], &[1, 0, 3, 4]), 1);
    assert_eq!(calc_diff(&[5u32, 6, 7, 8], &[8, 7]), 2);
    assert_eq!(calc_diff::<u32>(&[], &[1]), 0);
    assert_eq!(calc_diff(&[1u8, 2, 3], &[3, 2, 1]), 2);
    assert_eq!(calc_diff(&[1u8, 2, 3], &[1, 2, 3]), 0);
    assert_eq!(calc_diff::<u8>(&[9], &[]), 0);
}

#[test]
fn stages_are_compared_one_by_one() {
    let reference = StageResults {
        tile_sum: vec![40, 80, 120, 160],
        tile_average: vec![10, 20, 30, 40],
        global_average: vec![25],
        mosaic: vec![10, 10, 20, 20, 30, 30, 40, 40],
    };
    let same = StageResults {
        tile_sum: vec![40, 80, 120, 160],
        tile_average: vec![10, 20, 30, 40],
        global_average: vec![25],
        mosaic: vec![10, 10, 20, 20, 30, 30, 40, 40],
    };
    assert_eq!(compare_stages(&same, &reference), (0, 0, 0, 0));
    // A strategy that is wrong in every stage, each time at other places.
    let wrong = StageResults {
        tile_sum: vec![41, 80, 120, 160],
        tile_average: vec![10, 21, 31, 40],
        global_average: vec![200],
        mosaic: vec![0, 0, 0, 20, 30, 30, 40, 40],
    };
    assert_eq!(compare_stages(&wrong, &reference), (1, 2, 1, 3));
    assert_eq!(compare_stages(&reference, &wrong), (1, 2, 1, 3));
    // Only what both buffers hold is compared.
    let short = StageResults {
        tile_sum: vec![40, 0],
        tile_average: vec![],
        global_average: vec![25, 7],
        mosaic: vec![10],
    };
    assert_eq!(compare_stages(&short, &reference), (1, 0, 0, 0));
}

#[test]
fn stage_times_are_added_and_averaged() {
    assert_eq!(add_stage_times((1, 2, 3), (10, 20, 30)), (11, 22, 33));
    assert_eq!(add_stage_times((u128::MAX, 0, 5), (1, 0, u128::MAX - 5)), (u128::MAX, 0, u128::MAX));
    assert_eq!(mean_stage_times(&[(10, 21, 5)]), (10, 21, 5));
    assert_eq!(mean_stage_times(&[(10, 21, 5), (0, 0, 0)]), (5, 10, 2));
    assert_eq!(mean_stage_times(&[(1, 2, 3), (1, 1, 1), (0, 0, 0), (0, 0, 0)]), (0, 0, 1));
    assert_eq!(mean_stage_times(&[(7, 100, 9), (9, 200, 9), (11, 301, 9)]), (9, 200, 9));
    // A total that would pass 128 bits stays at the largest number.
    assert_eq!(
        mean_stage_times(&[(u128::MAX, 4, 0), (u128::MAX, 6, 0)]),
        (u128::MAX / 2, 5, 0)
    );
}

#[test]
fn benchmark_returns_a_time_per_stage() {
    let data = scrambled_bytes(16 * 16 * 3, 3);
    let factory = engine(16, 16, ColorFormat::Rgb8, data, 4);
    for strategy in strategies() {
        let (sum, average, scatter) = factory.benchmark(strategy.as_ref(), 3);
        // A stage of this size does not take a minute.
        assert!(sum < 60_000_000_000);
        assert!(average < 60_000_000_000);
        assert!(scatter < 60_000_000_000);
    }
}

#[test]
fn image_without_channels_gives_empty_buffers() {
    let image = ImageData { width: 4, height: 4, channels: 0, data: vec![], color: ColorFormat::L8 };
    let factory = MosaicFactory::new(image, 2).unwrap();
    assert_eq!((factory.tiles_x, factory.tiles_y), (2, 2));
    for strategy in strategies() {
        let sums = strategy.sum_tile_channels(&factory);
        assert!(sums.is_empty());
        assert_eq!(strategy.calc_tile_average(&factory, &sums), (vec![], vec![]));
        assert!(strategy.create_mosaic(&factory, &[]).is_empty());
        assert_eq!(factory.check_correctness(strategy.as_ref()), (0, 0, 0, 0));
    }
}

#[test]
fn many_tiles_on_many_workers() {
    let (width, height, tile) = (96u32, 64u32, 8u32);
    let data = scrambled_bytes((width * height * 4) as usize, 2024);
    let factory = engine(width, height, ColorFormat::Rgba8, data, tile);
    let (sums, averages, global, mosaic) = plain_pipeline(&factory);
    for _ in 0..5 {
        for strategy in strategies() {
            assert_eq!(strategy.sum_tile_channels(&factory), sums);
            assert_eq!(strategy.calc_tile_average(&factory, &sums), (averages.clone(), global.clone()));
            assert_eq!(strategy.create_mosaic(&factory, &averages), mosaic);
        }
    }
}

#[test]
fn tiles_of_one_pixel_give_the_image_back() {
    let data = scrambled_bytes(7 * 5 * 3, 8);
    let factory = engine(7, 5, ColorFormat::Rgb8, data.clone(), 1);
    for strategy in strategies() {
        assert_eq!(factory.generate_mosaic(strategy.as_ref()), data);
    }
}

#[test]
fn strategies_called_by_their_own_type() {
    let data = scrambled_bytes(4 * 4, 11);
    let factory = engine(4, 4, ColorFormat::L8, data, 2);
    let serial = factory.generate_mosaic(&SerialMosaic);
    assert_eq!(factory.generate_mosaic(&ParallelMosaic), serial);
    assert_eq!(factory.generate_mosaic(&SlowParallelMosaic), serial);
    assert_eq!(factory.check_correctness(&ParallelMosaic), (0, 0, 0, 0));
}
