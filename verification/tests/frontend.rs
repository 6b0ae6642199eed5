use image::ImageFormat;
use mosaic::args::{AlgorithmType, CliArgs, Workflow};
use mosaic::error::MosaicError;
use mosaic::output::{output_format, require_format};

fn arguments(tile_side_length: u32, benchmark_runs: u32, output: Option<&str>) -> CliArgs {
    CliArgs {
        input_image_path: String::from("in.png"),
        algorithm_type: AlgorithmType::Serial,
        output_image_path: output.map(String::from),
        tile_side_length,
        benchmark_runs,
    }
}

#[test]
fn zero_tile_side_is_refused_by_the_arguments() {
    assert_eq!(arguments(0, 0, None).workflow(), Err(MosaicError::InvalidTileSize));
    assert_eq!(arguments(0, 5, Some("out.png")).workflow(), Err(MosaicError::InvalidTileSize));
}

#[test]
fn workflow_without_benchmark_or_output() {
    assert_eq!(
        arguments(32, 0, None).workflow(),
        Ok(Workflow { check_and_benchmark: false, benchmark_runs: 0, save: false })
    );
}

#[test]
fn workflow_with_benchmark_and_output() {
    assert_eq!(
        arguments(1, 7, Some("out/mosaic.png")).workflow(),
        Ok(Workflow { check_and_benchmark: true, benchmark_runs: 7, save: true })
    );
    assert_eq!(
        arguments(4104, 1, None).workflow(),
        Ok(Workflow { check_and_benchmark: true, benchmark_runs: 1, save: false })
    );
}

#[test]
fn tile_side_too_long_is_refused_by_the_arguments() {
    assert_eq!(arguments(4105, 0, None).workflow(), Err(MosaicError::InvalidTileSize));
    assert_eq!(arguments(u32::MAX, 3, Some("out.png")).workflow(), Err(MosaicError::InvalidTileSize));
}

#[test]
fn default_tile_side() {
    assert_eq!(CliArgs::DEFAULT_TILE_SIDE_LENGTH, 32);
}

#[test]
fn known_extensions_give_their_format() {
    assert_eq!(output_format(Some("png")), Ok(ImageFormat::Png));
    assert_eq!(output_format(Some("PNG")), Ok(ImageFormat::Png));
    assert_eq!(output_format(Some("jpg")), Ok(ImageFormat::Jpeg));
    assert_eq!(output_format(Some("jpeg")), Ok(ImageFormat::Jpeg));
    assert_eq!(output_format(Some("bmp")), Ok(ImageFormat::Bmp));
}

#[test]
fn unknown_or_missing_extension_is_refused() {
    assert_eq!(output_format(None), Err(MosaicError::MissingOrUnsupportedOutputExtension));
    assert_eq!(output_format(Some("")), Err(MosaicError::MissingOrUnsupportedOutputExtension));
    assert_eq!(output_format(Some("mosaic")), Err(MosaicError::MissingOrUnsupportedOutputExtension));
    assert_eq!(output_format(Some(".png")), Err(MosaicError::MissingOrUnsupportedOutputExtension));
}

#[test]
fn found_format_is_passed_on() {
    assert_eq!(require_format(Some(ImageFormat::Tiff)), Ok(ImageFormat::Tiff));
    assert_eq!(require_format(None), Err(MosaicError::MissingOrUnsupportedOutputExtension));
}

#[test]
fn every_error_has_its_message() {
    let errors = [
        MosaicError::InputNotFound,
        MosaicError::InvalidTileSize,
        MosaicError::DecodeFailure,
        MosaicError::MissingOrUnsupportedOutputExtension,
        MosaicError::EncodeFailure,
    ];
    for (i, first) in errors.iter().enumerate() {
        assert!(!first.message().is_empty());
        for second in &errors[i + 1..] {
            assert_ne!(first.message(), second.message());
        }
    }
    assert_eq!(MosaicError::InvalidTileSize.message(), "tile side length must be between 1 and 4104");
}
