use image_mosaic::config::{Config, ConfigError, MosaicConfig, PathConfig, Region};
use std::path::PathBuf;

fn config(block_size: u32, blur_strength: u32, sizes: &[(u32, u32)]) -> Config {
    let mut regions = Vec::new();
    for (i, &(width, height)) in sizes.iter().enumerate() {
        regions.push(Region { name: format!("r{}", i), x: 0, y: 0, width, height });
    }
    Config {
        paths: PathConfig {
            input_dir: PathBuf::from("in"),
            output_dir: PathBuf::from("out"),
            supported_formats: vec![String::from("png")],
        },
        mosaic: MosaicConfig { block_size, blur_strength },
        regions,
    }
}

#[test]
fn valid_configuration_is_accepted() {
    assert_eq!(config(8, 5, &[(10, 10), (1, 1)]).validate(true), Ok(()));
    assert_eq!(config(1, 1, &[]).validate(true), Ok(()));
    assert_eq!(config(u32::MAX, 10, &[(1, 1)]).validate(true), Ok(()));
}

#[test]
fn missing_input_directory_is_refused_first() {
    assert_eq!(config(8, 5, &[(10, 10)]).validate(false), Err(ConfigError::InputDirMissing));
    assert_eq!(config(0, 0, &[(0, 0)]).validate(false), Err(ConfigError::InputDirMissing));
}

#[test]
fn zero_block_size_is_refused() {
    assert_eq!(config(0, 5, &[(10, 10)]).validate(true), Err(ConfigError::ZeroBlockSize));
    assert_eq!(config(0, 0, &[(0, 10)]).validate(true), Err(ConfigError::ZeroBlockSize));
}

#[test]
fn blur_strength_outside_one_to_ten_is_refused() {
    assert_eq!(config(8, 0, &[(10, 10)]).validate(true), Err(ConfigError::BlurStrengthOutOfRange));
    assert_eq!(config(8, 11, &[(10, 10)]).validate(true), Err(ConfigError::BlurStrengthOutOfRange));
    assert_eq!(config(8, 11, &[(0, 0)]).validate(true), Err(ConfigError::BlurStrengthOutOfRange));
    assert_eq!(config(8, 1, &[(10, 10)]).validate(true), Ok(()));
    assert_eq!(config(8, 10, &[(10, 10)]).validate(true), Ok(()));
}

#[test]
fn first_empty_region_is_reported() {
    assert_eq!(
        config(8, 5, &[(10, 10), (0, 10), (10, 0)]).validate(true),
        Err(ConfigError::EmptyRegion { index: 1 })
    );
    assert_eq!(
        config(8, 5, &[(10, 0)]).validate(true),
        Err(ConfigError::EmptyRegion { index: 0 })
    );
    assert_eq!(
        config(8, 5, &[(1, 1), (2, 2), (0, 0)]).validate(true),
        Err(ConfigError::EmptyRegion { index: 2 })
    );
}
