use image_mosaic::canvas::Canvas;
use image_mosaic::config::{Config, MosaicConfig, PathConfig, Region};
use image_mosaic::processor::{block_span, ImageProcessor};
use std::path::PathBuf;

fn processor_with(block_size: u32, blur_strength: u32, regions: Vec<Region>) -> ImageProcessor {
    ImageProcessor::new(Config {
        paths: PathConfig {
            input_dir: PathBuf::from("in"),
            output_dir: PathBuf::from("out"),
            supported_formats: vec![String::from("png")],
        },
        mosaic: MosaicConfig { block_size, blur_strength },
        regions,
    })
}

fn uniform(width: u32, height: u32, color: (u8, u8, u8, u8)) -> Canvas {
    let mut data = Vec::new();
    for _ in 0..(width * height) {
        data.extend_from_slice(&[color.0, color.1, color.2, color.3]);
    }
    Canvas::from_raw(width, height, data).unwrap()
}

fn gradient(width: u32, height: u32) -> Canvas {
    let mut data = Vec::new();
    for y in 0..height {
        for x in 0..width {
            data.push((x * 7 + y * 3) as u8);
            data.push((x * 13 + y) as u8);
            data.push((255 - x * 5 - y * 2) as u8);
            data.push((200 + x + y) as u8);
        }
    }
    Canvas::from_raw(width, height, data).unwrap()
}

fn snapshot(canvas: &Canvas) -> Vec<Vec<(u8, u8, u8, u8)>> {
    let mut rows = Vec::new();
    for y in 0..canvas.height() {
        let mut row = Vec::new();
        for x in 0..canvas.width() {
            row.push(canvas.get_pixel(x, y));
        }
        rows.push(row);
    }
    rows
}

fn expected_block(
    before: &Vec<Vec<(u8, u8, u8, u8)>>,
    bx: u32,
    by: u32,
    bw: u32,
    bh: u32,
    strength: u64,
) -> (u8, u8, u8, u8) {
    let mut sums = [0u64; 4];
    for y in by..by + bh {
        for x in bx..bx + bw {
            let p = before[y as usize][x as usize];
            sums[0] += p.0 as u64;
            sums[1] += p.1 as u64;
            sums[2] += p.2 as u64;
            sums[3] += p.3 as u64;
        }
    }
    let n = (bw * bh) as u64;
    let keep = 100 - 3 * strength;
    (
        (sums[0] / n * keep / 100) as u8,
        (sums[1] / n * keep / 100) as u8,
        (sums[2] / n * keep / 100) as u8,
        (sums[3] / n) as u8,
    )
}

#[test]
fn buffer_is_made_from_enough_bytes_only() {
    assert!(Canvas::from_raw(2, 2, vec![0u8; 15]).is_none());
    assert!(Canvas::from_raw(2, 2, vec![0u8; 16]).is_some());
    assert!(Canvas::from_raw(2, 2, vec![0u8; 17]).is_some());
    assert!(Canvas::from_raw(0, 0, Vec::new()).is_some());
    assert!(Canvas::from_raw(u32::MAX, u32::MAX, vec![0u8; 16]).is_none());
}

#[test]
fn buffer_keeps_size_and_bytes() {
    let data: Vec<u8> = (0..24u8).collect();
    let canvas = Canvas::from_raw(3, 2, data.clone()).unwrap();
    assert_eq!(canvas.width(), 3);
    assert_eq!(canvas.height(), 2);
    assert_eq!(canvas.get_pixel(0, 0), (0, 1, 2, 3));
    assert_eq!(canvas.get_pixel(2, 0), (8, 9, 10, 11));
    assert_eq!(canvas.get_pixel(1, 1), (16, 17, 18, 19));
    assert_eq!(canvas.into_raw(), data);
}

#[test]
fn put_pixel_changes_one_pixel() {
    let mut canvas = uniform(3, 2, (1, 2, 3, 4));
    canvas.put_pixel(2, 1, (9, 8, 7, 6));
    for y in 0..2 {
        for x in 0..3 {
            let want = if (x, y) == (2, 1) { (9, 8, 7, 6) } else { (1, 2, 3, 4) };
            assert_eq!(canvas.get_pixel(x, y), want);
        }
    }
    assert_eq!((canvas.width(), canvas.height()), (3, 2));
}

#[test]
fn block_lengths_of_ten_by_four() {
    assert_eq!(block_span(0, 10, 4, 0), 4);
    assert_eq!(block_span(0, 10, 4, 4), 4);
    assert_eq!(block_span(0, 10, 4, 8), 2);
    assert_eq!(block_span(0, 10, 4, 10), 0);
    let mut origin = 0;
    let mut spans = Vec::new();
    while origin < 10 {
        let span = block_span(0, 10, 4, origin);
        spans.push(span);
        origin += span;
    }
    assert_eq!(spans, vec![4, 4, 2]);
}

#[test]
fn last_block_is_the_remainder_or_a_full_block() {
    for length in 1..40u32 {
        for block_size in 1..12u32 {
            let start = 5;
            let last_origin = start + (length - 1) / block_size * block_size;
            let want = if length % block_size == 0 { block_size } else { length % block_size };
            assert_eq!(block_span(start, length, block_size, last_origin), want);
        }
    }
}

#[test]
fn block_span_near_the_largest_coordinate() {
    assert_eq!(block_span(u32::MAX - 3, 3, 8, u32::MAX - 3), 3);
    assert_eq!(block_span(0, u32::MAX, u32::MAX, 0), u32::MAX);
    assert_eq!(block_span(0, u32::MAX, 1, u32::MAX - 1), 1);
}

#[test]
fn uniform_block_is_darkened_at_strength_one() {
    let p = processor_with(4, 1, Vec::new());
    let mut canvas = uniform(4, 4, (100, 150, 200, 255));
    assert_eq!(p.calculate_average_color(&canvas, 0, 0, 4, 4), (97, 145, 194, 255));
    p.apply_mosaic(&mut canvas, 0, 0, 4, 4);
    for y in 0..4 {
        for x in 0..4 {
            assert_eq!(canvas.get_pixel(x, y), (97, 145, 194, 255));
        }
    }
}

#[test]
fn uniform_block_at_every_strength() {
    for strength in 1..=10u32 {
        let p = processor_with(3, strength, Vec::new());
        let canvas = uniform(5, 5, (255, 10, 1, 77));
        let keep = 100 - 3 * strength;
        assert_eq!(
            p.calculate_average_color(&canvas, 1, 1, 3, 3),
            ((255 * keep / 100) as u8, (10 * keep / 100) as u8, 0, 77)
        );
    }
    let strongest = processor_with(3, 10, Vec::new());
    assert_eq!(
        strongest.calculate_average_color(&uniform(2, 2, (255, 100, 9, 0)), 0, 0, 2, 2),
        (178, 70, 6, 0)
    );
}

#[test]
fn mean_is_rounded_down_before_darkening() {
    let data = vec![10, 0, 0, 255, 20, 0, 0, 255, 30, 0, 0, 255, 40, 1, 0, 251];
    let canvas = Canvas::from_raw(2, 2, data).unwrap();
    let p = processor_with(2, 10, Vec::new());
    assert_eq!(p.calculate_average_color(&canvas, 0, 0, 2, 2), (17, 0, 0, 254));
    let one_wide = Canvas::from_raw(2, 1, vec![1, 2, 3, 4, 2, 3, 4, 5]).unwrap();
    let weak = processor_with(2, 1, Vec::new());
    assert_eq!(weak.calculate_average_color(&one_wide, 0, 0, 2, 1), (0, 1, 2, 4));
}

#[test]
fn block_without_pixels_is_opaque_black() {
    let p = processor_with(4, 5, Vec::new());
    let canvas = uniform(4, 4, (9, 9, 9, 9));
    assert_eq!(p.calculate_average_color(&canvas, 1, 1, 0, 3), (0, 0, 0, 255));
    assert_eq!(p.calculate_average_color(&canvas, 1, 1, 3, 0), (0, 0, 0, 255));
    assert_eq!(p.calculate_average_color(&canvas, 4, 4, 0, 0), (0, 0, 0, 255));
}

#[test]
fn ten_by_ten_region_has_three_by_three_blocks() {
    let p = processor_with(4, 3, Vec::new());
    let mut canvas = gradient(10, 10);
    let before = snapshot(&canvas);
    p.apply_mosaic(&mut canvas, 0, 0, 10, 10);
    let after = snapshot(&canvas);
    let cuts = [(0u32, 4u32), (4, 4), (8, 2)];
    for &(by, bh) in cuts.iter() {
        for &(bx, bw) in cuts.iter() {
            let want = expected_block(&before, bx, by, bw, bh, 3);
            for y in by..by + bh {
                for x in bx..bx + bw {
                    assert_eq!(after[y as usize][x as usize], want);
                }
            }
        }
    }
    assert_ne!(after[0][3], after[0][4]);
    assert_ne!(after[0][7], after[0][8]);
    assert_ne!(after[3][0], after[4][0]);
}

#[test]
fn pixels_outside_the_rectangle_are_untouched() {
    let p = processor_with(3, 7, Vec::new());
    let mut canvas = gradient(12, 9);
    let before = snapshot(&canvas);
    p.apply_mosaic(&mut canvas, 2, 1, 7, 5);
    let after = snapshot(&canvas);
    assert_eq!((canvas.width(), canvas.height()), (12, 9));
    for y in 0..9u32 {
        for x in 0..12u32 {
            let inside = x >= 2 && x < 9 && y >= 1 && y < 6;
            if !inside {
                assert_eq!(after[y as usize][x as usize], before[y as usize][x as usize]);
            } else {
                let bx = 2 + (x - 2) / 3 * 3;
                let by = 1 + (y - 1) / 3 * 3;
                let bw = 3.min(9 - bx);
                let bh = 3.min(6 - by);
                assert_eq!(
                    after[y as usize][x as usize],
                    expected_block(&before, bx, by, bw, bh, 7)
                );
            }
        }
    }
}

#[test]
fn every_block_is_flat_after_the_mosaic() {
    let p = processor_with(5, 2, Vec::new());
    let mut canvas = gradient(13, 11);
    p.apply_mosaic(&mut canvas, 1, 2, 12, 9);
    for y in 2..11u32 {
        for x in 1..13u32 {
            let bx = 1 + (x - 1) / 5 * 5;
            let by = 2 + (y - 2) / 5 * 5;
            assert_eq!(canvas.get_pixel(x, y), canvas.get_pixel(bx, by));
        }
    }
}

#[test]
fn empty_rectangle_changes_nothing() {
    let p = processor_with(4, 5, Vec::new());
    let mut canvas = gradient(6, 6);
    let before = snapshot(&canvas);
    p.apply_mosaic(&mut canvas, 3, 3, 0, 0);
    p.apply_mosaic(&mut canvas, 6, 6, 0, 0);
    p.apply_mosaic(&mut canvas, 0, 0, 6, 0);
    assert_eq!(snapshot(&canvas), before);
}

#[test]
fn block_larger_than_the_rectangle_gives_one_block() {
    let p = processor_with(u32::MAX, 1, Vec::new());
    let mut canvas = gradient(5, 4);
    let before = snapshot(&canvas);
    p.apply_mosaic(&mut canvas, 1, 1, 4, 3);
    let want = expected_block(&before, 1, 1, 4, 3, 1);
    for y in 1..4u32 {
        for x in 1..5u32 {
            assert_eq!(canvas.get_pixel(x, y), want);
        }
    }
}

#[test]
fn darkening_compounds_when_applied_twice() {
    let p = processor_with(2, 10, Vec::new());
    let mut canvas = uniform(2, 2, (200, 100, 50, 128));
    p.apply_mosaic(&mut canvas, 0, 0, 2, 2);
    assert_eq!(canvas.get_pixel(1, 1), (140, 70, 35, 128));
    p.apply_mosaic(&mut canvas, 0, 0, 2, 2);
    assert_eq!(canvas.get_pixel(1, 1), (98, 49, 24, 128));
}

#[test]
fn regions_are_applied_in_order() {
    let regions = vec![
        Region { name: String::from("top"), x: 0, y: 0, width: 4, height: 2 },
        Region { name: String::from("corner"), x: -3, y: -3, width: 10, height: 10 },
    ];
    let p = processor_with(2, 4, regions);
    let mut canvas = gradient(6, 6);
    let mut want = gradient(6, 6);
    p.apply_mosaic(&mut want, 0, 0, 4, 2);
    p.apply_mosaic(&mut want, 3, 3, 3, 3);
    p.process_imgae(&mut canvas);
    assert_eq!(snapshot(&canvas), snapshot(&want));
    assert_ne!(snapshot(&canvas), snapshot(&gradient(6, 6)));
}

#[test]
fn overlapping_regions_are_darkened_twice() {
    let regions = vec![
        Region { name: String::from("a"), x: 0, y: 0, width: 2, height: 2 },
        Region { name: String::from("b"), x: 0, y: 0, width: 2, height: 2 },
    ];
    let p = processor_with(2, 10, regions);
    let mut canvas = uniform(3, 3, (200, 100, 50, 128));
    p.process_imgae(&mut canvas);
    assert_eq!(canvas.get_pixel(0, 0), (98, 49, 24, 128));
    assert_eq!(canvas.get_pixel(2, 2), (200, 100, 50, 128));
}

#[test]
fn no_regions_leave_the_image_as_it_is() {
    let p = processor_with(2, 10, Vec::new());
    let mut canvas = gradient(4, 4);
    p.process_imgae(&mut canvas);
    assert_eq!(snapshot(&canvas), snapshot(&gradient(4, 4)));
}

#[test]
fn image_without_pixels_is_processed() {
    let regions = vec![Region { name: String::from("a"), x: -5, y: 2, width: 2, height: 2 }];
    let p = processor_with(2, 10, regions);
    let mut canvas = Canvas::from_raw(0, 0, Vec::new()).unwrap();
    p.process_imgae(&mut canvas);
    assert_eq!((canvas.width(), canvas.height()), (0, 0));
}

#[test]
fn darkening_agrees_with_single_precision_arithmetic() {
    for strength in 1..=10u32 {
        let p = processor_with(1, strength, Vec::new());
        let blur = strength as f32 / 10.0;
        let factor = 1.0 - blur * 0.3;
        for level in 0..=255u32 {
            let canvas = uniform(1, 1, (level as u8, level as u8, level as u8, level as u8));
            let want = (level as f32 * factor) as u8;
            let got = p.calculate_average_color(&canvas, 0, 0, 1, 1);
            assert_eq!(got, (want, want, want, level as u8), "level {} strength {}", level, strength);
        }
    }
}
