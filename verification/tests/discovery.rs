use image_mosaic::config::{Config, MosaicConfig, PathConfig};
use image_mosaic::files::FileEntry;
use image_mosaic::processor::ImageProcessor;
use std::path::PathBuf;

fn processor(formats: &[&str]) -> ImageProcessor {
    ImageProcessor::new(Config {
        paths: PathConfig {
            input_dir: PathBuf::from("in"),
            output_dir: PathBuf::from("out"),
            supported_formats: formats.iter().map(|f| String::from(*f)).collect(),
        },
        mosaic: MosaicConfig { block_size: 4, blur_strength: 1 },
        regions: Vec::new(),
    })
}

fn entry(path: &str, is_file: bool, extension: Option<&str>) -> FileEntry {
    FileEntry { path: PathBuf::from(path), is_file, extension: extension.map(String::from) }
}

#[test]
fn new_keeps_the_configuration() {
    let p = processor(&["png", "jpg"]);
    assert_eq!(p.config.paths.supported_formats, vec![String::from("png"), String::from("jpg")]);
    assert_eq!(p.config.mosaic.block_size, 4);
    assert_eq!(p.config.paths.output_dir, PathBuf::from("out"));
}

#[test]
fn three_supported_files_and_one_unsupported() {
    let p = processor(&["png", "jpg"]);
    let entries = vec![
        entry("in/a.png", true, Some("png")),
        entry("in/notes.txt", true, Some("txt")),
        entry("in/b.jpg", true, Some("jpg")),
        entry("in/c.png", true, Some("png")),
    ];
    assert_eq!(
        p.get_image_files(&entries),
        vec![PathBuf::from("in/a.png"), PathBuf::from("in/b.jpg"), PathBuf::from("in/c.png")]
    );
}

#[test]
fn extension_is_compared_in_lower_case() {
    let p = processor(&["png", "jpg"]);
    assert!(p.is_supported("PNG"));
    assert!(p.is_supported("Jpg"));
    assert!(p.is_supported("png"));
    let entries = vec![entry("in/A.PNG", true, Some("PNG")), entry("in/B.JpG", true, Some("JpG"))];
    assert_eq!(p.get_image_files(&entries), vec![PathBuf::from("in/A.PNG"), PathBuf::from("in/B.JpG")]);
}

#[test]
fn configured_formats_are_matched_as_written() {
    let p = processor(&["PNG"]);
    assert!(!p.is_supported("png"));
    assert!(!p.is_supported("PNG"));
    assert!(p.has_format(&String::from("PNG")));
    assert!(!p.has_format(&String::from("png")));
}

#[test]
fn extension_must_match_whole() {
    let p = processor(&["png", "jpeg"]);
    assert!(!p.is_supported("pn"));
    assert!(!p.is_supported("pngx"));
    assert!(!p.is_supported("jpg"));
    assert!(!p.is_supported(""));
    assert!(p.is_supported("jpeg"));
}

#[test]
fn directories_and_names_without_extension_are_left_out() {
    let p = processor(&["png"]);
    let entries = vec![
        entry("in/folder.png", false, Some("png")),
        entry("in/README", true, None),
        entry("in/x.png", true, Some("png")),
    ];
    assert_eq!(p.get_image_files(&entries), vec![PathBuf::from("in/x.png")]);
}

#[test]
fn no_entries_give_no_files() {
    let p = processor(&["png"]);
    assert!(p.get_image_files(&Vec::new()).is_empty());
    let none = processor(&[]);
    assert!(none.get_image_files(&vec![entry("in/x.png", true, Some("png"))]).is_empty());
}
