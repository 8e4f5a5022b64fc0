use crypto::digest::Digest;
use crypto::md5::Md5;
use image::codecs::jpeg::JpegEncoder;
use image::ExtendedColorType;

use windows_spotlight::naming::{destination_file_name, target_file_name};
use windows_spotlight::plan::{plan_collection, plan_copies, target_for, Asset, CopyOp};
use windows_spotlight::resolution::{
    is_full_hd_or_better, should_collect, should_collect_decoded, FHD_HEIGHT, FHD_WIDTH,
};

fn grey_jpeg(width: u32, height: u32) -> Vec<u8> {
    let pixels = vec![128u8; (width as usize) * (height as usize)];
    let mut out = Vec::new();
    JpegEncoder::new(&mut out)
        .encode(&pixels, width, height, ExtendedColorType::L8)
        .unwrap();
    out
}

fn md5_hex(bytes: &[u8]) -> String {
    let mut md5 = Md5::new();
    md5.input(bytes);
    md5.result_str()
}

fn file(contents: Vec<u8>) -> Asset {
    Asset { is_file: true, contents }
}

fn summary(ops: &[CopyOp]) -> Vec<(usize, String)> {
    ops.iter().map(|op| (op.source, op.target.clone())).collect()
}

#[test]
fn full_hd_qualifies() {
    assert!(is_full_hd_or_better((1920, 1080)));
    assert_eq!((FHD_WIDTH, FHD_HEIGHT), (1920, 1080));
}

#[test]
fn scaled_same_ratio_qualifies() {
    assert!(is_full_hd_or_better((3840, 2160)));
    assert!(is_full_hd_or_better((2560, 1440)));
}

#[test]
fn wrong_ratio_rejected() {
    assert!(!is_full_hd_or_better((1920, 1200)));
    assert!(!is_full_hd_or_better((2560, 1080)));
    assert!(!is_full_hd_or_better((1080, 1920)));
}

#[test]
fn below_size_rejected() {
    assert!(!is_full_hd_or_better((1280, 720)));
    assert!(!is_full_hd_or_better((0, 0)));
}

#[test]
fn largest_dimensions_do_not_overflow() {
    assert!(!is_full_hd_or_better((u32::MAX, u32::MAX)));
    assert!(!is_full_hd_or_better((u32::MAX, 1080)));
}

#[test]
fn decoded_entry_decisions() {
    assert!(should_collect_decoded(true, Some((1920, 1080))));
    assert!(!should_collect_decoded(false, Some((1920, 1080))));
    assert!(!should_collect_decoded(true, None));
    assert!(!should_collect_decoded(true, Some((1280, 720))));
}

#[test]
fn should_collect_reads_jpeg_header() {
    let big = grey_jpeg(1920, 1080);
    let small = grey_jpeg(1280, 720);
    assert!(should_collect(true, &big));
    assert!(!should_collect(false, &big));
    assert!(!should_collect(true, &small));
    assert!(!should_collect(true, b"not an image"));
    assert!(!should_collect(true, b""));
}

#[test]
fn destination_name_appends_jpg() {
    assert_eq!(destination_file_name("abc"), "abc.jpg");
    assert_eq!(destination_file_name(""), ".jpg");
}

#[test]
fn target_name_is_md5_hex() {
    assert_eq!(target_file_name(b""), "d41d8cd98f00b204e9800998ecf8427e.jpg");
    assert_eq!(target_file_name(b"abc"), "900150983cd24fb0d6963f7d28e17f72.jpg");
}

#[test]
fn plan_skips_present_and_repeated_names() {
    let targets = vec![
        Some("a.jpg".to_string()),
        None,
        Some("a.jpg".to_string()),
        Some("b.jpg".to_string()),
        Some("c.jpg".to_string()),
    ];
    let existing = vec!["b.jpg".to_string()];
    let ops = plan_copies(&targets, &existing);
    assert_eq!(summary(&ops), vec![(0, "a.jpg".to_string()), (4, "c.jpg".to_string())]);
}

#[test]
fn plan_of_nothing_is_empty() {
    assert!(plan_copies(&vec![], &vec!["x.jpg".to_string()]).is_empty());
    assert!(plan_collection(&vec![], &vec![]).is_empty());
}

#[test]
fn identical_files_copied_once() {
    let bytes = grey_jpeg(1920, 1080);
    let assets = vec![file(bytes.clone()), file(bytes.clone())];
    let first = target_for(&assets[0]);
    assert_eq!(first, target_for(&assets[1]));
    let ops = plan_collection(&assets, &vec![]);
    assert_eq!(summary(&ops), vec![(0, format!("{}.jpg", md5_hex(&bytes)))]);
}

#[test]
fn non_jpeg_excluded_without_abort() {
    let bytes = grey_jpeg(1920, 1080);
    let assets = vec![file(b"plain text".to_vec()), file(bytes.clone())];
    assert_eq!(target_for(&assets[0]), None);
    let ops = plan_collection(&assets, &vec![]);
    assert_eq!(summary(&ops), vec![(1, format!("{}.jpg", md5_hex(&bytes)))]);
}

#[test]
fn directories_are_skipped() {
    let bytes = grey_jpeg(1920, 1080);
    let assets = vec![Asset { is_file: false, contents: bytes }];
    assert!(plan_collection(&assets, &vec![]).is_empty());
}

#[test]
fn second_run_copies_nothing() {
    let assets = vec![file(grey_jpeg(1920, 1080)), file(grey_jpeg(3840, 2160))];
    let first = plan_collection(&assets, &vec![]);
    assert_eq!(first.len(), 2);
    let present: Vec<String> = first.iter().map(|op| op.target.clone()).collect();
    assert!(plan_collection(&assets, &present).is_empty());
}

#[test]
fn targets_end_with_jpg() {
    let assets = vec![file(grey_jpeg(1920, 1080))];
    let ops = plan_collection(&assets, &vec![]);
    assert_eq!(ops.len(), 1);
    assert!(ops[0].target.ends_with(".jpg"));
    assert_eq!(ops[0].target.len(), 36);
}

#[test]
fn end_to_end_three_entries() {
    let b1 = grey_jpeg(1920, 1080);
    let b2 = grey_jpeg(1280, 720);
    let b3 = b"some text file".to_vec();
    let assets = vec![file(b1.clone()), file(b2), file(b3)];
    let ops = plan_collection(&assets, &vec![]);
    assert_eq!(ops.len(), 1);
    assert_eq!(ops[0].source, 0);
    assert_eq!(ops[0].target, format!("{}.jpg", md5_hex(&b1)));
    assert_eq!(assets[ops[0].source].contents, b1);
}
