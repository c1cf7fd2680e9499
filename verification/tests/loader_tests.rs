use std::io::Cursor;

use shard_pipeline::assembler::assemble;
use shard_pipeline::attribution::{RangeEntry, ShardKey};
use shard_pipeline::data_loader::{new, CaptureInput, DataLoader, ImageLoader, LoadError, Pattern};
use shard_pipeline::numeric::{is_numeric_cell, parse_u32};

fn input(path: &str, shard: ShardKey, bytes: &[u8]) -> CaptureInput {
    CaptureInput { path: path.to_string(), shard, bytes: bytes.to_vec() }
}

#[test]
fn csv_loader_extracts_features_and_labels() {
    let loader = new();
    let inputs = vec![input("a.csv", ShardKey::OnChain(0), b"1,2,3,4,9\n5,6,7,8,10\n")];
    let (features, preds, ranges) = loader.load_all_samples(&inputs).unwrap();
    assert_eq!(
        features,
        vec![
            vec!["1".to_string(), "2".to_string(), "3".to_string(), "4".to_string()],
            vec!["5".to_string(), "6".to_string(), "7".to_string(), "8".to_string()],
        ]
    );
    assert_eq!(preds, vec![9, 10]);
    assert_eq!(ranges, vec![RangeEntry { shard: ShardKey::OnChain(0), start: 0, end: 2 }]);
}

#[test]
fn two_shards_assemble_into_contiguous_ranges() {
    // Two shards with 3 and 2 samples, assembled in order [shard0, shard1]:
    // ranges are {shard0: 0..3, shard1: 3..5} and the matrix has 5 rows.
    let loader = new();
    let groups = vec![
        (
            ShardKey::OnChain(0),
            vec![("s0.csv".to_string(), b"1,2,3,4,9\n5,6,7,8,10\n9,9,9,9,11\n".to_vec())],
        ),
        (ShardKey::OnChain(1), vec![("s1.csv".to_string(), b"0,0,0,0,1\n1,1,1,1,2\n".to_vec())]),
    ];
    let (features, preds, ranges) = assemble(&loader, groups).unwrap();
    assert_eq!(features.len(), 5);
    assert_eq!(preds.len(), 5);
    assert_eq!(
        ranges,
        vec![
            RangeEntry { shard: ShardKey::OnChain(0), start: 0, end: 3 },
            RangeEntry { shard: ShardKey::OnChain(1), start: 3, end: 5 },
        ]
    );
}

#[test]
fn ranges_partition_all_sample_positions() {
    // Three runs of shard keys, one with the pending proposal: boundaries
    // at every key change, covering [0, n) with no gaps or overlaps.
    let loader = new();
    let inputs = vec![
        input("a.csv", ShardKey::OnChain(0), b"1,2,3,4,9\n"),
        input("b.csv", ShardKey::OnChain(0), b"1,2,3,4,9\n5,6,7,8,10\n"),
        input("c.csv", ShardKey::Pending, b"0,0,0,0,0\n"),
        input("d.csv", ShardKey::OnChain(2), b"\n"),
    ];
    let (features, _preds, ranges) = loader.load_all_samples(&inputs).unwrap();
    assert_eq!(features.len(), 4);
    assert_eq!(ranges.len(), 3);
    assert_eq!(ranges[0].start, 0);
    for w in ranges.windows(2) {
        assert_eq!(w[0].end, w[1].start);
        assert!(w[0].shard != w[1].shard);
    }
    assert_eq!(ranges[ranges.len() - 1].end, features.len());
    assert_eq!(ranges[1], RangeEntry { shard: ShardKey::Pending, start: 3, end: 4 });
}

#[test]
fn malformed_feature_cell_aborts_with_record_parse_error() {
    let loader = new();
    let inputs = vec![input("bad.csv", ShardKey::Pending, b"1,2,3,4,9\n1,oops,3,4,9\n")];
    let err = loader.load_all_samples(&inputs).unwrap_err();
    assert_eq!(err, LoadError::RecordParseError { path: "bad.csv".to_string(), row: 1 });
}

#[test]
fn malformed_label_aborts_with_record_parse_error() {
    let loader = new();
    let inputs = vec![input("bad.csv", ShardKey::Pending, b"1,2,3,4,notanumber\n")];
    let err = loader.load_all_samples(&inputs).unwrap_err();
    assert_eq!(err, LoadError::RecordParseError { path: "bad.csv".to_string(), row: 0 });
}

#[test]
fn ragged_rows_fail_with_schema_mismatch() {
    let loader = new();
    let inputs = vec![input("r.csv", ShardKey::Pending, b"1,2,3,4,9\n1,2,3,4,9,10\n")];
    assert_eq!(loader.load_all_samples(&inputs).unwrap_err(), LoadError::SchemaMismatch);
}

#[test]
fn label_column_outside_record_is_schema_mismatch() {
    let loader = new();
    // The default label column is 4; these records have only 3 cells.
    let inputs = vec![input("n.csv", ShardKey::Pending, b"1,2,3\n")];
    assert_eq!(loader.load_all_samples(&inputs).unwrap_err(), LoadError::SchemaMismatch);
}

#[test]
fn width_is_checked_across_files() {
    let loader = new();
    let inputs = vec![
        input("a.csv", ShardKey::OnChain(0), b"1,2,3,4,9\n"),
        input("b.csv", ShardKey::OnChain(1), b"1,2,3,4,9,10\n"),
    ];
    assert_eq!(loader.load_all_samples(&inputs).unwrap_err(), LoadError::SchemaMismatch);
}

fn tiny_png() -> Vec<u8> {
    let img = image::RgbImage::from_raw(2, 1, vec![10, 20, 30, 40, 50, 60]).unwrap();
    let mut bytes: Vec<u8> = Vec::new();
    image::DynamicImage::ImageRgb8(img)
        .write_to(&mut Cursor::new(&mut bytes), image::ImageFormat::Png)
        .unwrap();
    bytes
}

fn image_loader() -> ImageLoader {
    ImageLoader {
        predictor_extract_regex_lookaround: Pattern::new("label_[0-9]+").unwrap(),
        predictor_extract_regex_exact: Pattern::new("[0-9]+").unwrap(),
    }
}

#[test]
fn image_loader_extracts_pixels_and_label_from_name() {
    let loader = image_loader();
    let inputs = vec![input("dir/img_label_12.png", ShardKey::OnChain(0), &tiny_png())];
    let (features, preds, ranges) = loader.load_all_samples(&inputs).unwrap();
    assert_eq!(features, vec![vec![10u8, 20, 30, 40, 50, 60]]);
    assert_eq!(preds, vec![12]);
    assert_eq!(ranges, vec![RangeEntry { shard: ShardKey::OnChain(0), start: 0, end: 1 }]);
}

#[test]
fn undecodable_image_is_a_record_parse_error() {
    let loader = image_loader();
    let inputs = vec![input("x/label_3.png", ShardKey::Pending, b"not an image")];
    let err = loader.load_all_samples(&inputs).unwrap_err();
    assert_eq!(err, LoadError::RecordParseError { path: "x/label_3.png".to_string(), row: 0 });
}

#[test]
fn unmatched_file_name_is_a_record_parse_error() {
    let loader = image_loader();
    let inputs = vec![input("x/unnamed.png", ShardKey::Pending, &tiny_png())];
    let err = loader.load_all_samples(&inputs).unwrap_err();
    assert_eq!(err, LoadError::RecordParseError { path: "x/unnamed.png".to_string(), row: 0 });
}

#[test]
fn differing_pixel_counts_fail_with_schema_mismatch() {
    let img2 = image::RgbImage::from_raw(1, 1, vec![1, 2, 3]).unwrap();
    let mut small: Vec<u8> = Vec::new();
    image::DynamicImage::ImageRgb8(img2)
        .write_to(&mut Cursor::new(&mut small), image::ImageFormat::Png)
        .unwrap();
    let loader = image_loader();
    let inputs = vec![
        input("a/label_1.png", ShardKey::OnChain(0), &tiny_png()),
        input("b/label_2.png", ShardKey::OnChain(1), &small),
    ];
    assert_eq!(loader.load_all_samples(&inputs).unwrap_err(), LoadError::SchemaMismatch);
}

#[test]
fn parse_u32_accepts_decimal_numerals() {
    assert_eq!(parse_u32("0"), Some(0));
    assert_eq!(parse_u32("007"), Some(7));
    assert_eq!(parse_u32("4294967295"), Some(u32::MAX));
    assert_eq!(parse_u32("4294967296"), None);
    assert_eq!(parse_u32(""), None);
    assert_eq!(parse_u32("12a"), None);
    assert_eq!(parse_u32("-1"), None);
}

#[test]
fn numeric_cells_follow_the_literal_grammar() {
    assert!(is_numeric_cell("1"));
    assert!(is_numeric_cell("-12"));
    assert!(is_numeric_cell("+3.25"));
    assert!(is_numeric_cell("2.5e-3"));
    assert!(is_numeric_cell("7E10"));
    assert!(!is_numeric_cell(""));
    assert!(!is_numeric_cell("1."));
    assert!(!is_numeric_cell(".5"));
    assert!(!is_numeric_cell("e5"));
    assert!(!is_numeric_cell("1e"));
    assert!(!is_numeric_cell("abc"));
}
