use webp_converter::converter::{
    check_encoded_output, classify_input, filter_batch_candidates, filter_image_files,
    is_valid_image, plan_batch, BatchAction, ConversionStats, InputKind, WebPConverter,
};
use webp_converter::error::WebPError;

#[test]
fn test_converter_creation() {
    let converter = WebPConverter::new(80, false, 4);
    assert_eq!(converter.quality, 80);
    assert!(!converter.lossless);
    assert_eq!(converter.method, 4);
}

#[test]
fn test_conversion_stats() {
    let mut stats = ConversionStats::new();
    stats.add_success(1500, 1000, 200);
    stats.add_success(2000, 1500, 300);
    stats.add_failure();

    assert_eq!(stats.success_count, 2);
    assert_eq!(stats.failed_count, 1);
    assert_eq!(stats.total_time_ms, 3500);
    assert_eq!(stats.total_original_size, Some(2500));
    assert_eq!(stats.total_compressed_size, Some(500));
}

#[test]
fn test_stats_totals_absent_until_first_success() {
    let mut stats = ConversionStats::new();
    assert_eq!(stats.success_count, 0);
    assert_eq!(stats.failed_count, 0);
    assert_eq!(stats.total_time_ms, 0);
    assert_eq!(stats.total_original_size, None);
    assert_eq!(stats.total_compressed_size, None);
    stats.add_failure();
    assert_eq!(stats.total_original_size, None);
    assert_eq!(stats.total_compressed_size, None);
    stats.add_success(5, 10, 4);
    assert_eq!(stats.total_original_size, Some(10));
    assert_eq!(stats.total_compressed_size, Some(4));
}

#[test]
fn test_stats_order_independent() {
    let mut a = ConversionStats::new();
    a.add_success(1500, 1000, 200);
    a.add_failure();
    a.add_success(2000, 1500, 300);

    let mut b = ConversionStats::new();
    b.add_failure();
    b.add_success(2000, 1500, 300);
    b.add_success(1500, 1000, 200);

    assert_eq!(a.success_count, b.success_count);
    assert_eq!(a.failed_count, b.failed_count);
    assert_eq!(a.total_time_ms, b.total_time_ms);
    assert_eq!(a.total_original_size, b.total_original_size);
    assert_eq!(a.total_compressed_size, b.total_compressed_size);
}

#[test]
fn test_effective_quality() {
    assert_eq!(WebPConverter::new(80, false, 4).effective_quality(), 80);
    assert_eq!(WebPConverter::new(50, true, 4).effective_quality(), 100);
}

#[test]
fn test_empty_batch_fails_with_no_images_found() {
    let files: Vec<String> = Vec::new();
    let plan = plan_batch(&files);
    assert!(matches!(plan, Err(WebPError::NoImagesFound)));
}

#[test]
fn test_batch_skips_existing_webp() {
    let files = vec![String::from("photo.jpg"), String::from("old.webp")];
    let plan = plan_batch(&files).unwrap();
    assert_eq!(plan.len(), 2);
    match &plan[0] {
        BatchAction::Convert { input, output } => {
            assert_eq!(input, "photo.jpg");
            assert_eq!(output, "photo.webp");
        }
        _ => panic!("first candidate should be converted"),
    }
    match &plan[1] {
        BatchAction::Skip { input } => assert_eq!(input, "old.webp"),
        _ => panic!("pre-existing .webp should be skipped, not converted"),
    }
    // exactly one file is converted and the skipped one is not a failure
    let mut stats = ConversionStats::new();
    for action in &plan {
        if let BatchAction::Convert { .. } = action {
            stats.add_success(10, 1000, 300);
        }
    }
    assert_eq!(stats.success_count, 1);
    assert_eq!(stats.failed_count, 0);
}

#[test]
fn test_batch_continues_past_one_corrupt_file() {
    let files = vec![
        String::from("a.jpg"),
        String::from("corrupt.png"),
        String::from("c.gif"),
    ];
    let plan = plan_batch(&files);
    // the batch itself succeeds; a single file's failure never aborts it
    let plan = plan.unwrap();
    assert_eq!(plan.len(), 3);
    let mut stats = ConversionStats::new();
    for (i, action) in plan.iter().enumerate() {
        match action {
            BatchAction::Convert { .. } => {
                if i == 1 {
                    stats.add_failure();
                } else {
                    stats.add_success(10, 1000, 300);
                }
            }
            BatchAction::Skip { .. } => {}
        }
    }
    assert_eq!(stats.success_count, 2);
    assert_eq!(stats.failed_count, 1);
}

#[test]
fn test_filter_image_files() {
    let entries = vec![
        String::from("a.jpg"),
        String::from("notes.txt"),
        String::from("done.webp"),
        String::from("b.PNG"),
        String::from("noext"),
    ];
    let filtered = filter_image_files(&entries);
    assert_eq!(filtered, vec![String::from("a.jpg"), String::from("b.PNG")]);
}

#[test]
fn test_filter_batch_candidates_keeps_webp() {
    let entries = vec![
        String::from("a.jpg"),
        String::from("notes.txt"),
        String::from("done.webp"),
        String::from("b.PNG"),
    ];
    let candidates = filter_batch_candidates(&entries);
    assert_eq!(
        candidates,
        vec![
            String::from("a.jpg"),
            String::from("done.webp"),
            String::from("b.PNG"),
        ]
    );
}

#[test]
fn test_batch_of_only_webp_files_finds_no_images() {
    // nothing eligible for conversion: the batch fails before any work
    let files = vec![String::from("a.webp"), String::from("b.WEBP")];
    let plan = plan_batch(&files);
    assert!(matches!(plan, Err(WebPError::NoImagesFound)));
}

// A 2x1 pixel 24-bit BMP: left pixel red, right pixel green.
fn tiny_bmp() -> Vec<u8> {
    vec![
        0x42, 0x4D, // "BM"
        62, 0, 0, 0, // file size
        0, 0, 0, 0, // reserved
        54, 0, 0, 0, // pixel data offset
        40, 0, 0, 0, // info header size
        2, 0, 0, 0, // width
        1, 0, 0, 0, // height
        1, 0, // planes
        24, 0, // bits per pixel
        0, 0, 0, 0, // no compression
        8, 0, 0, 0, // image size
        0, 0, 0, 0, // x pixels per meter
        0, 0, 0, 0, // y pixels per meter
        0, 0, 0, 0, // colors used
        0, 0, 0, 0, // important colors
        0, 0, 255, // left pixel, BGR red
        0, 255, 0, // right pixel, BGR green
        0, 0, // row padding
    ]
}

#[test]
fn test_is_valid_image() {
    assert!(is_valid_image(&tiny_bmp()));
    assert!(!is_valid_image(&[0, 1, 2, 3]));
}

#[test]
fn test_prepare_image_decodes_to_rgb() {
    let converter = WebPConverter::new(80, false, 4);
    let img = converter.prepare_image("tiny.bmp", &tiny_bmp()).unwrap();
    assert_eq!(img.width, 2);
    assert_eq!(img.height, 1);
    assert_eq!(img.pixels, vec![255, 0, 0, 0, 255, 0]);
}

#[test]
fn test_prepare_image_rejects_corrupt_data() {
    let converter = WebPConverter::new(80, false, 4);
    let r = converter.prepare_image("bad.jpg", &[0, 1, 2, 3]);
    match r {
        Err(WebPError::InvalidImage(p)) => assert_eq!(p, "bad.jpg"),
        _ => panic!("corrupt data must be reported as an invalid image"),
    }
}

#[test]
fn test_check_encoded_output() {
    assert!(check_encoded_output(&vec![1, 2, 3]).is_ok());
    match check_encoded_output(&Vec::new()) {
        Err(WebPError::EncodingError(m)) => {
            assert_eq!(m, "Failed to encode WebP - empty result");
        }
        _ => panic!("zero-byte encoder output must be an encoding error"),
    }
}

#[test]
fn test_classify_input() {
    assert!(matches!(
        classify_input("x", false, false, false),
        Err(WebPError::InputNotFound(p)) if p == "x"
    ));
    assert!(matches!(classify_input("x", true, true, false), Ok(InputKind::File)));
    assert!(matches!(classify_input("x", true, false, true), Ok(InputKind::Directory)));
    assert!(matches!(
        classify_input("/dev/null", true, false, false),
        Err(WebPError::InvalidInputType(p)) if p == "/dev/null"
    ));
}

#[test]
fn test_error_describe() {
    assert_eq!(
        WebPError::NoImagesFound.describe(),
        "No supported image files found in directory"
    );
    assert_eq!(
        WebPError::InputNotFound(String::from("missing")).describe(),
        "Input file or directory not found: missing"
    );
}
