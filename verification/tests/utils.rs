use webp_converter::utils::{
    format_size, generate_output_path, generate_output_path_in_folder, is_supported_extension,
    is_webp_file, resolve_output_path, supported_extensions,
};

#[test]
fn test_format_size() {
    assert_eq!(format_size(512), "512.0 B");
    assert_eq!(format_size(1536), "1.5 KB");
    assert_eq!(format_size(1048576), "1.0 MB");
    assert_eq!(format_size(1073741824), "1.0 GB");
}

#[test]
fn test_format_size_edges() {
    assert_eq!(format_size(0), "0.0 B");
    assert_eq!(format_size(1023), "1023.0 B");
    assert_eq!(format_size(1024), "1.0 KB");
    // exactly half a tenth rounds to the even neighbour
    assert_eq!(format_size(1280), "1.2 KB");
    // just below the unit boundary the shown value may round up to 1024.0
    assert_eq!(format_size(1048575), "1024.0 KB");
    assert_eq!(format_size(1099511627776), "1.0 TB");
    // the unit caps at TB even for astronomically large sizes
    assert_eq!(format_size(u64::MAX), "16777216.0 TB");
}

#[test]
fn test_is_webp_file() {
    assert!(is_webp_file("test.webp"));
    assert!(is_webp_file("test.WEBP"));
    assert!(!is_webp_file("test.jpg"));
    assert!(!is_webp_file("test"));
}

#[test]
fn test_is_supported_extension() {
    assert!(is_supported_extension("test.jpg"));
    assert!(is_supported_extension("test.png"));
    assert!(is_supported_extension("test.tiff"));
    assert!(!is_supported_extension("test.webp"));
    assert!(!is_supported_extension("test.txt"));
}

#[test]
fn test_extension_checks_case_insensitive() {
    assert!(is_supported_extension("test.JPG"));
    assert!(is_supported_extension("test.Jpeg"));
    assert!(!is_supported_extension("TEST"));
    assert!(is_webp_file("dir/Photo.WebP"));
}

#[test]
fn test_supported_extensions_list() {
    let exts = supported_extensions();
    assert_eq!(exts, vec!["jpg", "jpeg", "png", "bmp", "tiff", "tif", "gif"]);
}

#[test]
fn test_generate_output_path() {
    assert_eq!(generate_output_path("photo.jpg"), "photo.webp");
}

#[test]
fn test_generate_output_path_edges() {
    // extension replaced, not appended
    assert_eq!(generate_output_path("archive.tar.gz"), "archive.tar.webp");
    // no extension: .webp is attached
    assert_eq!(generate_output_path("photo"), "photo.webp");
    // a leading dot alone does not make an extension
    assert_eq!(generate_output_path(".hidden"), ".hidden.webp");
    // only the final component is touched
    assert_eq!(generate_output_path("some.dir/photo.jpg"), "some.dir/photo.webp");
    assert_eq!(generate_output_path("some.dir/photo"), "some.dir/photo.webp");
}

#[test]
fn test_generate_output_path_degenerate() {
    // trailing separators and current-directory segments still land on
    // the file name
    assert_eq!(generate_output_path("dir/"), "dir.webp");
    assert_eq!(generate_output_path("a/."), "a.webp");
    // paths without a file name are left unchanged
    assert_eq!(generate_output_path(""), "");
    assert_eq!(generate_output_path("."), ".");
    assert_eq!(generate_output_path(".."), "..");
    assert_eq!(generate_output_path("dir/.."), "dir/..");
    assert_eq!(generate_output_path("/"), "/");
}

#[test]
fn test_generate_output_path_idempotent() {
    assert_eq!(generate_output_path("photo.webp"), "photo.webp");
    assert_eq!(
        generate_output_path(&generate_output_path("photo.jpg")),
        "photo.webp"
    );
    assert_eq!(generate_output_path(&generate_output_path("dir/")), "dir.webp");
}

#[test]
fn test_generate_output_path_in_folder() {
    assert_eq!(generate_output_path_in_folder("dir/photo.jpg", "out"), "out/photo.webp");
    assert_eq!(generate_output_path_in_folder("photo.png", "converted"), "converted/photo.webp");
}

#[test]
fn test_resolve_output_path() {
    assert_eq!(resolve_output_path("a/p.jpg", Some("explicit.webp"), Some("out")), "explicit.webp");
    assert_eq!(resolve_output_path("a/p.jpg", None, Some("out")), "out/p.webp");
    assert_eq!(resolve_output_path("a/p.jpg", None, None), "a/p.webp");
}
