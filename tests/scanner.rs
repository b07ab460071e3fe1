use miktos_kosmos::classify::{
    classify_extension, is_image_extension, is_suspicious_name, is_video_extension,
    screenshot_by_name_and_size,
};
use miktos_kosmos::dates::{capture_date_from_fields, is_before, parse_exif_datetime, parse_number};
use miktos_kosmos::scanner::{calculate_hash, compute_stats, extract_exif_date, FileFacts, Scanner};
use miktos_kosmos::text::hex_string;
use miktos_kosmos::types::{FileMetadata, FileType, Timestamp};

fn at(year: i32, month: u32, day: u32, hour: u32, minute: u32, second: u32) -> Timestamp {
    Timestamp { year, month, day, hour, minute, second }
}

fn facts(name: &str, size: u64, modified: Option<Timestamp>) -> FileFacts {
    FileFacts {
        path: format!("/photos/{name}"),
        file_name: name.to_string(),
        file_size: size,
        created_at: None,
        modified_at: modified,
    }
}

fn image(name: &str, size: u64, hash: &str, dims: Option<(u32, u32)>, taken: Option<Timestamp>) -> FileMetadata {
    FileMetadata {
        path: format!("/photos/{name}"),
        file_name: name.to_string(),
        file_size: size,
        file_type: FileType::Image,
        created_at: None,
        modified_at: None,
        date_taken: taken,
        width: dims.map(|d| d.0),
        height: dims.map(|d| d.1),
        duration: None,
        page_count: None,
        hash: hash.to_string(),
        is_screenshot: false,
        is_duplicate: false,
        camera_make: None,
        camera_model: None,
    }
}

#[test]
fn sha256_of_known_input() {
    assert_eq!(
        calculate_hash(b"abc"),
        "ba7816bf8f01cfea414140de5dae2223b00361a396177a9cb410ff61f20015ad"
    );
    assert_eq!(
        calculate_hash(b""),
        "e3b0c44298fc1c149afbf4c8996fb92427ae41e4649b934ca495991b7852b855"
    );
}

#[test]
fn hash_is_repeatable() {
    let data = b"the same bytes twice".to_vec();
    assert_eq!(calculate_hash(&data), calculate_hash(&data.clone()));
    assert_ne!(calculate_hash(b"a"), calculate_hash(b"b"));
}

#[test]
fn hex_is_lower_case_two_digits_per_byte() {
    assert_eq!(hex_string(&[0x00, 0x0f, 0xab, 0xff]), "000fabff");
}

#[test]
fn extensions_are_classified() {
    assert!(is_image_extension("jpg"));
    assert!(is_image_extension("tif"));
    assert!(!is_image_extension("JPG"));
    assert!(is_video_extension("3gp"));
    assert!(!is_video_extension("txt"));
    assert_eq!(classify_extension("webm"), Some(FileType::Video));
    assert_eq!(classify_extension("heic"), Some(FileType::Image));
    assert_eq!(classify_extension("pdf"), None);
}

#[test]
fn media_kind_ignores_case() {
    let scanner = Scanner::new("/photos");
    assert_eq!(scanner.root_path, "/photos");
    assert_eq!(scanner.media_kind("JPEG"), Some(FileType::Image));
    assert_eq!(scanner.media_kind("Mov"), Some(FileType::Video));
    assert_eq!(scanner.media_kind("docx"), None);
}

/// A little-endian TIFF whose primary IFD holds one `DateTime` tag.
fn tiff_with_datetime(text: &[u8; 19]) -> Vec<u8> {
    let mut t = vec![0x49, 0x49, 0x2a, 0x00, 0x08, 0x00, 0x00, 0x00];
    t.extend_from_slice(&[0x01, 0x00]);
    t.extend_from_slice(&[0x32, 0x01, 0x02, 0x00, 0x14, 0x00, 0x00, 0x00, 0x1a, 0x00, 0x00, 0x00]);
    t.extend_from_slice(&[0x00, 0x00, 0x00, 0x00]);
    t.extend_from_slice(text);
    t.push(0);
    t
}

#[test]
fn exif_datetime_tag_is_read() {
    let tiff = tiff_with_datetime(b"2021:02:03 04:05:06");
    assert_eq!(extract_exif_date(&tiff), Some(at(2021, 2, 3, 4, 5, 6)));
    let scanner = Scanner::new("/photos");
    let r = scanner.process_image(facts("scan.tif", 46, Some(at(2000, 1, 1, 0, 0, 0))), &tiff);
    assert_eq!(r.date_taken, Some(at(2021, 2, 3, 4, 5, 6)));
    assert_eq!(r.modified_at, Some(at(2000, 1, 1, 0, 0, 0)));
}

#[test]
fn screenshot_name_ignores_case() {
    let scanner = Scanner::new("/");
    assert!(scanner.is_likely_screenshot("Screen_Shot.PNG", None, None));
    assert!(!screenshot_by_name_and_size("Screen_Shot.PNG", None, None));
}

#[test]
fn screenshot_by_name() {
    let scanner = Scanner::new("/");
    assert!(scanner.is_likely_screenshot("Screenshot 2023-01-01.png", None, None));
    assert!(scanner.is_likely_screenshot("my screen shot.png", None, None));
    assert!(scanner.is_likely_screenshot("SCREEN_001.png", None, None));
    assert!(!scanner.is_likely_screenshot("my_screen_001.png", None, None));
}

#[test]
fn screenshot_by_dimensions() {
    assert!(screenshot_by_name_and_size("a.png", Some(1920), Some(1080)));
    assert!(screenshot_by_name_and_size("a.png", Some(1080), Some(1920)));
    assert!(!screenshot_by_name_and_size("a.png", Some(1080), Some(2340)));
    assert!(!screenshot_by_name_and_size("a.png", Some(1080), Some(2400)));
    assert!(!screenshot_by_name_and_size("a.png", Some(1284), Some(2778)));
    assert!(!screenshot_by_name_and_size("a.png", Some(1280), Some(720)));
    assert!(!screenshot_by_name_and_size("a.png", Some(1920), None));
}

#[test]
fn suspicious_names() {
    assert!(is_suspicious_name("funny_cat.jpg"));
    assert!(is_suspicious_name("img_0001.jpg"));
    assert!(is_suspicious_name("download (3).png"));
    assert!(!is_suspicious_name("holiday.jpg"));
}

#[test]
fn exif_datetime_parses() {
    assert_eq!(parse_exif_datetime(b"2023:01:15 10:30:45"), Some(at(2023, 1, 15, 10, 30, 45)));
    assert_eq!(parse_exif_datetime(b"2024:02:29 00:00:00"), Some(at(2024, 2, 29, 0, 0, 0)));
}

#[test]
fn exif_datetime_rejects_bad_text() {
    assert_eq!(parse_exif_datetime(b"2023:02:29 10:30:45"), None);
    assert_eq!(parse_exif_datetime(b"2023:13:01 10:30:45"), None);
    assert_eq!(parse_exif_datetime(b"2023:01:01 24:00:00"), None);
    assert_eq!(parse_exif_datetime(b"2023:01:01  10:30:45"), None);
    assert_eq!(parse_exif_datetime(b"2023-01-01 10:30:45"), None);
    assert_eq!(parse_exif_datetime(b"2023:01:01"), None);
    assert_eq!(parse_exif_datetime(b""), None);
}

#[test]
fn numbers_parse() {
    assert_eq!(parse_number(&b"0042".to_vec()), Some(42));
    assert_eq!(parse_number(&b"4294967295".to_vec()), Some(4294967295));
    assert_eq!(parse_number(&b"4294967296".to_vec()), None);
    assert_eq!(parse_number(&b"4a".to_vec()), None);
    assert_eq!(parse_number(&Vec::new()), None);
}

#[test]
fn capture_date_prefers_original_tag() {
    let original = Some(vec![b"2020:05:06 07:08:09".to_vec()]);
    let generic = Some(vec![b"2021:01:01 00:00:00".to_vec()]);
    assert_eq!(capture_date_from_fields(&original, &generic), Some(at(2020, 5, 6, 7, 8, 9)));
    assert_eq!(capture_date_from_fields(&None, &generic), Some(at(2021, 1, 1, 0, 0, 0)));
    assert_eq!(capture_date_from_fields(&Some(Vec::new()), &generic), Some(at(2021, 1, 1, 0, 0, 0)));
    let broken = Some(vec![b"garbage".to_vec()]);
    assert_eq!(capture_date_from_fields(&broken, &generic), None);
    assert_eq!(capture_date_from_fields(&None, &None), None);
}

#[test]
fn no_exif_in_plain_bytes() {
    assert_eq!(extract_exif_date(b"not an image"), None);
}

#[test]
fn timestamps_order_by_fields() {
    assert!(is_before(&at(2020, 12, 31, 23, 59, 59), &at(2021, 1, 1, 0, 0, 0)));
    assert!(!is_before(&at(2021, 1, 1, 0, 0, 0), &at(2021, 1, 1, 0, 0, 0)));
    assert!(is_before(&at(2021, 1, 1, 0, 0, 0), &at(2021, 1, 1, 0, 0, 1)));
}

#[test]
fn image_record_falls_back_to_modified_time() {
    let scanner = Scanner::new("/photos");
    let modified = Some(at(2019, 3, 4, 5, 6, 7));
    let r = scanner.process_image(facts("screenshot_1.png", 10, modified), b"plain bytes");
    assert_eq!(r.file_type, FileType::Image);
    assert_eq!(r.date_taken, modified);
    assert_eq!(r.width, None);
    assert_eq!(r.hash, calculate_hash(b"plain bytes"));
    assert!(r.is_screenshot);
    assert!(!r.is_duplicate);
    assert_eq!(r.path, "/photos/screenshot_1.png");
}

#[test]
fn png_header_gives_dimensions() {
    let png: Vec<u8> = vec![
        0x89, 0x50, 0x4e, 0x47, 0x0d, 0x0a, 0x1a, 0x0a, 0x00, 0x00, 0x00, 0x0d, 0x49, 0x48, 0x44,
        0x52, 0x00, 0x00, 0x00, 0x01, 0x00, 0x00, 0x00, 0x01, 0x08, 0x06, 0x00, 0x00, 0x00, 0x1f,
        0x15, 0xc4, 0x89, 0x00, 0x00, 0x00, 0x0d, 0x49, 0x44, 0x41, 0x54, 0x78, 0xda, 0x63, 0x64,
        0x60, 0xf8, 0x5f, 0x0f, 0x00, 0x02, 0x87, 0x01, 0x80, 0xeb, 0x47, 0xba, 0x92, 0x00, 0x00,
        0x00, 0x00, 0x49, 0x45, 0x4e, 0x44, 0xae, 0x42, 0x60, 0x82,
    ];
    let scanner = Scanner::new("/photos");
    let r = scanner.process_image(facts("holiday.png", 70, None), &png);
    assert_eq!(r.width, Some(1));
    assert_eq!(r.height, Some(1));
    assert!(!r.is_screenshot);
    assert_eq!(r.date_taken, None);
}

#[test]
fn video_record() {
    let scanner = Scanner::new("/photos");
    let r = scanner.process_video(facts("clip.mp4", 99, Some(at(2020, 1, 1, 0, 0, 0))), b"video");
    assert_eq!(r.file_type, FileType::Video);
    assert_eq!(r.date_taken, None);
    assert_eq!(r.file_size, 99);
    assert!(!r.is_screenshot);
    assert_eq!(r.hash, calculate_hash(b"video"));
}

#[test]
fn stats_count_everything() {
    let files = vec![
        image("a.jpg", 100, "h1", Some((640, 480)), None),
        image("meme.jpg", 600_000, "h1", Some((1920, 1080)), Some(at(2020, 1, 1, 0, 0, 0))),
        image("c.jpg", 600_000, "h1", None, Some(at(2022, 6, 1, 0, 0, 0))),
        image("d.jpg", 600_000, "h2", None, Some(at(2021, 6, 1, 0, 0, 0))),
    ];
    let stats = compute_stats(&files);
    assert_eq!(stats.total_files, 4);
    assert_eq!(stats.file_types.images, 4);
    assert_eq!(stats.file_types.videos, 0);
    assert_eq!(stats.duplicates, 2);
    assert_eq!(stats.quality.duplicates, 2);
    assert_eq!(stats.quality.low_resolution, 1);
    assert_eq!(stats.quality.small_files, 1);
    assert_eq!(stats.quality.missing_metadata, 1);
    assert_eq!(stats.quality.potential_memes, 1);
    assert_eq!(stats.total_size, 1_800_100);
    assert_eq!(stats.date_range, Some((at(2020, 1, 1, 0, 0, 0), at(2022, 6, 1, 0, 0, 0))));
}

#[test]
fn stats_of_nothing() {
    let stats = compute_stats(&Vec::new());
    assert_eq!(stats.total_files, 0);
    assert_eq!(stats.duplicates, 0);
    assert_eq!(stats.date_range, None);
}

#[test]
fn scan_keeps_records_and_root() {
    let scanner = Scanner::new("/photos");
    let files = vec![image("a.jpg", 1, "x", None, None)];
    let result = scanner.scan(files);
    assert_eq!(result.root_path, "/photos");
    assert_eq!(result.files.len(), 1);
    assert_eq!(result.stats.total_files, 1);
}

#[test]
fn progress_every_tenth_and_last() {
    assert!(Scanner::progress_due(10, 25));
    assert!(Scanner::progress_due(25, 25));
    assert!(!Scanner::progress_due(11, 25));
}
