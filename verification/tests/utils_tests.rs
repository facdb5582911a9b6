use transcriptor::utils::{
    extract_domain, format_duration, format_file_size, generate_unique_filename,
    normalize_language_code, sanitize_filename, validate_and_normalize_url,
};
use transcriptor::TranscriptorError;

#[test]
fn test_format_file_size() {
    assert_eq!(format_file_size(0), "0 B");
    assert_eq!(format_file_size(512), "512 B");
    assert_eq!(format_file_size(1024), "1.0 KB");
    assert_eq!(format_file_size(1536), "1.5 KB");
    assert_eq!(format_file_size(1048576), "1.0 MB");
}

#[test]
fn test_format_file_size_larger_units() {
    assert_eq!(format_file_size(1073741824), "1.0 GB");
    assert_eq!(format_file_size(1099511627776), "1.0 TB");
    assert_eq!(format_file_size(1023), "1023 B");
    assert_eq!(format_file_size(1587), "1.5 KB");
}

#[test]
fn test_format_duration() {
    assert_eq!(format_duration(30), "30s");
    assert_eq!(format_duration(90), "1m 30s");
    assert_eq!(format_duration(3661), "1h 1m 1s");
}

#[test]
fn test_format_duration_zero() {
    assert_eq!(format_duration(0), "0s");
    assert_eq!(format_duration(3600), "1h 0m 0s");
}

#[test]
fn test_sanitize_filename() {
    assert_eq!(sanitize_filename("Hello World!"), "Hello World_");
    assert_eq!(sanitize_filename("test/file?name"), "test_file_name");
    assert_eq!(sanitize_filename("  spaced  "), "spaced");
}

#[test]
fn test_normalize_language_code() {
    assert_eq!(normalize_language_code("en"), "en-US");
    assert_eq!(normalize_language_code("English"), "en-US");
    assert_eq!(normalize_language_code("es"), "es-ES");
    assert_eq!(normalize_language_code("zh-TW"), "zh-TW");
}

#[test]
fn test_extract_domain() {
    assert_eq!(
        extract_domain("https://www.youtube.com/watch?v=123"),
        Some("youtube.com".to_string())
    );
    assert_eq!(
        extract_domain("https://twitter.com/user/status/123"),
        Some("twitter.com".to_string())
    );
    assert_eq!(extract_domain("invalid-url"), None);
}

#[test]
fn test_validate_and_normalize_url() {
    assert!(validate_and_normalize_url("https://example.com").is_ok());
    assert!(validate_and_normalize_url("http://example.com").is_ok());
    assert!(validate_and_normalize_url("ftp://example.com").is_err());
    assert!(validate_and_normalize_url("not-a-url").is_err());
}

#[test]
fn test_validate_url_error_details() {
    match validate_and_normalize_url("not-a-url") {
        Err(TranscriptorError::UnsupportedUrl(m)) => {
            assert_eq!(m, "Invalid URL format: not-a-url");
        }
        other => panic!("expected UnsupportedUrl, got {:?}", other),
    }
    match validate_and_normalize_url("ftp://example.com") {
        Err(TranscriptorError::UnsupportedUrl(m)) => {
            assert_eq!(m, "URL must use HTTP or HTTPS protocol");
        }
        other => panic!("expected UnsupportedUrl, got {:?}", other),
    }
    // The Ok value is the url crate's normalized serialization.
    assert_eq!(
        validate_and_normalize_url("https://example.com").unwrap(),
        "https://example.com/"
    );
}

#[test]
fn test_generate_unique_filename_shape() {
    let name = generate_unique_filename("My File!", "mp3");
    assert!(name.starts_with("transcriptor_My File__"));
    assert!(name.ends_with(".mp3"));
    // The eight random characters come from a fresh UUID each time.
    let again = generate_unique_filename("My File!", "mp3");
    assert_ne!(name, again);
}
