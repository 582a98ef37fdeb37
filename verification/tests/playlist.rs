use alastor::error::AlastorError;
use alastor::playlist::{extract_stream_url, needs_playlist_resolution, resolve_playlist_body};

#[test]
fn playlist_body_yields_first_http_line() {
    let body = "#EXTM3U\n#comment\nhttp://stream.example/live";
    assert_eq!(extract_stream_url(body), Some("http://stream.example/live".to_string()));
}

#[test]
fn playlist_without_http_line_is_unavailable() {
    let body = "#EXTM3U\n#comment\njust a title";
    let err = resolve_playlist_body("http://host.example/list.m3u", Some(body)).unwrap_err();
    assert!(
        matches!(err, AlastorError::StreamUnavailable { url } if url == "http://host.example/list.m3u")
    );
}

#[test]
fn failed_fetch_is_unavailable() {
    let err = resolve_playlist_body("http://host.example/list.pls", None).unwrap_err();
    assert!(
        matches!(err, AlastorError::StreamUnavailable { url } if url == "http://host.example/list.pls")
    );
}

#[test]
fn resolved_body_comes_back_ok() {
    let body = "#EXTM3U\nhttp://stream.example/a\nhttp://stream.example/b";
    let url = resolve_playlist_body("http://host.example/list.m3u8", Some(body)).unwrap();
    assert_eq!(url, "http://stream.example/a");
}

#[test]
fn lines_are_trimmed_before_the_checks() {
    let body = "#EXTM3U\r\n   http://stream.example/live   \r\n";
    assert_eq!(extract_stream_url(body), Some("http://stream.example/live".to_string()));
}

#[test]
fn non_http_lines_are_skipped_not_fatal() {
    let body = "Some Title\nicy://legacy.example\nhttp://stream.example/live";
    assert_eq!(extract_stream_url(body), Some("http://stream.example/live".to_string()));
}

#[test]
fn blank_lines_and_comments_are_skipped() {
    let body = "\n   \n# a comment\n\nhttp://stream.example/live\n";
    assert_eq!(extract_stream_url(body), Some("http://stream.example/live".to_string()));
}

#[test]
fn empty_body_has_no_stream() {
    assert_eq!(extract_stream_url(""), None);
}

#[test]
fn https_lines_qualify_too() {
    let body = "https://stream.example/secure";
    assert_eq!(extract_stream_url(body), Some("https://stream.example/secure".to_string()));
}

#[test]
fn playlist_suffixes_need_resolution() {
    assert!(needs_playlist_resolution("http://host.example/list.m3u"));
    assert!(needs_playlist_resolution("http://host.example/list.m3u8"));
    assert!(needs_playlist_resolution("http://host.example/list.pls"));
}

#[test]
fn suffix_check_is_case_sensitive_and_exact() {
    assert!(!needs_playlist_resolution("http://host.example/list.M3U"));
    assert!(!needs_playlist_resolution("http://host.example/list.PLS"));
    assert!(!needs_playlist_resolution("http://host.example/stream"));
    assert!(!needs_playlist_resolution("http://host.example/stream.mp3"));
}
