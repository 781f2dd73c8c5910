use simply_files::auth::{standalone_auth, trim_chars, strip_bearer, authenticate};
use simply_files::download::{
    basename, content_disposition, download_decision, get_mime_type, get_preview_data, qr_code,
    DownloadQuery, DownloadStream, PREVIEW_FILE_LIMIT,
};
use simply_files::error::ServiceError;
use simply_files::index::Index;
use simply_files::records::FileAccess;

fn query(r: Option<&str>, p: Option<&str>) -> DownloadQuery {
    DownloadQuery { r: r.map(|s| s.to_string()), p: p.map(|s| s.to_string()) }
}

fn private_file(index: &mut Index) {
    index.new_file("AAAAAAAAAA", "docs/a.txt", 1, 0).unwrap();
    index.successful_upload("AAAAAAAAAA", 11, 1);
}

#[test]
fn token_gate_accepts_cookie_and_bearer() {
    assert!(standalone_auth(Some("t0k"), None, "t0k"));
    assert!(standalone_auth(Some("  t0k  "), None, "t0k"));
    assert!(standalone_auth(None, Some("Bearer t0k"), "t0k"));
    assert!(standalone_auth(None, Some("t0k"), "t0k"));
    assert!(!standalone_auth(None, Some("Bearer wrong"), "t0k"));
    assert!(!standalone_auth(Some("wrong"), None, "t0k"));
    assert!(!standalone_auth(None, None, "t0k"));
    // the cookie wins over the header
    assert!(!standalone_auth(Some("wrong"), Some("Bearer t0k"), "t0k"));
}

#[test]
fn trim_and_bearer_helpers() {
    assert_eq!(trim_chars(" \t a b \n"), "a b");
    assert_eq!(trim_chars(""), "");
    assert_eq!(strip_bearer("Bearer x"), "x");
    assert_eq!(strip_bearer("Bearer Bearer x"), "x");
    assert_eq!(strip_bearer("nope"), "nope");
}

#[test]
fn login_compares_exactly() {
    assert!(authenticate("t0k", "t0k").is_ok());
    assert_eq!(
        authenticate("T0K", "t0k").unwrap_err(),
        ServiceError::Unauthorized
    );
}

#[test]
fn private_download_needs_a_token() {
    let mut index = Index::new();
    private_file(&mut index);
    let denied = download_decision(&index, "AAAAAAAAAA", &query(None, None), true, None, None, "t0k");
    let e = denied.err().unwrap();
    assert_eq!(e, ServiceError::Unauthorized);
    assert_eq!(e.status_code(), 401);

    let with_cookie = download_decision(
        &index,
        "AAAAAAAAAA",
        &query(None, None),
        true,
        Some("t0k"),
        None,
        "t0k",
    )
    .unwrap();
    assert_eq!(with_cookie.file.path, "docs/a.txt");
    assert!(!with_cookie.raw);

    let with_header = download_decision(
        &index,
        "AAAAAAAAAA",
        &query(None, None),
        true,
        None,
        Some("Bearer t0k"),
        "t0k",
    );
    assert!(with_header.is_ok());
}

#[test]
fn public_download_needs_no_token() {
    let mut index = Index::new();
    private_file(&mut index);
    index.change_access("AAAAAAAAAA", FileAccess::Public, 2);
    let plan =
        download_decision(&index, "AAAAAAAAAA", &query(None, None), true, None, None, "t0k").unwrap();
    assert_eq!(plan.mime_type, "text/plain");
}

#[test]
fn missing_record_or_bytes_is_not_found() {
    let mut index = Index::new();
    private_file(&mut index);
    let no_row = download_decision(&index, "ZZZZZZZZZZ", &query(None, None), true, None, None, "t0k");
    assert_eq!(no_row.unwrap_err(), ServiceError::NotFound);
    let no_bytes =
        download_decision(&index, "AAAAAAAAAA", &query(None, None), false, Some("t0k"), None, "t0k");
    assert_eq!(no_bytes.unwrap_err(), ServiceError::NotFound);
}

#[test]
fn preview_over_the_ceiling_is_refused() {
    let mut index = Index::new();
    index.new_file("AAAAAAAAAA", "big.bin", 1, 0).unwrap();
    index.successful_upload("AAAAAAAAAA", PREVIEW_FILE_LIMIT + 1, 1);
    let r = download_decision(
        &index,
        "AAAAAAAAAA",
        &query(None, Some("t")),
        true,
        Some("t0k"),
        None,
        "t0k",
    );
    assert_eq!(r.unwrap_err(), ServiceError::InvalidArgument);
    // a raw download of the same file is unbounded
    let raw = download_decision(
        &index,
        "AAAAAAAAAA",
        &query(Some("t"), None),
        true,
        Some("t0k"),
        None,
        "t0k",
    )
    .unwrap();
    assert!(raw.raw);
}

#[test]
fn completed_download_bumps_counter_exactly_once() {
    let mut index = Index::new();
    private_file(&mut index);
    let mut stream = DownloadStream::new("AAAAAAAAAA".to_string());
    assert!(!stream.is_end_stream());
    stream.on_eof();
    assert!(stream.is_end_stream());
    stream.finalize(&mut index, 77);
    let f = index.get_via_id("AAAAAAAAAA").unwrap();
    assert_eq!(f.download_count, 1);
    assert_eq!(f.last_downloaded_at, Some(77));
}

#[test]
fn cancelled_download_leaves_counter_alone() {
    let mut index = Index::new();
    private_file(&mut index);
    let stream = DownloadStream::new("AAAAAAAAAA".to_string());
    stream.finalize(&mut index, 77);
    let f = index.get_via_id("AAAAAAAAAA").unwrap();
    assert_eq!(f.download_count, 0);
    assert_eq!(f.last_downloaded_at, None);
}

#[test]
fn basename_and_disposition() {
    assert_eq!(basename("docs/a.txt"), "a.txt");
    assert_eq!(basename("a.txt"), "a.txt");
    assert_eq!(basename("docs/"), "");
    assert_eq!(
        content_disposition("docs/a b.txt"),
        "attachment; filename*=UTF-8''a%20b%2Etxt"
    );
}

#[test]
fn mime_type_guesses_with_fallback() {
    assert_eq!(get_mime_type("a.txt"), "text/plain");
    assert_eq!(get_mime_type("a.png"), "image/png");
    assert_eq!(get_mime_type("a.no_such_ext"), "application/octet-stream");
}

#[test]
fn preview_data_reports_the_record() {
    let mut index = Index::new();
    private_file(&mut index);
    let denied = get_preview_data(&index, "AAAAAAAAAA", true, false);
    assert_eq!(denied.unwrap_err(), ServiceError::Unauthorized);
    let d = get_preview_data(&index, "AAAAAAAAAA", true, true).unwrap();
    assert_eq!(d.size, 11);
    assert_eq!(d.file_name, "a.txt");
    assert_eq!(d.id, "AAAAAAAAAA");
    assert_eq!(d.mime_type, "text/plain");
    assert_eq!(d.access, 0);
    assert_eq!(d.path.as_deref(), Some("docs/a.txt"));
    assert!(!d.cant_preview);
}

#[test]
fn qr_code_renders_a_png_for_the_download_link() {
    let mut index = Index::new();
    private_file(&mut index);
    let url = "https://files.example".to_string();
    let png = qr_code(&index, "AAAAAAAAAA", false, None, Some(&url), true, true).unwrap();
    assert_eq!(&png[0..8], &[0x89, b'P', b'N', b'G', b'\r', b'\n', 0x1a, b'\n']);
    let missing_url = qr_code(&index, "AAAAAAAAAA", true, None, Some(&url), true, true);
    assert_eq!(missing_url.unwrap_err(), ServiceError::Internal);
    let unauthorized = qr_code(&index, "AAAAAAAAAA", false, None, Some(&url), true, false);
    assert_eq!(unauthorized.unwrap_err(), ServiceError::Unauthorized);
}
