use kcl_to_lsp::uri::adjust_canonicalization;
use kcl_to_lsp::uri::path_has_windows_drive;
use kcl_to_lsp::uri::url_from_file_path;
use kcl_to_lsp::uri::url_from_path;
use kcl_to_lsp::uri::url_from_path_with_drive_lowercasing;
use lsp_types::Url;

#[test]
fn non_windows_path_passes_through() {
    let direct = url_from_file_path("/foo/bar.k").unwrap();
    let normalized = url_from_path_with_drive_lowercasing("/foo/bar.k").unwrap();
    assert_eq!(direct, "file:///foo/bar.k");
    assert_eq!(normalized, direct);
    assert_eq!(url_from_path("/foo/bar.k").unwrap(), direct);
}

#[test]
fn non_windows_path_matches_url_crate() {
    for p in ["/", "/foo/bar.k", "/tmp/a b.k", "/x/y#z.k", "/a/b%c.k", "/s/\u{e4}\u{9ec4}\u{1f600}.k"] {
        let ours = url_from_path(p).unwrap();
        let theirs = Url::from_file_path(p).unwrap();
        assert_eq!(ours, theirs.as_str());
    }
}

#[test]
fn windows_drive_letter_lowercased() {
    let direct = url_from_file_path("C:\\foo\\bar.k").unwrap();
    assert_eq!(direct, "file:///C:/foo/bar.k");
    let normalized = url_from_path_with_drive_lowercasing("C:\\foo\\bar.k").unwrap();
    assert_eq!(normalized, "file:///c:/foo/bar.k");
}

#[test]
fn windows_drive_forward_slashes() {
    let normalized = url_from_path("D:/dir/file.k").unwrap();
    assert_eq!(normalized, "file:///d:/dir/file.k");
}

#[test]
fn verbatim_drive_lowercased() {
    let normalized = url_from_path("\\\\?\\C:\\dir\\f.k").unwrap();
    assert_eq!(normalized, "file:///c:/dir/f.k");
}

#[test]
fn windows_drive_detection() {
    assert!(path_has_windows_drive("C:\\foo"));
    assert!(path_has_windows_drive("c:/foo"));
    assert!(path_has_windows_drive("\\\\?\\C:\\foo"));
    assert!(!path_has_windows_drive("/foo/bar.k"));
    assert!(!path_has_windows_drive("foo/bar.k"));
    assert!(!path_has_windows_drive("\\\\?\\UNC\\server\\share"));
}

#[test]
fn relative_path_rejected() {
    let err = url_from_path("relative/path.k").unwrap_err();
    assert_eq!(err.path, "relative/path.k");
    assert_eq!(err.message(), "can't convert path to url: relative/path.k");
    assert!(url_from_path("").is_err());
}

#[test]
fn drive_without_separator_rejected() {
    assert!(url_from_path("C:").is_err());
    assert!(url_from_path("C:foo").is_err());
}

#[test]
fn percent_encoding_uppercase_hex() {
    let u = url_from_path("/tmp/a b#c.k").unwrap();
    assert_eq!(u, "file:///tmp/a%20b%23c.k");
    let v = url_from_path("/s/\u{e4}.k").unwrap();
    assert_eq!(v, "file:///s/%C3%A4.k");
}

#[test]
fn windows_path_space_encoded() {
    let u = url_from_path("C:\\My Dir\\f.k").unwrap();
    assert_eq!(u, "file:///c:/My%20Dir/f.k");
}

#[test]
fn canonicalization_strips_verbatim_prefix() {
    assert_eq!(adjust_canonicalization("\\\\?\\C:\\a.k"), "C:\\a.k");
    assert_eq!(adjust_canonicalization("/a.k"), "/a.k");
    assert_eq!(adjust_canonicalization("C:\\a.k"), "C:\\a.k");
}
