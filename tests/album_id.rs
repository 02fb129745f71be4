use imgur_album::{extract_album_id_from_argument, is_ascii_alphanumeric, parse_album_argument, AlbumRefError};

#[test]
fn extract_album_id_() {
    assert_eq!(
        extract_album_id_from_argument("https://imgur.com/gallery/vNOUshX"),
        Some("vNOUshX")
    );
    assert_eq!(
        extract_album_id_from_argument("https://imgur.com/a/vNOUshX"),
        Some("vNOUshX")
    );
    assert_eq!(extract_album_id_from_argument("aA1b"), Some("aA1b"));
}

#[test]
fn bare_ids_stand_for_themselves() {
    for s in ["a", "Z", "0", "vNOUshX", "abcXYZ0189"] {
        assert_eq!(extract_album_id_from_argument(s), Some(s));
    }
}

#[test]
fn last_segment_is_taken() {
    assert_eq!(extract_album_id_from_argument("x/abc"), Some("abc"));
    assert_eq!(extract_album_id_from_argument("/abc"), Some("abc"));
    assert_eq!(extract_album_id_from_argument("a/b/c/D9"), Some("D9"));
    assert_eq!(extract_album_id_from_argument("https://ïmgür.com/a/xY1"), Some("xY1"));
}

#[test]
fn invalid_references_are_rejected() {
    assert_eq!(extract_album_id_from_argument(""), None);
    assert_eq!(extract_album_id_from_argument("abc/"), None);
    assert_eq!(extract_album_id_from_argument("https://imgur.com/a/"), None);
    assert_eq!(extract_album_id_from_argument("ab-cd"), None);
    assert_eq!(extract_album_id_from_argument("a/b-c"), None);
    assert_eq!(extract_album_id_from_argument("a/bé"), None);
    assert_eq!(extract_album_id_from_argument("/"), None);
}

#[test]
fn parse_album_argument_results() {
    assert_eq!(parse_album_argument("https://imgur.com/a/vNOUshX"), Ok("vNOUshX".to_string()));
    assert_eq!(parse_album_argument("abc"), Ok("abc".to_string()));
    assert_eq!(parse_album_argument("abc/"), Err(AlbumRefError::InvalidAlbumReference));
}

#[test]
fn alphanumeric_check() {
    assert!(is_ascii_alphanumeric("aZ09"));
    assert!(is_ascii_alphanumeric(""));
    assert!(!is_ascii_alphanumeric("a b"));
    assert!(!is_ascii_alphanumeric("é"));
    assert!(!is_ascii_alphanumeric("a/b"));
}
