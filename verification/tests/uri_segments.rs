//! URI path segment normalization tests.

use crypt_serve::error::UriSegmentError;
use crypt_serve::segments::normalize_segments;

fn segs(parts: &[&str]) -> Vec<Vec<u8>> {
    parts.iter().map(|p| p.as_bytes().to_vec()).collect()
}

#[test]
fn plain_segments_pass_through() {
    let r = normalize_segments(&segs(&["bucket", "file.bin"])).unwrap();
    assert_eq!(r, segs(&["bucket", "file.bin"]));
}

#[test]
fn empty_segments_vanish() {
    let r = normalize_segments(&segs(&["", "a", "", "b", ""])).unwrap();
    assert_eq!(r, segs(&["a", "b"]));
}

#[test]
fn parent_segments_pop() {
    let r = normalize_segments(&segs(&["a", "b", "..", "c"])).unwrap();
    assert_eq!(r, segs(&["a", "c"]));
}

#[test]
fn parent_of_empty_stays_empty() {
    let r = normalize_segments(&segs(&["..", "..", "x"])).unwrap();
    assert_eq!(r, segs(&["x"]));
}

#[test]
fn leading_dot_is_bad_start() {
    let e = normalize_segments(&segs(&["a", ".hidden"])).unwrap_err();
    assert_eq!(e, UriSegmentError::BadStart('.'));
}

#[test]
fn leading_star_is_bad_start() {
    let e = normalize_segments(&segs(&["*glob"])).unwrap_err();
    assert_eq!(e, UriSegmentError::BadStart('*'));
}

#[test]
fn trailing_colon_is_bad_end() {
    let e = normalize_segments(&segs(&["drive:"])).unwrap_err();
    assert_eq!(e, UriSegmentError::BadEnd(':'));
}

#[test]
fn trailing_angles_are_bad_end() {
    assert_eq!(normalize_segments(&segs(&["a>"])).unwrap_err(), UriSegmentError::BadEnd('>'));
    assert_eq!(normalize_segments(&segs(&["a<"])).unwrap_err(), UriSegmentError::BadEnd('<'));
}
