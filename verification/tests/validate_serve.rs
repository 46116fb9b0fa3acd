//! Integrity validation, chunked range streaming, and response planning.

use crypt_serve::chunked_stream::ChunkedReadStream;
use crypt_serve::crypt::{seal_blob, EncryptedBlob};
use crypt_serve::error::StreamError;
use crypt_serve::respond::{plan_response, HttpMethod, RangeRequest};
use crypt_serve::source::ByteCursor;
use sha2::Digest;

fn key32() -> Vec<u8> {
    (100u8..132).collect()
}

fn iv16() -> Vec<u8> {
    (50u8..66).collect()
}

fn magic8() -> Vec<u8> {
    b"MAGIC\0\0\0".to_vec()
}

#[test]
fn content_hash_validates() {
    let plain: Vec<u8> = (0..1000u32).map(|i| (i % 256) as u8).collect();
    let blob_bytes = seal_blob(&magic8(), &key32(), &iv16(), &plain);
    // the stored hash is the real SHA-256 of the ciphertext region
    let direct: Vec<u8> = sha2::Sha256::digest(&blob_bytes[64..]).to_vec();
    assert_eq!(&blob_bytes[32..64], &direct[..]);
    let blob = EncryptedBlob::from(ByteCursor::new(blob_bytes), &key32()).unwrap();
    assert!(blob.is_content_valid());
}

#[test]
fn zeroed_hash_fails_validation() {
    // an upload whose hash field is zeroed is rejected
    let plain: Vec<u8> = (0u8..100).collect();
    let mut blob_bytes = seal_blob(&magic8(), &key32(), &iv16(), &plain);
    for b in blob_bytes[32..64].iter_mut() {
        *b = 0;
    }
    let blob = EncryptedBlob::from(ByteCursor::new(blob_bytes), &key32()).unwrap();
    assert!(blob.is_header_magic_valid(&magic8()));
    assert!(!blob.is_content_valid());
}

#[test]
fn tampered_ciphertext_fails_validation() {
    let plain: Vec<u8> = (0u8..100).collect();
    let mut blob_bytes = seal_blob(&magic8(), &key32(), &iv16(), &plain);
    blob_bytes[70] ^= 1;
    let blob = EncryptedBlob::from(ByteCursor::new(blob_bytes), &key32()).unwrap();
    assert!(!blob.is_content_valid());
}

#[test]
fn range_request_mid_file() {
    // 4096-byte plaintext, range 1024-2047: 206 with 1024 body bytes
    let plain: Vec<u8> = (0..4096u32).map(|i| (i * 31 % 256) as u8).collect();
    let blob_bytes = seal_blob(&magic8(), &key32(), &iv16(), &plain);
    let raw_len = blob_bytes.len() as u64;
    let blob = EncryptedBlob::from(ByteCursor::new(blob_bytes), &key32()).unwrap();
    let plan = plan_response(
        HttpMethod::Get,
        true,
        raw_len,
        4096,
        RangeRequest::Span { start: 1024, length: 1024 },
    );
    assert_eq!(plan.status, 206);
    assert_eq!(plan.offset, 1024);
    assert_eq!(plan.length, 1024);
    assert_eq!(plan.total, 4096);
    assert!(plan.content_range);
    assert!(plan.include_body);
    assert!(plan.decrypt);
    let mut stream = ChunkedReadStream::new(plan.offset, plan.length, blob);
    let mut body = Vec::new();
    loop {
        match stream.next_chunk().unwrap() {
            Some(chunk) => body.extend_from_slice(&chunk),
            None => break,
        }
    }
    assert_eq!(body, plain[1024..2048].to_vec());
}

#[test]
fn full_file_streams_in_chunks() {
    // more than one 64 KiB chunk
    let plain: Vec<u8> = (0..200_000u32).map(|i| (i % 256) as u8).collect();
    let blob_bytes = seal_blob(&magic8(), &key32(), &iv16(), &plain);
    let blob = EncryptedBlob::from(ByteCursor::new(blob_bytes), &key32()).unwrap();
    let mut stream = ChunkedReadStream::new(0, plain.len() as u64, blob);
    let mut body = Vec::new();
    let mut chunks: usize = 0;
    loop {
        match stream.next_chunk().unwrap() {
            Some(chunk) => {
                assert!(chunk.len() <= 65536);
                body.extend_from_slice(&chunk);
                chunks += 1;
            }
            None => break,
        }
    }
    assert_eq!(chunks, 4);
    assert_eq!(body, plain);
}

#[test]
fn bad_magic_serves_raw_file() {
    // a file whose first 8 bytes differ from the configured magic is served
    // verbatim, at its on-disk size
    let plain: Vec<u8> = (0u8..100).collect();
    let mut blob_bytes = seal_blob(&magic8(), &key32(), &iv16(), &plain);
    blob_bytes[0] ^= 0xff;
    let raw_len = blob_bytes.len() as u64;
    let blob = EncryptedBlob::from(ByteCursor::new(blob_bytes.clone()), &key32()).unwrap();
    assert!(!blob.is_header_magic_valid(&magic8()));
    let plan = plan_response(HttpMethod::Get, false, raw_len, 0, RangeRequest::Absent);
    assert_eq!(plan.status, 200);
    assert_eq!(plan.length, raw_len);
    assert!(!plan.decrypt);
    assert!(plan.include_body);
    let cursor = blob.into_inner();
    let mut stream = ChunkedReadStream::new(0, raw_len, cursor);
    let mut body = Vec::new();
    loop {
        match stream.next_chunk().unwrap() {
            Some(chunk) => body.extend_from_slice(&chunk),
            None => break,
        }
    }
    assert_eq!(body, blob_bytes);
}

#[test]
fn unaligned_range_fails_the_stream() {
    // the adapter forwarded an unaligned client range verbatim: the stream
    // read fails instead of serving bytes
    let plain: Vec<u8> = (0..4096u32).map(|i| (i % 256) as u8).collect();
    let blob_bytes = seal_blob(&magic8(), &key32(), &iv16(), &plain);
    let blob = EncryptedBlob::from(ByteCursor::new(blob_bytes), &key32()).unwrap();
    let mut stream = ChunkedReadStream::new(1000, 1001, blob);
    assert_eq!(stream.next_chunk().unwrap_err(), StreamError::InvalidInput);
}

#[test]
fn empty_range_yields_no_chunks() {
    let data: Vec<u8> = (0u8..10).collect();
    let mut stream = ChunkedReadStream::new(3, 0, ByteCursor::new(data));
    assert!(stream.next_chunk().unwrap().is_none());
}

#[test]
fn reading_past_the_source_is_eof() {
    let data: Vec<u8> = (0u8..10).collect();
    let mut stream = ChunkedReadStream::new(10, 5, ByteCursor::new(data));
    assert_eq!(stream.next_chunk().unwrap_err(), StreamError::UnexpectedEof);
}

#[test]
fn method_not_allowed_plan() {
    let plan = plan_response(HttpMethod::Other, true, 100, 36, RangeRequest::Absent);
    assert_eq!(plan.status, 405);
    assert!(!plan.include_body);
    assert!(!plan.accept_ranges);
}

#[test]
fn unreadable_range_plan_is_bad_request() {
    let plan = plan_response(HttpMethod::Get, true, 100, 36, RangeRequest::Unreadable);
    assert_eq!(plan.status, 400);
    assert!(!plan.include_body);
}

#[test]
fn malformed_range_plan_is_unsatisfiable() {
    let plan = plan_response(HttpMethod::Get, true, 100, 36, RangeRequest::Malformed);
    assert_eq!(plan.status, 416);
    assert!(plan.range_unsatisfiable);
    assert_eq!(plan.length, 36);
    assert!(!plan.include_body);
}

#[test]
fn head_sends_headers_only() {
    let plan = plan_response(
        HttpMethod::Head,
        true,
        100,
        36,
        RangeRequest::Span { start: 16, length: 16 },
    );
    assert_eq!(plan.status, 200);
    assert!(plan.content_range);
    assert!(!plan.include_body);
    assert!(plan.accept_ranges);
}

#[test]
fn full_span_on_get_stays_200() {
    let plan = plan_response(
        HttpMethod::Get,
        true,
        100,
        36,
        RangeRequest::Span { start: 0, length: 36 },
    );
    assert_eq!(plan.status, 200);
    assert!(plan.include_body);
}
