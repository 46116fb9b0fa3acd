//! Seek and boundary behavior of the decrypting stream.

use crypt_serve::crypt::{seal_blob, EncryptedBlob};
use crypt_serve::error::StreamError;
use crypt_serve::source::{ByteCursor, SeekFrom};

fn key32() -> Vec<u8> {
    (7u8..39).collect()
}

fn iv16() -> Vec<u8> {
    (3u8..19).collect()
}

fn magic8() -> Vec<u8> {
    b"MAGIC\0\0\0".to_vec()
}

fn open_blob(plain: &[u8]) -> EncryptedBlob {
    let blob_bytes = seal_blob(&magic8(), &key32(), &iv16(), plain);
    EncryptedBlob::from(ByteCursor::new(blob_bytes), &key32()).unwrap()
}

#[test]
fn backward_seek_resets_cipher() {
    // seek(256); read(16); seek(0); read(16) must serve bytes [0, 16)
    let plain: Vec<u8> = (0..512u32).map(|i| (i % 251) as u8).collect();
    let mut blob = open_blob(&plain);
    assert_eq!(blob.seek(SeekFrom::Start(256)).unwrap(), 256);
    assert_eq!(blob.read(16).unwrap(), plain[256..272].to_vec());
    assert_eq!(blob.seek(SeekFrom::Start(0)).unwrap(), 0);
    assert_eq!(blob.read(16).unwrap(), plain[0..16].to_vec());
}

#[test]
fn reread_same_position_is_identical() {
    let plain: Vec<u8> = (0..512u32).map(|i| (i * 7 % 256) as u8).collect();
    let mut blob = open_blob(&plain);
    blob.seek(SeekFrom::Start(48)).unwrap();
    let first = blob.read(32).unwrap();
    blob.seek(SeekFrom::Start(48)).unwrap();
    let second = blob.read(32).unwrap();
    assert_eq!(first, second);
    assert_eq!(first, plain[48..80].to_vec());
}

#[test]
fn forward_walk_equals_direct_seek() {
    // reading forward to a position serves the same bytes afterwards as
    // seeking there directly
    let plain: Vec<u8> = (0..256u32).map(|i| (255 - i % 256) as u8).collect();
    let mut walked = open_blob(&plain);
    walked.read(64).unwrap();
    let after_walk = walked.read(32).unwrap();
    let mut seeked = open_blob(&plain);
    seeked.seek(SeekFrom::Start(64)).unwrap();
    let after_seek = seeked.read(32).unwrap();
    assert_eq!(after_walk, after_seek);
    assert_eq!(after_walk, plain[64..96].to_vec());
}

#[test]
fn terminal_block_read_reflects_unpadding() {
    // 100 plaintext bytes pad to 112; the read at the last aligned position
    // returns the 4 unpadded bytes
    let plain: Vec<u8> = (0u8..100).collect();
    let mut blob = open_blob(&plain);
    assert_eq!(blob.seek(SeekFrom::Start(96)).unwrap(), 96);
    let tail = blob.read(16).unwrap();
    assert_eq!(tail, plain[96..100].to_vec());
}

#[test]
fn seek_end_then_reads_return_nothing() {
    let plain: Vec<u8> = (0u8..100).collect();
    let mut blob = open_blob(&plain);
    // End ignores its offset and positions at the padded length
    assert_eq!(blob.seek(SeekFrom::End(-3)).unwrap(), 112);
    assert!(blob.read(16).unwrap().is_empty());
    assert!(blob.read(1).unwrap().is_empty());
}

#[test]
fn unaligned_seek_is_invalid_input_and_moves_nothing() {
    let plain: Vec<u8> = (0u8..100).collect();
    let mut blob = open_blob(&plain);
    assert_eq!(blob.seek(SeekFrom::Start(8)).unwrap_err(), StreamError::InvalidInput);
    // position unchanged: the next read still serves from 0
    assert_eq!(blob.read(16).unwrap(), plain[0..16].to_vec());
}

#[test]
fn seek_past_end_is_invalid_data() {
    let plain: Vec<u8> = (0u8..100).collect();
    let mut blob = open_blob(&plain);
    assert_eq!(blob.seek(SeekFrom::Start(128)).unwrap_err(), StreamError::InvalidData);
}

#[test]
fn negative_current_seek_is_invalid_input() {
    let plain: Vec<u8> = (0u8..100).collect();
    let mut blob = open_blob(&plain);
    assert_eq!(blob.seek(SeekFrom::Current(-16)).unwrap_err(), StreamError::InvalidInput);
}

#[test]
fn current_seek_moves_relative() {
    let plain: Vec<u8> = (0u8..200).collect();
    let mut blob = open_blob(&plain);
    assert_eq!(blob.seek(SeekFrom::Start(32)).unwrap(), 32);
    assert_eq!(blob.seek(SeekFrom::Current(32)).unwrap(), 64);
    assert_eq!(blob.read(16).unwrap(), plain[64..80].to_vec());
}

#[test]
fn oversized_read_is_invalid_data_and_moves_nothing() {
    let plain: Vec<u8> = (0u8..100).collect();
    let mut blob = open_blob(&plain);
    // 128 rounds up past the 112 ciphertext bytes
    assert_eq!(blob.read(128).unwrap_err(), StreamError::InvalidData);
    assert_eq!(blob.read(16).unwrap(), plain[0..16].to_vec());
}

#[test]
fn stream_can_be_rewound_after_draining() {
    let plain: Vec<u8> = (0u8..100).collect();
    let mut blob = open_blob(&plain);
    let first = blob.read(112).unwrap();
    assert_eq!(first, plain);
    assert!(blob.read(16).unwrap().is_empty());
    blob.seek(SeekFrom::Start(0)).unwrap();
    let second = blob.read(112).unwrap();
    assert_eq!(second, plain);
}

#[test]
fn corrupted_padding_is_invalid_data() {
    // flip bits in the last ciphertext block: the terminal read must fail
    let plain: Vec<u8> = (0u8..100).collect();
    let mut blob_bytes = seal_blob(&magic8(), &key32(), &iv16(), &plain);
    let n = blob_bytes.len();
    blob_bytes[n - 1] ^= 0xff;
    blob_bytes[n - 2] ^= 0xff;
    blob_bytes[n - 3] ^= 0xff;
    let mut blob = EncryptedBlob::from(ByteCursor::new(blob_bytes.clone()), &key32()).unwrap();
    blob.seek(SeekFrom::Start(96)).unwrap();
    // the decrypted final block now almost surely carries no valid padding
    let blob2 = EncryptedBlob::from(ByteCursor::new(blob_bytes), &key32()).unwrap();
    match blob.read(16) {
        Err(e) => assert_eq!(e, StreamError::InvalidData),
        Ok(tail) => {
            // if the mangled block still ends in a plausible pad byte, the
            // full decryption must agree with it
            let full = blob2.decrypted_data().unwrap();
            assert_eq!(full[96..].to_vec(), tail);
        }
    }
}
