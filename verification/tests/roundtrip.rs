//! Round-trip and codec tests.

use crypt_serve::cipher::encrypt_padded;
use crypt_serve::crypt::{align_down, align_up, seal_blob, EncryptedBlob};
use crypt_serve::hexcode::decode_hex;
use crypt_serve::source::ByteCursor;

fn key32() -> Vec<u8> {
    (0u8..32).collect()
}

fn iv16() -> Vec<u8> {
    (0u8..16).collect()
}

fn magic8() -> Vec<u8> {
    b"MAGIC\0\0\0".to_vec()
}

#[test]
fn roundtrip_100_bytes() {
    // 100 bytes 0x00..0x63, key 00..1f, iv 00..0f
    let plain: Vec<u8> = (0u8..100).collect();
    let blob_bytes = seal_blob(&magic8(), &key32(), &iv16(), &plain);
    assert_eq!(blob_bytes.len(), 64 + 112);
    let mut blob = EncryptedBlob::from(ByteCursor::new(blob_bytes), &key32()).unwrap();
    assert!(blob.is_header_magic_valid(&magic8()));
    // read to end: one read of the padded length returns the whole plaintext
    let mut collected = Vec::new();
    loop {
        let chunk = blob.read(112).unwrap();
        if chunk.is_empty() {
            break;
        }
        collected.extend_from_slice(&chunk);
    }
    assert_eq!(collected, plain);
    assert_eq!(blob.get_unpadded_size().unwrap(), 100);
}

#[test]
fn decrypted_data_roundtrip() {
    let plain: Vec<u8> = (0u8..100).collect();
    let blob_bytes = seal_blob(&magic8(), &key32(), &iv16(), &plain);
    let blob = EncryptedBlob::from(ByteCursor::new(blob_bytes), &key32()).unwrap();
    assert_eq!(blob.decrypted_data().unwrap(), plain);
}

#[test]
fn roundtrip_empty_plaintext() {
    let plain: Vec<u8> = Vec::new();
    let blob_bytes = seal_blob(&magic8(), &key32(), &iv16(), &plain);
    // one full padding block
    assert_eq!(blob_bytes.len(), 64 + 16);
    let mut blob = EncryptedBlob::from(ByteCursor::new(blob_bytes), &key32()).unwrap();
    assert_eq!(blob.get_unpadded_size().unwrap(), 0);
    assert_eq!(blob.decrypted_data().unwrap(), plain);
    let tail = blob.read(16).unwrap();
    assert!(tail.is_empty());
}

#[test]
fn roundtrip_block_aligned_plaintext() {
    // an aligned plaintext gets a whole extra padding block
    let plain: Vec<u8> = (0u8..64).collect();
    let blob_bytes = seal_blob(&magic8(), &key32(), &iv16(), &plain);
    assert_eq!(blob_bytes.len(), 64 + 80);
    let mut blob = EncryptedBlob::from(ByteCursor::new(blob_bytes), &key32()).unwrap();
    assert_eq!(blob.get_unpadded_size().unwrap(), 64);
    assert_eq!(blob.decrypted_data().unwrap(), plain);
}

#[test]
fn aes256_known_answer() {
    // FIPS-197 AES-256 vector: with a zero IV the first CBC ciphertext block
    // is the raw AES encryption of the first plaintext block
    let key = decode_hex(b"000102030405060708090a0b0c0d0e0f101112131415161718191a1b1c1d1e1f")
        .unwrap();
    let plain = decode_hex(b"00112233445566778899aabbccddeeff").unwrap();
    let iv = [0u8; 16];
    let ct = encrypt_padded(&key, &iv, &plain);
    assert_eq!(ct.len(), 32);
    let expected = decode_hex(b"8ea2b7ca516745bfeafc49904b496089").unwrap();
    assert_eq!(&ct[..16], &expected[..]);
}

#[test]
fn header_fields_come_back() {
    let plain: Vec<u8> = (0u8..10).collect();
    let blob_bytes = seal_blob(&magic8(), &key32(), &iv16(), &plain);
    let blob = EncryptedBlob::from(ByteCursor::new(blob_bytes.clone()), &key32()).unwrap();
    assert_eq!(blob.magic(), magic8());
    assert_eq!(blob.initial_vector(), iv16());
    assert_eq!(blob.hash(), blob_bytes[32..64].to_vec());
    assert_eq!(blob.encrypted_data(), blob_bytes[64..].to_vec());
    assert_eq!(blob.get_padded_size(), 16);
    let cursor = blob.into_inner();
    assert_eq!(cursor.into_vec(), blob_bytes);
}

#[test]
fn open_short_source_is_eof() {
    match EncryptedBlob::from(ByteCursor::new(vec![0u8; 63]), &key32()) {
        Err(e) => assert_eq!(e, crypt_serve::error::StreamError::UnexpectedEof),
        Ok(_) => panic!("a 63-byte source must not open"),
    }
}

#[test]
fn decode_hex_accepts_mixed_case() {
    assert_eq!(decode_hex(b"00ff10Ab").unwrap(), vec![0x00, 0xff, 0x10, 0xab]);
}

#[test]
fn decode_hex_rejects_odd_length() {
    assert!(decode_hex(b"abc").is_none());
}

#[test]
fn decode_hex_rejects_non_digits() {
    assert!(decode_hex(b"zz").is_none());
}

#[test]
fn align_helpers() {
    assert_eq!(align_up(100, 16), 112);
    assert_eq!(align_up(96, 16), 96);
    assert_eq!(align_up(0, 16), 0);
    assert_eq!(align_down(100, 16), 96);
    assert_eq!(align_down(96, 16), 96);
}
