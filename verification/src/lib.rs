//! Random-access decryption of encrypted file blobs.
//!
//! A blob is a 64-byte header (magic, reserved, initial vector, SHA-256 of the
//! ciphertext) followed by PKCS#7-padded AES-256-CBC ciphertext.  The crate
//! parses the header, exposes the ciphertext as a seekable, readable plaintext
//! stream with block-aligned access, validates the content hash, computes the
//! unpadded plaintext length, and produces bounded chunks over a byte range
//! for streaming responses.

pub mod chunked_stream;
pub mod cipher;
pub mod crypt;
pub mod digest;
pub mod error;
pub mod hexcode;
pub mod respond;
pub mod segments;
pub mod source;
