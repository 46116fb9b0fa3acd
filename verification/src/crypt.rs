//! The seekable decrypting stream over an encrypted blob.
//!
//! A blob is `Header || Ciphertext`: a 64-byte header (magic, reserved,
//! initial vector, SHA-256 of the ciphertext) followed by PKCS#7-padded
//! AES-256-CBC ciphertext.  `EncryptedBlob` exposes the ciphertext region as
//! a seekable, readable plaintext stream with block-aligned access, keeping
//! the CBC chaining state in step with the cursor: the chain always equals
//! the ciphertext block just before the cursor, or the header IV at the
//! start.  Backward seeks re-initialize the cipher and replay forward.

use crate::cipher::{
    cbc_block_iv, cbc_decrypt, cbc_plain_block, lemma_cbc_decrypt_block, lemma_tail_pad,
    pkcs7_pad, pkcs7_tail_valid, pkcs7_unpad, pkcs7_valid, CbcCipher,
};
use crate::digest::{sha256_digest, sha256_of};
use crate::error::StreamError;
use crate::source::{ByteCursor, SeekFrom, SeekRead};
use vstd::prelude::*;
use vstd::slice::slice_to_vec;

verus! {

/// The size of the blob header in bytes.
pub const HEADER_SIZE: usize = 64;

/// `n` rounded up to a multiple of 16.
pub open spec fn round_up16(n: int) -> int {
    if n % 16 == 0 {
        n
    } else {
        n + (16 - n % 16)
    }
}

/// Round `addr` down to a multiple of `align`.
pub fn align_down(addr: usize, align: usize) -> (r: usize)
    requires
        align >= 1,
    ensures
        r == addr - addr % align,
        r % align == 0,
{
    proof {
        let q = addr as int / align as int;
        let al = align as int;
        vstd::arithmetic::div_mod::lemma_fundamental_div_mod(addr as int, al);
        assert(addr as int - addr as int % al == q * al) by (nonlinear_arith)
            requires
                addr as int == al * q + addr as int % al,
        ;
        vstd::arithmetic::div_mod::lemma_mod_multiples_basic(q, al);
    }
    addr - addr % align
}

/// Round `addr` up to a multiple of `align`.
pub fn align_up(addr: usize, align: usize) -> (r: usize)
    requires
        align >= 1,
        addr + align - 1 <= usize::MAX,
    ensures
        r == (if addr % align == 0 {
            addr as int
        } else {
            addr + align - addr % align
        }),
        r % align == 0,
        addr <= r < addr + align,
{
    let m = addr % align;
    if m == 0 {
        addr
    } else {
        proof {
            let q = addr as int / align as int;
            let al = align as int;
            vstd::arithmetic::div_mod::lemma_fundamental_div_mod(addr as int, al);
            assert(addr as int + (al - m) == (q + 1) * al) by (nonlinear_arith)
                requires
                    addr as int == al * q + m,
            ;
            vstd::arithmetic::div_mod::lemma_mod_multiples_basic(q + 1, al);
        }
        addr + (align - m)
    }
}

/// Byte equality of two slices.
pub fn bytes_equal(a: &[u8], b: &[u8]) -> (r: bool)
    ensures
        r == (a@ == b@),
{
    if a.len() != b.len() {
        return false;
    }
    let mut i: usize = 0;
    while i < a.len()
        invariant
            a@.len() == b@.len(),
            i <= a@.len(),
            forall|j: int| 0 <= j < i ==> a@[j] == b@[j],
        decreases a@.len() - i,
    {
        if a[i] != b[i] {
            return false;
        }
        i += 1;
    }
    proof {
        assert(a@ =~= b@);
    }
    true
}

/// The seekable decrypting stream: a byte source holding `Header ||
/// Ciphertext`, the AES-256 key, and the CBC chaining state of the cursor.
pub struct EncryptedBlob {
    accessor: ByteCursor,
    size: u64,
    cipher: Option<CbcCipher>,
    key: Vec<u8>,
    magic: Vec<u8>,
    iv: Vec<u8>,
    hash: Vec<u8>,
}

impl EncryptedBlob {
    /// All bytes of the blob, header included.
    pub closed spec fn raw_bytes(self) -> Seq<u8> {
        self.accessor.data_bytes()
    }

    /// The AES-256 key.
    pub closed spec fn key_bytes(self) -> Seq<u8> {
        self.key@
    }

    /// The magic field of the header.
    pub closed spec fn magic_bytes(self) -> Seq<u8> {
        self.magic@
    }

    /// The initial vector field of the header.
    pub closed spec fn iv_bytes(self) -> Seq<u8> {
        self.iv@
    }

    /// The hash field of the header.
    pub closed spec fn hash_bytes(self) -> Seq<u8> {
        self.hash@
    }

    /// The ciphertext region: everything after the header.
    pub open spec fn ct_bytes(self) -> Seq<u8> {
        self.raw_bytes().skip(64)
    }

    /// The length `N` of the ciphertext region.
    pub open spec fn padded_size(self) -> int {
        self.raw_bytes().len() - 64
    }

    /// The current plaintext position: the cursor, relative to the start of
    /// the ciphertext region.
    pub closed spec fn plain_pos(self) -> int {
        self.accessor.position() - 64
    }

    /// Whether the cipher has been consumed by a terminal read.
    pub closed spec fn drained(self) -> bool {
        self.cipher is None
    }

    /// The CBC decryption of the whole ciphertext region, padding included.
    pub open spec fn padded_plain(self) -> Seq<u8> {
        cbc_decrypt(self.key_bytes(), self.iv_bytes(), self.ct_bytes())
    }

    /// The plaintext the stream serves: the CBC decryption with its PKCS#7
    /// padding stripped when the blob is well shaped, the raw decryption of
    /// its whole blocks otherwise.
    pub open spec fn plaintext(self) -> Seq<u8> {
        if self.padded_size() % 16 == 0 && self.padded_size() >= 16 && pkcs7_valid(
            self.padded_plain(),
        ) {
            pkcs7_unpad(self.padded_plain())
        } else {
            self.padded_plain()
        }
    }

    /// The last byte of the decrypted final block: the PKCS#7 pad byte of a
    /// valid blob.
    pub open spec fn tail_pad_byte(self) -> int {
        cbc_plain_block(
            self.key_bytes(),
            self.iv_bytes(),
            self.ct_bytes(),
            self.padded_size() / 16 - 1,
        ).last() as int
    }

    /// Internal consistency: the header fields mirror the blob bytes, the
    /// cursor is block-aligned inside the ciphertext region, and the CBC
    /// chain equals the ciphertext block just before the cursor (the header
    /// IV at the start).  A drained stream sits at the end.
    pub closed spec fn wf(self) -> bool {
        &&& self.size == self.accessor.data_bytes().len()
        &&& self.raw_bytes().len() >= 64
        &&& self.key@.len() == 32
        &&& self.magic@ == self.raw_bytes().subrange(0, 8)
        &&& self.iv@ == self.raw_bytes().subrange(16, 32)
        &&& self.hash@ == self.raw_bytes().subrange(32, 64)
        &&& 64 <= self.accessor.position() <= self.raw_bytes().len()
        &&& self.plain_pos() % 16 == 0
        &&& match self.cipher {
            Some(c) => c.wf() && c.key_bytes() == self.key@ && c.chain_bytes() == cbc_block_iv(
                self.iv@,
                self.ct_bytes(),
                self.plain_pos() / 16,
            ),
            None => self.plain_pos() == self.padded_size(),
        }
    }

    /// The two streams decrypt the same blob with the same key.
    pub open spec fn same_blob(self, other: EncryptedBlob) -> bool {
        self.raw_bytes() == other.raw_bytes() && self.key_bytes() == other.key_bytes()
    }

    /// What well-formedness guarantees at every state, for callers reasoning
    /// about mid-stream states: the blob holds the whole header, the parsed
    /// header fields mirror the blob bytes, and the plaintext position is a
    /// block-aligned offset inside the ciphertext region — at its end when
    /// the stream is drained.
    pub proof fn lemma_wf_bounds(self)
        requires
            self.wf(),
        ensures
            self.raw_bytes().len() >= 64,
            self.key_bytes().len() == 32,
            self.magic_bytes() == self.raw_bytes().subrange(0, 8),
            self.iv_bytes() == self.raw_bytes().subrange(16, 32),
            self.hash_bytes() == self.raw_bytes().subrange(32, 64),
            0 <= self.plain_pos() <= self.padded_size(),
            self.plain_pos() % 16 == 0,
            self.drained() ==> self.plain_pos() == self.padded_size(),
    {
    }

    /// Whether a read of `n` bytes at the current position succeeds.
    pub open spec fn read_ok(self, n: int) -> bool {
        let p = self.plain_pos();
        let nn = self.padded_size();
        if self.drained() || p == nn {
            true
        } else if p + round_up16(n) > nn {
            false
        } else if p + round_up16(n) == nn {
            pkcs7_valid(self.padded_plain())
        } else {
            true
        }
    }

    /// The bytes a successful read of `n` serves: nothing at the end, the
    /// unpadded tail of the plaintext (at most `n` bytes of it) for the
    /// terminal read, and the next `n` decrypted bytes otherwise.
    pub open spec fn read_bytes(self, n: int) -> Seq<u8> {
        let p = self.plain_pos();
        let nn = self.padded_size();
        let m = self.plaintext().len() as int;
        if self.drained() || p == nn {
            Seq::empty()
        } else if p + round_up16(n) == nn {
            self.plaintext().subrange(
                p,
                if p + n <= m {
                    p + n
                } else {
                    m
                },
            )
        } else {
            self.padded_plain().subrange(p, p + n)
        }
    }

    /// The position after a successful read of `n`.
    pub open spec fn pos_after_read(self, n: int) -> int {
        let p = self.plain_pos();
        if self.drained() || p == self.padded_size() {
            p
        } else {
            p + round_up16(n)
        }
    }

    /// Whether the stream is drained after a successful read of `n`.
    pub open spec fn drained_after_read(self, n: int) -> bool {
        self.drained() || self.plain_pos() == self.padded_size() || self.plain_pos() + round_up16(
            n,
        ) == self.padded_size()
    }

    /// The plaintext position a seek aims at: absolute for `Start`, relative
    /// for `Current`; `End` ignores its offset and aims at the padded length.
    pub open spec fn seek_target(self, from: SeekFrom) -> int {
        match from {
            SeekFrom::Start(p) => p as int,
            SeekFrom::End(_) => self.padded_size(),
            SeekFrom::Current(d) => self.plain_pos() + d,
        }
    }

    /// Whether a seek succeeds: the target must be block-aligned and inside
    /// the ciphertext region.
    pub open spec fn seek_ok(self, from: SeekFrom) -> bool {
        let t = self.seek_target(from);
        0 <= t <= self.padded_size() && t % 16 == 0
    }

    /// The error a failing seek reports: `InvalidInput` for a negative or
    /// unaligned target, `InvalidData` for one past the ciphertext region.
    pub open spec fn seek_err_kind(self, from: SeekFrom) -> StreamError {
        let t = self.seek_target(from);
        if t < 0 || t % 16 != 0 {
            StreamError::InvalidInput
        } else {
            StreamError::InvalidData
        }
    }

    /// Open a blob over `accessor`: measure its size, parse the 64-byte
    /// header, initialize the cipher from the header IV, and position at the
    /// start of the ciphertext.  Sources shorter than the header are
    /// `UnexpectedEof`.
    pub fn from(accessor: ByteCursor, key: &[u8]) -> (r: Result<EncryptedBlob, StreamError>)
        requires
            key@.len() == 32,
        ensures
            match r {
                Ok(b) => {
                    &&& accessor.data_bytes().len() >= 64
                    &&& b.wf()
                    &&& b.raw_bytes() == accessor.data_bytes()
                    &&& b.key_bytes() == key@
                    &&& b.magic_bytes() == accessor.data_bytes().subrange(0, 8)
                    &&& b.iv_bytes() == accessor.data_bytes().subrange(16, 32)
                    &&& b.hash_bytes() == accessor.data_bytes().subrange(32, 64)
                    &&& b.plain_pos() == 0
                    &&& !b.drained()
                },
                Err(e) => e == StreamError::UnexpectedEof && accessor.data_bytes().len() < 64,
            },
    {
        let mut acc = accessor;
        let total: usize = acc.len();
        if total < 64 {
            return Err(StreamError::UnexpectedEof);
        }
        let magic = acc.read_at(0, 8);
        let iv = acc.read_at(16, 16);
        let hash = acc.read_at(32, 32);
        let cipher = CbcCipher::new(key, iv.as_slice());
        let r = acc.seek(SeekFrom::Start(64));
        proof {
            assert(r is Ok);
        }
        Ok(
            EncryptedBlob {
                accessor: acc,
                size: total as u64,
                cipher: Some(cipher),
                key: slice_to_vec(key),
                magic,
                iv,
                hash,
            },
        )
    }

    /// Release the underlying byte source.
    pub fn into_inner(self) -> (r: ByteCursor)
        ensures
            r.data_bytes() == self.raw_bytes(),
    {
        self.accessor
    }

    /// The padded length of the ciphertext region.
    pub fn get_padded_size(&self) -> (r: u64)
        requires
            self.wf(),
        ensures
            r == self.padded_size(),
    {
        self.size - 64
    }

    /// The magic field of the header.
    pub fn magic(&self) -> (r: Vec<u8>)
        requires
            self.wf(),
        ensures
            r@ == self.magic_bytes(),
            r@.len() == 8,
    {
        slice_to_vec(self.magic.as_slice())
    }

    /// The initial vector field of the header.
    pub fn initial_vector(&self) -> (r: Vec<u8>)
        requires
            self.wf(),
        ensures
            r@ == self.iv_bytes(),
            r@.len() == 16,
    {
        slice_to_vec(self.iv.as_slice())
    }

    /// The hash field of the header.
    pub fn hash(&self) -> (r: Vec<u8>)
        requires
            self.wf(),
        ensures
            r@ == self.hash_bytes(),
            r@.len() == 32,
    {
        slice_to_vec(self.hash.as_slice())
    }

    /// Whether the header magic equals the expected tag.
    pub fn is_header_magic_valid(&self, expected: &[u8]) -> (r: bool)
        requires
            self.wf(),
        ensures
            r == (self.magic_bytes() == expected@),
    {
        bytes_equal(self.magic.as_slice(), expected)
    }

    /// The whole ciphertext region.
    pub fn encrypted_data(&self) -> (r: Vec<u8>)
        requires
            self.wf(),
        ensures
            r@ == self.ct_bytes(),
    {
        let total: usize = self.accessor.len();
        let r = self.accessor.read_at(64, total - 64);
        proof {
            assert(r@ =~= self.ct_bytes());
        }
        r
    }

    /// Validate the content hash: true exactly when the SHA-256 of the
    /// ciphertext region equals the hash stored in the header.
    pub fn is_content_valid(&self) -> (r: bool)
        requires
            self.wf(),
        ensures
            r == (sha256_of(self.ct_bytes()) == self.hash_bytes()),
    {
        let ct = self.encrypted_data();
        let d = sha256_digest(ct.as_slice());
        bytes_equal(d.as_slice(), self.hash.as_slice())
    }

    /// Re-initialize the cipher from the header IV and rewind to the start
    /// of the ciphertext, as a backward seek demands.
    fn reset_cipher(&mut self)
        requires
            old(self).wf(),
        ensures
            final(self).wf(),
            final(self).same_blob(*old(self)),
            final(self).plain_pos() == 0,
            !final(self).drained(),
    {
        match self.cipher.take() {
            Some(mut c) => {
                c.reset(self.iv.as_slice());
                self.cipher = Some(c);
            },
            None => {
                self.cipher = Some(CbcCipher::new(self.key.as_slice(), self.iv.as_slice()));
            },
        }
        let r = self.accessor.seek(SeekFrom::Start(64));
        proof {
            assert(r is Ok);
        }
    }

    /// Decrypt the ciphertext blocks covering plaintext positions `[s, t)`
    /// with `cip`, whose chain must match position `s`; returns the decrypted
    /// bytes and leaves the chain matching position `t`.
    fn decrypt_span(&self, cip: &mut CbcCipher, s: usize, t: usize) -> (r: Vec<u8>)
        requires
            self.wf(),
            s <= t,
            t <= self.padded_size(),
            s % 16 == 0,
            t % 16 == 0,
            old(cip).wf(),
            old(cip).key_bytes() == self.key_bytes(),
            old(cip).chain_bytes() == cbc_block_iv(self.iv_bytes(), self.ct_bytes(), s as int / 16),
        ensures
            final(cip).wf(),
            final(cip).key_bytes() == self.key_bytes(),
            final(cip).chain_bytes() == cbc_block_iv(
                self.iv_bytes(),
                self.ct_bytes(),
                t as int / 16,
            ),
            r@ == self.padded_plain().subrange(s as int, t as int),
    {
        let total: usize = self.accessor.len();
        let mut out: Vec<u8> = Vec::new();
        let mut cur: usize = s;
        proof {
            assert(out@ =~= self.padded_plain().subrange(s as int, s as int));
        }
        while cur < t
            invariant
                self.wf(),
                s <= cur <= t,
                t <= self.padded_size(),
                cur % 16 == 0,
                t % 16 == 0,
                total == self.raw_bytes().len(),
                cip.wf(),
                cip.key_bytes() == self.key_bytes(),
                cip.chain_bytes() == cbc_block_iv(
                    self.iv_bytes(),
                    self.ct_bytes(),
                    cur as int / 16,
                ),
                out@ == self.padded_plain().subrange(s as int, cur as int),
            decreases t - cur,
        {
            let block = self.accessor.read_at(64 + cur, 16);
            proof {
                assert(block@ =~= self.ct_bytes().subrange(cur as int, cur as int + 16));
                assert(self.ct_bytes().subrange(cur as int, cur as int + 16) =~= self.ct_bytes()
                    .subrange(16 * (cur as int / 16), 16 * (cur as int / 16) + 16));
            }
            let pt = cip.decrypt_block(block.as_slice());
            proof {
                let k = cur as int / 16;
                assert(pt@ == cbc_plain_block(self.key_bytes(), self.iv_bytes(), self.ct_bytes(), k));
                lemma_cbc_decrypt_block(self.key_bytes(), self.iv_bytes(), self.ct_bytes(), k);
                assert(pt@ == self.padded_plain().subrange(16 * k, 16 * k + 16));
                assert(self.padded_plain().subrange(s as int, cur as int) + self.padded_plain()
                    .subrange(16 * k, 16 * k + 16) =~= self.padded_plain().subrange(
                    s as int,
                    cur as int + 16,
                ));
                assert(cbc_block_iv(self.iv_bytes(), self.ct_bytes(), k + 1) =~= block@);
                assert((cur as int + 16) / 16 == k + 1);
            }
            crate::cipher::push_all(&mut out, pt.as_slice());
            cur += 16;
        }
        out
    }

    /// Read `n` plaintext bytes at the current position.  Reads work in
    /// block-aligned ciphertext chunks of `round_up16(n)` bytes; a chunk that
    /// would run past the ciphertext region is `InvalidData` and moves
    /// nothing.  The read that ends exactly at the region's end unpads and
    /// drains the stream; reads at the end return no bytes.
    pub fn read(&mut self, n: usize) -> (r: Result<Vec<u8>, StreamError>)
        requires
            old(self).wf(),
            n >= 1,
        ensures
            final(self).wf(),
            final(self).same_blob(*old(self)),
            r is Ok <==> old(self).read_ok(n as int),
            match r {
                Ok(v) => {
                    &&& v@ == old(self).read_bytes(n as int)
                    &&& final(self).plain_pos() == old(self).pos_after_read(n as int)
                    &&& final(self).drained() == old(self).drained_after_read(n as int)
                },
                Err(e) => {
                    &&& e == StreamError::InvalidData
                    &&& final(self).plain_pos() == old(self).plain_pos()
                    &&& final(self).drained() == old(self).drained()
                },
            },
    {
        let chain0: Vec<u8> = match &self.cipher {
            Some(c) => c.chain_copy(),
            None => {
                return Ok(Vec::new());
            },
        };
        let total: usize = self.accessor.len();
        let nn: usize = total - 64;
        let p64: u64 = self.accessor.pos();
        let p: usize = (p64 as usize) - 64;
        if p == nn {
            self.cipher = None;
            return Ok(Vec::new());
        }
        if n > nn - p {
            return Err(StreamError::InvalidData);
        }
        let a: usize = align_up(n, 16);
        if a > nn - p {
            return Err(StreamError::InvalidData);
        }
        let mut cip = CbcCipher::new(self.key.as_slice(), chain0.as_slice());
        let mut out = self.decrypt_span(&mut cip, p, p + a);
        if p + a == nn {
            // terminal read: strip the PKCS#7 padding and consume the cipher
            proof {
                assert(out@.len() == a >= 16);
                lemma_tail_pad(self.padded_plain(), p as int);
                assert(out@ =~= self.padded_plain().subrange(
                    p as int,
                    self.padded_plain().len() as int,
                ));
            }
            if !pkcs7_tail_valid(out.as_slice()) {
                return Err(StreamError::InvalidData);
            }
            let pb: u8 = out[out.len() - 1];
            out.truncate(out.len() - pb as usize);
            proof {
                assert(out@ =~= old(self).plaintext().skip(p as int));
            }
            if out.len() > n {
                out.truncate(n);
            }
            self.cipher = None;
            let r = self.accessor.seek(SeekFrom::Start(total as u64));
            proof {
                assert(r is Ok);
                assert(out@ =~= old(self).read_bytes(n as int));
            }
            Ok(out)
        } else {
            out.truncate(n);
            self.cipher = Some(cip);
            let r = self.accessor.seek(SeekFrom::Start((64 + p + a) as u64));
            proof {
                assert(r is Ok);
                assert(out@ =~= old(self).padded_plain().subrange(p as int, p as int + n));
            }
            Ok(out)
        }
    }

    /// Seek to a block-aligned plaintext position.  A target after the
    /// current position advances by decrypting and discarding ciphertext, so
    /// the chain follows; a target at or before it re-initializes the cipher
    /// from the header IV and replays forward from the start.  `End` ignores
    /// its offset and positions at the padded length.
    pub fn seek(&mut self, from: SeekFrom) -> (r: Result<u64, StreamError>)
        requires
            old(self).wf(),
        ensures
            final(self).wf(),
            final(self).same_blob(*old(self)),
            r is Ok <==> old(self).seek_ok(from),
            match r {
                Ok(v) => {
                    &&& v == old(self).seek_target(from)
                    &&& final(self).plain_pos() == v
                    &&& (final(self).drained() <==> old(self).drained() && v == old(
                        self,
                    ).plain_pos())
                },
                Err(e) => {
                    &&& e == old(self).seek_err_kind(from)
                    &&& final(self).plain_pos() == old(self).plain_pos()
                    &&& final(self).drained() == old(self).drained()
                },
            },
    {
        let total: usize = self.accessor.len();
        let nn: usize = total - 64;
        let p64: u64 = self.accessor.pos();
        let p: usize = (p64 as usize) - 64;
        let t128: i128 = match from {
            SeekFrom::Start(v) => v as i128,
            SeekFrom::End(_) => nn as i128,
            SeekFrom::Current(d) => p as i128 + d as i128,
        };
        if t128 < 0 || t128 % 16 != 0 {
            return Err(StreamError::InvalidInput);
        }
        if t128 > nn as i128 {
            return Err(StreamError::InvalidData);
        }
        let t: usize = t128 as usize;
        if t == p {
            return Ok(t as u64);
        }
        let s: usize;
        if t > p {
            // forward: advance through the cipher, which keeps the chain
            s = p;
        } else {
            // backward: reset the cipher and replay from the start
            self.reset_cipher();
            s = 0;
        }
        let chain0: Vec<u8> = match &self.cipher {
            Some(c) => c.chain_copy(),
            None => {
                // a drained stream sits at the end, so the target was at or
                // before the cursor and the reset revived the cipher
                proof {
                    assert(false);
                }
                return Err(StreamError::InvalidData);
            },
        };
        let mut cip = CbcCipher::new(self.key.as_slice(), chain0.as_slice());
        let _discard = self.decrypt_span(&mut cip, s, t);
        self.cipher = Some(cip);
        let r = self.accessor.seek(SeekFrom::Start((64 + t) as u64));
        proof {
            assert(r is Ok);
        }
        Ok(t as u64)
    }

    /// The unpadded plaintext length: seek to the final ciphertext block,
    /// decrypt it without unpadding, and subtract its last byte from the
    /// padded length.
    pub fn get_unpadded_size(&mut self) -> (r: Result<u64, StreamError>)
        requires
            old(self).wf(),
        ensures
            final(self).wf(),
            final(self).same_blob(*old(self)),
            r is Ok <==> old(self).padded_size() >= 16 && old(self).tail_pad_byte() <= old(
                self,
            ).padded_size(),
            match r {
                Ok(v) => {
                    &&& v == old(self).padded_size() - old(self).tail_pad_byte()
                    &&& !final(self).drained()
                    &&& final(self).plain_pos() == 16 * (old(self).padded_size() / 16)
                },
                Err(e) => e == StreamError::InvalidData,
            },
    {
        let total: usize = self.accessor.len();
        let nn: usize = total - 64;
        if nn < 16 {
            return Err(StreamError::InvalidData);
        }
        let last: usize = (nn / 16 - 1) * 16;
        let sr = self.seek(SeekFrom::Start(last as u64));
        proof {
            assert(sr is Ok);
        }
        let chain0: Vec<u8> = match &self.cipher {
            Some(c) => c.chain_copy(),
            None => {
                proof {
                    assert(false);
                }
                return Err(StreamError::InvalidData);
            },
        };
        let mut cip = CbcCipher::new(self.key.as_slice(), chain0.as_slice());
        let block = self.accessor.read_at(64 + last, 16);
        proof {
            assert(block@ =~= self.ct_bytes().subrange(last as int, last as int + 16));
            assert(self.ct_bytes().subrange(last as int, last as int + 16) =~= self.ct_bytes()
                .subrange(16 * (last as int / 16), 16 * (last as int / 16) + 16));
            assert(last as int / 16 == old(self).padded_size() / 16 - 1);
        }
        let ptb = cip.decrypt_block(block.as_slice());
        self.cipher = Some(cip);
        let r = self.accessor.seek(SeekFrom::Start((64 + last + 16) as u64));
        proof {
            assert(r is Ok);
            assert(ptb@.last() == old(self).tail_pad_byte());
        }
        let pb: u8 = ptb[15];
        if pb as usize > nn {
            return Err(StreamError::InvalidData);
        }
        Ok((nn - pb as usize) as u64)
    }

    /// Decrypt the whole ciphertext region with a fresh cipher and strip the
    /// padding; `InvalidData` when the region is not a nonempty sequence of
    /// whole blocks ending in valid padding.
    pub fn decrypted_data(&self) -> (r: Result<Vec<u8>, StreamError>)
        requires
            self.wf(),
        ensures
            r is Ok <==> self.padded_size() >= 16 && self.padded_size() % 16 == 0 && pkcs7_valid(
                self.padded_plain(),
            ),
            match r {
                Ok(v) => v@ == self.plaintext(),
                Err(e) => e == StreamError::InvalidData,
            },
    {
        let total: usize = self.accessor.len();
        let nn: usize = total - 64;
        if nn < 16 || nn % 16 != 0 {
            return Err(StreamError::InvalidData);
        }
        let mut cip = CbcCipher::new(self.key.as_slice(), self.iv.as_slice());
        let mut out = self.decrypt_span(&mut cip, 0, nn);
        proof {
            assert(out@.len() == nn >= 16);
            lemma_tail_pad(self.padded_plain(), 0);
            assert(out@ =~= self.padded_plain());
        }
        if !pkcs7_tail_valid(out.as_slice()) {
            return Err(StreamError::InvalidData);
        }
        let pb: u8 = out[out.len() - 1];
        out.truncate(out.len() - pb as usize);
        proof {
            assert(out@ =~= self.plaintext());
        }
        Ok(out)
    }
}

/// Build a blob: the header (magic, zeroed reserved field, `iv`, the SHA-256
/// of the ciphertext) followed by the AES-256-CBC encryption of the PKCS#7
/// padded plaintext.
pub fn seal_blob(magic: &[u8], key: &[u8], iv: &[u8], plain: &[u8]) -> (r: Vec<u8>)
    requires
        magic@.len() == 8,
        key@.len() == 32,
        iv@.len() == 16,
        plain@.len() + 80 <= usize::MAX,
    ensures
        r@.len() == 64 + pkcs7_pad(plain@).len(),
        r@.subrange(0, 8) == magic@,
        r@.subrange(8, 16) == Seq::new(8, |i: int| 0u8),
        r@.subrange(16, 32) == iv@,
        r@.subrange(32, 64) == sha256_of(r@.skip(64)),
        cbc_decrypt(key@, iv@, r@.skip(64)) == pkcs7_pad(plain@),
{
    let ct = crate::cipher::encrypt_padded(key, iv, plain);
    let h = sha256_digest(ct.as_slice());
    let mut out: Vec<u8> = Vec::new();
    crate::cipher::push_all(&mut out, magic);
    let mut i: usize = 0;
    while i < 8
        invariant
            i <= 8,
            out@ == magic@ + Seq::new(i as nat, |j: int| 0u8),
        decreases 8 - i,
    {
        out.push(0u8);
        proof {
            assert(magic@ + Seq::new(i as nat, |j: int| 0u8) + seq![0u8] =~= magic@ + Seq::new(
                (i + 1) as nat,
                |j: int| 0u8,
            ));
        }
        i += 1;
    }
    crate::cipher::push_all(&mut out, iv);
    crate::cipher::push_all(&mut out, h.as_slice());
    crate::cipher::push_all(&mut out, ct.as_slice());
    proof {
        assert(out@.skip(64) =~= ct@);
        assert(out@.subrange(0, 8) =~= magic@);
        assert(out@.subrange(8, 16) =~= Seq::new(8, |j: int| 0u8));
        assert(out@.subrange(16, 32) =~= iv@);
        assert(out@.subrange(32, 64) =~= h@);
    }
    out
}

/// Law: the bytes a read serves depend only on the blob's contents, its key
/// and the current position, never on how the stream reached that position.
/// Hence `seek(Start(p)); read(n); seek(Start(p)); read(n)` yields identical
/// bytes, and walking forward to a position by aligned reads leaves a stream
/// indistinguishable, for every later read, from one seeked there directly.
pub proof fn lemma_position_determines_reads(b1: EncryptedBlob, b2: EncryptedBlob, n: int)
    requires
        b1.wf(),
        b2.wf(),
        b1.same_blob(b2),
        b1.plain_pos() == b2.plain_pos(),
    ensures
        b1.read_ok(n) == b2.read_ok(n),
        b1.read_bytes(n) == b2.read_bytes(n),
        b1.pos_after_read(n) == b2.pos_after_read(n),
        b1.drained_after_read(n) == b2.drained_after_read(n),
{
    assert(b1.iv_bytes() == b2.iv_bytes());
    assert(b1.ct_bytes() == b2.ct_bytes());
    assert(b1.padded_plain() == b2.padded_plain());
    assert(b1.plaintext() == b2.plaintext());
    if b1.drained() {
        assert(b1.plain_pos() == b1.padded_size());
    }
    if b2.drained() {
        assert(b2.plain_pos() == b2.padded_size());
    }
}

/// Law: for a valid blob at aligned position `a`, a read of `b - a` bytes
/// for aligned `b` serves exactly the plaintext bytes `[a, min(b, M))`,
/// where `M` is the unpadded length.
pub proof fn lemma_aligned_range_read(blob: EncryptedBlob, a: int, b: int)
    requires
        blob.wf(),
        blob.padded_size() % 16 == 0,
        blob.padded_size() >= 16,
        pkcs7_valid(blob.padded_plain()),
        a % 16 == 0,
        b % 16 == 0,
        0 <= a < b <= round_up16(blob.plaintext().len() as int),
        blob.plain_pos() == a,
        !blob.drained(),
    ensures
        blob.read_ok(b - a),
        blob.read_bytes(b - a) == blob.plaintext().subrange(
            a,
            vstd::math::min(b, blob.plaintext().len() as int),
        ),
{
    let nn = blob.padded_size();
    let pp = blob.padded_plain();
    assert(pp.len() == (nn / 16) * 16 == nn);
    let pad = pp.last() as int;
    assert(1 <= pad <= 16);
    let m = blob.plaintext().len() as int;
    assert(blob.plaintext() == pkcs7_unpad(pp));
    assert(m == nn - pad);
    // the padded length rounds the unpadded length up to nn, or equals it
    // when the padding is a whole block
    if pad == 16 {
        assert(m % 16 == 0);
        assert(round_up16(m) == m);
        assert(b <= m);
    } else {
        assert(m == nn - pad);
        vstd::arithmetic::div_mod::lemma_fundamental_div_mod(nn, 16);
        assert(m % 16 == 16 - pad) by (nonlinear_arith)
            requires
                nn % 16 == 0,
                m == nn - pad,
                1 <= pad <= 15,
                nn >= 16,
        ;
        assert(round_up16(m) == m + pad == nn);
        assert(b <= nn);
    }
    let n = b - a;
    assert(round_up16(n) == n);
    if a + n == nn {
        // terminal read
        assert(blob.read_ok(n));
        assert(b == nn);
        assert(vstd::math::min(b, m) == m);
        assert(a + n > m);
        assert(blob.read_bytes(n) == blob.plaintext().subrange(a, m));
    } else {
        assert(a + n < nn);
        assert(blob.read_ok(n));
        assert(blob.read_bytes(n) == pp.subrange(a, a + n));
        // a + n is aligned and strictly below nn, so at most nn - 16 <= m
        assert(a + n <= nn - 16);
        assert(vstd::math::min(b, m) == b);
        assert(blob.plaintext().subrange(a, b) =~= pp.subrange(a, a + n));
    }
}

/// Law: round trip.  A blob whose ciphertext region is the CBC encryption of
/// the PKCS#7-padded plaintext `p` (what `encrypt_padded` produces) is well
/// padded and serves exactly `p`: its plaintext is `p`, and the read of the
/// whole padded length from position 0 yields `p`.
pub proof fn lemma_round_trip(blob: EncryptedBlob, p: Seq<u8>)
    requires
        blob.wf(),
        cbc_decrypt(blob.key_bytes(), blob.iv_bytes(), blob.ct_bytes()) == pkcs7_pad(p),
        blob.ct_bytes().len() == pkcs7_pad(p).len(),
        blob.plain_pos() == 0,
        !blob.drained(),
    ensures
        pkcs7_valid(blob.padded_plain()),
        blob.plaintext() == p,
        blob.read_ok(blob.padded_size()),
        blob.read_bytes(blob.padded_size()) == p,
{
    crate::cipher::lemma_unpad_pad(p);
    let nn = blob.padded_size();
    assert(nn == pkcs7_pad(p).len());
    assert(nn % 16 == 0 && nn >= 16);
    assert(blob.plaintext() == pkcs7_unpad(pkcs7_pad(p)));
    let m = blob.plaintext().len() as int;
    assert(m == p.len());
    assert(round_up16(nn) == nn);
    assert(blob.read_ok(nn));
    assert(m < nn);
    assert(blob.read_bytes(nn) == blob.plaintext().subrange(0, m));
    assert(blob.plaintext().subrange(0, m) =~= p);
}

/// Law: when the final decrypted block carries valid PKCS#7 padding, the
/// unpadded length equals `N - p` for the final pad byte `p` in `[1, 16]`,
/// and so lies in `[N - 16, N - 1]`.
pub proof fn lemma_unpadded_size_range(blob: EncryptedBlob)
    requires
        blob.wf(),
        blob.padded_size() % 16 == 0,
        blob.padded_size() >= 16,
        pkcs7_valid(blob.padded_plain()),
    ensures
        1 <= blob.tail_pad_byte() <= 16,
        blob.padded_size() - 16 <= blob.padded_size() - blob.tail_pad_byte() <= blob.padded_size()
            - 1,
        blob.plaintext().len() == blob.padded_size() - blob.tail_pad_byte(),
{
    let nn = blob.padded_size();
    let pp = blob.padded_plain();
    assert(pp.len() == (nn / 16) * 16 == nn);
    let k = nn / 16 - 1;
    lemma_cbc_decrypt_block(blob.key_bytes(), blob.iv_bytes(), blob.ct_bytes(), k);
    let blk = cbc_plain_block(blob.key_bytes(), blob.iv_bytes(), blob.ct_bytes(), k);
    assert(16 * k + 16 == nn);
    assert(blk == pp.subrange(nn - 16, nn));
    assert(blk.last() == pp.subrange(nn - 16, nn)[15] == pp[nn - 1] == pp.last());
    assert(blob.tail_pad_byte() == pp.last() as int);
    assert(1 <= pp.last() <= 16);
    assert(blob.plaintext() == pkcs7_unpad(pp));
}

impl SeekRead for EncryptedBlob {
    open spec fn stream_wf(&self) -> bool {
        self.wf()
    }

    open spec fn stream_bytes(&self) -> Seq<u8> {
        self.plaintext()
    }

    open spec fn stream_pos(&self) -> int {
        self.plain_pos()
    }

    fn stream_seek(&mut self, p: u64) -> (r: Result<u64, StreamError>) {
        self.seek(SeekFrom::Start(p))
    }

    fn stream_read(&mut self, n: usize) -> (r: Result<Vec<u8>, StreamError>) {
        let r = self.read(n);
        proof {
            if r is Ok {
                let v = r->Ok_0;
                let p = old(self).plain_pos();
                let nn = old(self).padded_size();
                let pp = old(self).padded_plain();
                assert(pp.len() == (nn / 16) * 16);
                if !old(self).drained() && p != nn {
                    let ru = round_up16(n as int);
                    assert(ru % 16 == 0 && ru >= n);
                    assert(ru >= 16);
                    if p + ru == nn {
                        // the terminal read: the region is whole blocks and
                        // the padding is valid
                        assert(pkcs7_valid(pp));
                        assert(nn % 16 == 0);
                        assert(pp.len() == nn);
                        assert(old(self).plaintext() == pkcs7_unpad(pp));
                        assert(old(self).plaintext().len() == nn - pp.last());
                        assert(p <= nn - 16 <= old(self).plaintext().len());
                        assert(v@ == old(self).read_bytes(n as int));
                        assert(v@ =~= old(self).plaintext().subrange(p, p + v@.len()));
                    } else {
                        assert(p + ru < nn);
                        // an aligned position strictly below nn stays within
                        // the whole blocks
                        assert((p + ru) % 16 == 0);
                        let k1 = (p + ru) / 16;
                        let m = nn / 16;
                        vstd::arithmetic::div_mod::lemma_fundamental_div_mod(p + ru, 16);
                        vstd::arithmetic::div_mod::lemma_fundamental_div_mod(nn, 16);
                        assert(p + ru == 16 * k1);
                        assert(nn < 16 * m + 16);
                        assert(16 * k1 < 16 * m + 16);
                        assert(k1 <= m);
                        assert(p + ru <= 16 * m);
                        assert(pp.len() == 16 * m);
                        assert(p + n <= pp.len());
                        assert(v@ == pp.subrange(p, p + n));
                        if old(self).padded_size() % 16 == 0 && old(self).padded_size() >= 16
                            && pkcs7_valid(pp) {
                            assert(old(self).plaintext().len() == nn - pp.last());
                            assert(pp.last() <= 16);
                            assert(p + ru <= nn - 16);
                            assert(p + n <= nn - 16 <= old(self).plaintext().len());
                        } else {
                            assert(old(self).plaintext() == pp);
                        }
                        assert(v@ =~= old(self).plaintext().subrange(p, p + v@.len()));
                    }
                }
            }
        }
        r
    }
}

} // verus!
