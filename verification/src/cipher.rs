//! AES-256-CBC block chaining and PKCS#7 padding.
//!
//! The single-block AES permutation comes from the aes crate behind two
//! trusted wrappers; the chaining, the padding and their laws are proved here.

use aes::cipher::{BlockDecrypt, BlockEncrypt, KeyInit};
use vstd::prelude::*;
use vstd::slice::{slice_subrange, slice_to_vec};

verus! {

/// The AES block size in bytes.
pub const BLOCK_SIZE: usize = 16;

/// The AES-256 key size in bytes.
pub const KEY_SIZE: usize = 32;

/// One AES-256 encryption of a 16-byte block under a 32-byte key.
pub uninterp spec fn aes256_enc(key: Seq<u8>, block: Seq<u8>) -> Seq<u8>;

/// One AES-256 decryption of a 16-byte block under a 32-byte key.
pub uninterp spec fn aes256_dec(key: Seq<u8>, block: Seq<u8>) -> Seq<u8>;

/// Relies on aes::Aes256 (`cipher::BlockEncrypt::encrypt_block`): encrypts one
/// 16-byte block under a 32-byte key, a function of key and block alone, and
/// `cipher::BlockDecrypt::decrypt_block` inverts it.
#[verifier::external_body]
pub(crate) fn aes256_encrypt_block(key: &[u8], block: &[u8]) -> (r: Vec<u8>)
    requires
        key@.len() == KEY_SIZE,
        block@.len() == BLOCK_SIZE,
    ensures
        r@.len() == BLOCK_SIZE,
        r@ == aes256_enc(key@, block@),
        aes256_dec(key@, r@) == block@,
{
    let c = aes::Aes256::new_from_slice(key).unwrap();
    let mut b = aes::Block::clone_from_slice(block);
    c.encrypt_block(&mut b);
    b.to_vec()
}

/// Relies on aes::Aes256 (`cipher::BlockDecrypt::decrypt_block`): decrypts one
/// 16-byte block under a 32-byte key, a function of key and block alone.
#[verifier::external_body]
pub(crate) fn aes256_decrypt_block(key: &[u8], block: &[u8]) -> (r: Vec<u8>)
    requires
        key@.len() == KEY_SIZE,
        block@.len() == BLOCK_SIZE,
    ensures
        r@.len() == BLOCK_SIZE,
        r@ == aes256_dec(key@, block@),
{
    let c = aes::Aes256::new_from_slice(key).unwrap();
    let mut b = aes::Block::clone_from_slice(block);
    c.decrypt_block(&mut b);
    b.to_vec()
}

/// Bytewise XOR of two 16-byte blocks.
pub open spec fn xor16(a: Seq<u8>, b: Seq<u8>) -> Seq<u8> {
    Seq::new(16, |i: int| a[i] ^ b[i])
}

/// The vector a CBC decryption XORs into block `k`: the previous ciphertext
/// block, or the initial vector for the first block.
pub open spec fn cbc_block_iv(iv: Seq<u8>, ct: Seq<u8>, k: int) -> Seq<u8> {
    if k == 0 {
        iv
    } else {
        ct.subrange(16 * (k - 1), 16 * k)
    }
}

/// Plaintext block `k` of the CBC decryption of `ct`.
pub open spec fn cbc_plain_block(key: Seq<u8>, iv: Seq<u8>, ct: Seq<u8>, k: int) -> Seq<u8> {
    xor16(aes256_dec(key, ct.subrange(16 * k, 16 * k + 16)), cbc_block_iv(iv, ct, k))
}

/// The CBC decryption of all whole blocks of `ct`, without unpadding.
pub open spec fn cbc_decrypt(key: Seq<u8>, iv: Seq<u8>, ct: Seq<u8>) -> Seq<u8> {
    Seq::new((ct.len() / 16) * 16, |i: int| cbc_plain_block(key, iv, ct, i / 16)[i % 16])
}

/// PKCS#7 padding: `k` trailing bytes of value `k`, `k` in `1..=16`, up to the
/// next multiple of 16.
pub open spec fn pkcs7_pad(p: Seq<u8>) -> Seq<u8> {
    p + Seq::new((16 - p.len() % 16) as nat, |i: int| (16 - p.len() % 16) as u8)
}

/// Whether a block-aligned, nonempty sequence ends in valid PKCS#7 padding.
pub open spec fn pkcs7_valid(s: Seq<u8>) -> bool {
    &&& s.len() >= 16
    &&& s.len() % 16 == 0
    &&& 1 <= s.last() <= 16
    &&& forall|i: int| s.len() - s.last() <= i < s.len() ==> s[i] == s.last()
}

/// The padded sequence with its padding stripped.
pub open spec fn pkcs7_unpad(s: Seq<u8>) -> Seq<u8> {
    s.take(s.len() - s.last())
}

/// Whether a decrypted tail (covering at least the final block) ends in valid
/// PKCS#7 padding.
pub open spec fn tail_pad_ok(t: Seq<u8>) -> bool {
    &&& 1 <= t.last() <= 16
    &&& forall|i: int| t.len() - t.last() <= i < t.len() ==> t[i] == t.last()
}

/// Padding validity can be judged from any tail that covers the final block.
pub proof fn lemma_tail_pad(s: Seq<u8>, p: int)
    requires
        s.len() >= 16,
        s.len() % 16 == 0,
        0 <= p <= s.len() - 16,
    ensures
        pkcs7_valid(s) <==> tail_pad_ok(s.subrange(p, s.len() as int)),
{
    let t = s.subrange(p, s.len() as int);
    assert(t.last() == s.last());
    if tail_pad_ok(t) {
        assert forall|i: int| s.len() - s.last() <= i < s.len() implies s[i] == s.last() by {
            assert(t[i - p] == t.last());
        }
    }
    if pkcs7_valid(s) {
        assert forall|i: int| t.len() - t.last() <= i < t.len() implies t[i] == t.last() by {
            assert(s[i + p] == s.last());
        }
    }
}

/// Check PKCS#7 padding on a decrypted tail.
pub(crate) fn pkcs7_tail_valid(tail: &[u8]) -> (r: bool)
    requires
        tail@.len() >= 16,
    ensures
        r == tail_pad_ok(tail@),
{
    let n = tail.len();
    let pb = tail[n - 1];
    if pb < 1 || pb > 16 {
        return false;
    }
    let mut i: usize = 1;
    while i < pb as usize
        invariant
            tail@.len() >= 16,
            n == tail@.len(),
            1 <= pb <= 16,
            pb == tail@.last(),
            1 <= i <= pb,
            forall|j: int| n - i <= j < n ==> tail@[j] == pb,
        decreases pb - i,
    {
        if tail[n - 1 - i] != pb {
            return false;
        }
        i += 1;
    }
    true
}

/// Block `k` of a CBC decryption, as a subrange of the whole.
pub proof fn lemma_cbc_decrypt_block(key: Seq<u8>, iv: Seq<u8>, ct: Seq<u8>, k: int)
    requires
        0 <= k,
        16 * k + 16 <= (ct.len() / 16) * 16,
    ensures
        cbc_decrypt(key, iv, ct).subrange(16 * k, 16 * k + 16) == cbc_plain_block(key, iv, ct, k),
{
    let s = cbc_decrypt(key, iv, ct);
    assert forall|i: int| 0 <= i < 16 implies s.subrange(16 * k, 16 * k + 16)[i] == cbc_plain_block(
        key,
        iv,
        ct,
        k,
    )[i] by {
        assert(s[16 * k + i] == cbc_plain_block(key, iv, ct, (16 * k + i) / 16)[(16 * k + i) % 16]);
        assert((16 * k + i) / 16 == k);
        assert((16 * k + i) % 16 == i);
    }
    assert(s.subrange(16 * k, 16 * k + 16) =~= cbc_plain_block(key, iv, ct, k));
}

/// Law: stripping PKCS#7 padding undoes padding, for every plaintext.
pub proof fn lemma_unpad_pad(p: Seq<u8>)
    ensures
        pkcs7_valid(pkcs7_pad(p)),
        pkcs7_pad(p).len() == p.len() + (16 - p.len() % 16),
        pkcs7_unpad(pkcs7_pad(p)) == p,
{
    let k = (16 - p.len() % 16) as int;
    let s = pkcs7_pad(p);
    assert(s.len() == p.len() + k);
    assert(s.len() % 16 == 0);
    assert(s.last() == k as u8);
    assert(forall|i: int| s.len() - k <= i < s.len() ==> s[i] == k as u8);
    assert(pkcs7_unpad(s) =~= p);
}

/// XOR cancellation, lifted to 16-byte blocks.
pub proof fn lemma_xor_cancel(a: Seq<u8>, b: Seq<u8>)
    requires
        a.len() == 16,
    ensures
        xor16(xor16(a, b), b) == a,
{
    assert forall|i: int| 0 <= i < 16 implies xor16(xor16(a, b), b)[i] == a[i] by {
        let x = a[i];
        let y = b[i];
        assert((x ^ y) ^ y == x) by (bit_vector);
    }
    assert(xor16(xor16(a, b), b) =~= a);
}

/// XOR two 16-byte blocks.
pub fn xor_block(a: &[u8], b: &[u8]) -> (r: Vec<u8>)
    requires
        a@.len() == 16,
        b@.len() == 16,
    ensures
        r@ == xor16(a@, b@),
{
    let mut r: Vec<u8> = Vec::new();
    let mut i: usize = 0;
    while i < 16
        invariant
            a@.len() == 16,
            b@.len() == 16,
            i <= 16,
            r@.len() == i,
            forall|j: int| 0 <= j < i ==> r@[j] == (a@[j] ^ b@[j]),
        decreases 16 - i,
    {
        r.push(a[i] ^ b[i]);
        i += 1;
    }
    proof {
        assert(r@ =~= xor16(a@, b@));
    }
    r
}

/// Append all bytes of `src` to `dst`.
pub fn push_all(dst: &mut Vec<u8>, src: &[u8])
    ensures
        final(dst)@ == old(dst)@ + src@,
{
    let mut i: usize = 0;
    while i < src.len()
        invariant
            i <= src@.len(),
            dst@ == old(dst)@ + src@.take(i as int),
        decreases src@.len() - i,
    {
        dst.push(src[i]);
        proof {
            assert(old(dst)@ + src@.take(i as int) + seq![src@[i as int]] =~= old(dst)@
                + src@.take(i + 1));
        }
        i += 1;
    }
    proof {
        assert(old(dst)@ + src@.take(src@.len() as int) =~= old(dst)@ + src@);
    }
}

/// CBC chaining state: the key and the vector XORed into the next decrypted
/// block (the header IV at the start of the ciphertext, afterwards the
/// ciphertext block just consumed).
pub struct CbcCipher {
    key: Vec<u8>,
    chain: Vec<u8>,
}

impl CbcCipher {
    /// Sizes of the key and of the chaining vector are right.
    pub closed spec fn wf(&self) -> bool {
        self.key@.len() == 32 && self.chain@.len() == 16
    }

    /// The 32-byte key.
    pub closed spec fn key_bytes(&self) -> Seq<u8> {
        self.key@
    }

    /// The current chaining vector.
    pub closed spec fn chain_bytes(&self) -> Seq<u8> {
        self.chain@
    }

    /// A fresh chaining state over `key`, starting from `iv`.
    pub fn new(key: &[u8], iv: &[u8]) -> (r: Self)
        requires
            key@.len() == 32,
            iv@.len() == 16,
        ensures
            r.wf(),
            r.key_bytes() == key@,
            r.chain_bytes() == iv@,
    {
        CbcCipher { key: slice_to_vec(key), chain: slice_to_vec(iv) }
    }

    /// Copy out the current chaining vector.
    pub fn chain_copy(&self) -> (r: Vec<u8>)
        requires
            self.wf(),
        ensures
            r@ == self.chain_bytes(),
    {
        slice_to_vec(self.chain.as_slice())
    }

    /// Restart the chain from `iv`, keeping the key.
    pub fn reset(&mut self, iv: &[u8])
        requires
            old(self).wf(),
            iv@.len() == 16,
        ensures
            final(self).wf(),
            final(self).key_bytes() == old(self).key_bytes(),
            final(self).chain_bytes() == iv@,
    {
        self.chain = slice_to_vec(iv);
    }

    /// Decrypt one ciphertext block and advance the chain to that block.
    pub fn decrypt_block(&mut self, ct_block: &[u8]) -> (r: Vec<u8>)
        requires
            old(self).wf(),
            ct_block@.len() == 16,
        ensures
            final(self).wf(),
            final(self).key_bytes() == old(self).key_bytes(),
            final(self).chain_bytes() == ct_block@,
            r@.len() == 16,
            r@ == xor16(aes256_dec(old(self).key_bytes(), ct_block@), old(self).chain_bytes()),
    {
        let d = aes256_decrypt_block(self.key.as_slice(), ct_block);
        let r = xor_block(d.as_slice(), self.chain.as_slice());
        self.chain = slice_to_vec(ct_block);
        r
    }
}

/// PKCS#7-pad `plain` and encrypt it with AES-256-CBC.  The contract pins the
/// ciphertext down by what it decrypts to: its CBC decryption is exactly the
/// padded plaintext, which is the round-trip law.
pub fn encrypt_padded(key: &[u8], iv: &[u8], plain: &[u8]) -> (r: Vec<u8>)
    requires
        key@.len() == 32,
        iv@.len() == 16,
        plain@.len() + 16 <= usize::MAX,
    ensures
        r@.len() == pkcs7_pad(plain@).len(),
        r@.len() % 16 == 0,
        r@.len() >= 16,
        cbc_decrypt(key@, iv@, r@) == pkcs7_pad(plain@),
{
    let pad_len: usize = 16 - plain.len() % 16;
    let pad_byte: u8 = pad_len as u8;
    let mut padded: Vec<u8> = slice_to_vec(plain);
    let mut j: usize = 0;
    while j < pad_len
        invariant
            j <= pad_len,
            pad_len == 16 - plain@.len() % 16,
            pad_byte == pad_len as u8,
            plain@.len() + 16 <= usize::MAX,
            padded@ == plain@ + Seq::new(j as nat, |i: int| pad_byte),
        decreases pad_len - j,
    {
        padded.push(pad_byte);
        proof {
            assert(plain@ + Seq::new(j as nat, |i: int| pad_byte) + seq![pad_byte] =~= plain@
                + Seq::new((j + 1) as nat, |i: int| pad_byte));
        }
        j += 1;
    }
    proof {
        assert(padded@ =~= pkcs7_pad(plain@));
    }
    let total: usize = padded.len();
    let mut ct: Vec<u8> = Vec::new();
    let mut chain: Vec<u8> = slice_to_vec(iv);
    let mut off: usize = 0;
    while off < total
        invariant
            key@.len() == 32,
            chain@.len() == 16,
            off <= total,
            off % 16 == 0,
            total % 16 == 0,
            total == padded@.len(),
            padded@ == pkcs7_pad(plain@),
            ct@.len() == off,
            chain@ == cbc_block_iv(iv@, ct@, off as int / 16),
            forall|k: int|
                0 <= k < off / 16 ==> cbc_plain_block(key@, iv@, ct@, k) == padded@.subrange(
                    16 * k,
                    16 * k + 16,
                ),
        decreases total - off,
    {
        let block = slice_subrange(padded.as_slice(), off, off + 16);
        let x = xor_block(block, chain.as_slice());
        let c = aes256_encrypt_block(key, x.as_slice());
        let ghost old_ct = ct@;
        let ghost old_chain = chain@;
        chain = slice_to_vec(c.as_slice());
        push_all(&mut ct, c.as_slice());
        proof {
            let k0 = off as int / 16;
            assert(ct@ == old_ct + c@);
            assert(ct@.len() == off + 16);
            // the new block decrypts back to the padded plaintext block
            assert(ct@.subrange(16 * k0, 16 * k0 + 16) =~= c@);
            assert(cbc_block_iv(iv@, ct@, k0) =~= old_chain);
            assert(aes256_dec(key@, c@) == x@);
            lemma_xor_cancel(padded@.subrange(off as int, off as int + 16), old_chain);
            assert(cbc_plain_block(key@, iv@, ct@, k0) == padded@.subrange(
                16 * k0,
                16 * k0 + 16,
            ));
            // earlier blocks are untouched: they read only the prefix
            assert forall|k: int| 0 <= k < k0 implies cbc_plain_block(key@, iv@, ct@, k)
                == padded@.subrange(16 * k, 16 * k + 16) by {
                assert(ct@.subrange(16 * k, 16 * k + 16) =~= old_ct.subrange(
                    16 * k,
                    16 * k + 16,
                ));
                if k > 0 {
                    assert(ct@.subrange(16 * (k - 1), 16 * k) =~= old_ct.subrange(
                        16 * (k - 1),
                        16 * k,
                    ));
                }
                assert(cbc_plain_block(key@, iv@, ct@, k) == cbc_plain_block(
                    key@,
                    iv@,
                    old_ct,
                    k,
                ));
            }
            assert(cbc_block_iv(iv@, ct@, (off + 16) as int / 16) =~= chain@);
        }
        off += 16;
    }
    proof {
        let s = cbc_decrypt(key@, iv@, ct@);
        assert(s.len() == total);
        assert forall|i: int| 0 <= i < total implies s[i] == padded@[i] by {
            let k = i / 16;
            assert(0 <= k < total / 16);
            assert(cbc_plain_block(key@, iv@, ct@, k) == padded@.subrange(16 * k, 16 * k + 16));
            assert(padded@.subrange(16 * k, 16 * k + 16)[i % 16] == padded@[16 * k + i % 16]);
            assert(16 * (i / 16) + i % 16 == i);
        }
        assert(cbc_decrypt(key@, iv@, ct@) =~= padded@);
    }
    ct
}

} // verus!
