//! Authenticated encryption of wallet entries.
//!
//! Each fixed-size entry is encrypted with a keystream derived from the
//! wallet key, a base nonce and the entry's index, and carries a digest
//! tag over its ciphertext.  The nonce advances deterministically per
//! entry, so entries encrypt and decrypt independently and the same
//! derivation is used on read and write.  A tag mismatch on decryption is
//! fatal: a partially-decryptable file is corrupt, never partially loaded.

use vstd::prelude::*;
use sha2::Digest;
use crate::constants::{DECRYPTED_ENTRY_SIZE, ENCRYPTED_ENTRY_SIZE};
use crate::error::Error;
use crate::util::le64;

verus! {

/// The SHA-256 digest of a byte sequence, named but never written out:
/// the digest is a function of the input bytes alone.
pub uninterp spec fn sha256_of(data: Seq<u8>) -> Seq<u8>;

/// Relies on sha2's `Sha256::digest`: a 32-byte digest computed from the
/// input bytes alone.
#[verifier::external_body]
pub(crate) fn sha256(data: &Vec<u8>) -> (r: Vec<u8>)
    ensures
        r@ == sha256_of(data@),
        r@.len() == 32,
{
    sha2::Sha256::digest(data.as_slice()).to_vec()
}

/// Appends all of `src` to `dst`.
pub fn push_all(dst: &mut Vec<u8>, src: &Vec<u8>)
    ensures
        final(dst)@ == old(dst)@ + src@,
{
    let mut i: usize = 0;
    while i < src.len()
        invariant
            i <= src@.len(),
            dst@ == old(dst)@ + src@.take(i as int),
        decreases src@.len() - i,
    {
        dst.push(src[i]);
        i += 1;
        proof {
            assert(dst@ =~= old(dst)@ + src@.take(i as int));
        }
    }
    proof {
        assert(old(dst)@ + src@.take(i as int) =~= old(dst)@ + src@);
    }
}

/// The input from which keystream block `j` for entry `idx` is derived.
pub open spec fn ks_block_input(key: Seq<u8>, nonce: Seq<u8>, idx: usize, j: u64) -> Seq<u8> {
    key + nonce + le64(idx as u64) + le64(j)
}

/// Byte `i` of the keystream for entry `idx`.
pub open spec fn keystream_byte(key: Seq<u8>, nonce: Seq<u8>, idx: usize, i: int) -> u8 {
    sha256_of(ks_block_input(key, nonce, idx, (i / 32) as u64))[i % 32]
}

/// XOR of a byte sequence with the keystream of entry `idx`; its own
/// inverse, so it both encrypts and decrypts.
pub open spec fn cipher_body(data: Seq<u8>, key: Seq<u8>, nonce: Seq<u8>, idx: usize) -> Seq<u8> {
    Seq::new(data.len(), |i: int| data[i] ^ keystream_byte(key, nonce, idx, i))
}

/// The 32-byte authentication tag over an entry's ciphertext.  Its
/// derivation input is longer than any keystream input, so the two never
/// collide.
pub open spec fn entry_tag(key: Seq<u8>, nonce: Seq<u8>, idx: usize, body: Seq<u8>) -> Seq<u8> {
    Seq::new(32, |i: int| sha256_of(key + nonce + le64(idx as u64) + body)[i])
}

/// The encrypted form of an entry plaintext: ciphertext then tag.
pub open spec fn encrypt_spec(pt: Seq<u8>, key: Seq<u8>, nonce: Seq<u8>, idx: usize) -> Seq<u8> {
    cipher_body(pt, key, nonce, idx) + entry_tag(key, nonce, idx, cipher_body(pt, key, nonce, idx))
}

/// What decrypting an encrypted entry yields: the plaintext when the tag
/// authenticates the ciphertext, nothing otherwise.
pub open spec fn decrypt_spec(c: Seq<u8>, key: Seq<u8>, nonce: Seq<u8>, idx: usize) -> Option<
    Seq<u8>,
> {
    let body = c.take(DECRYPTED_ENTRY_SIZE as int);
    let tag = c.skip(DECRYPTED_ENTRY_SIZE as int);
    if tag == entry_tag(key, nonce, idx, body) {
        Some(cipher_body(body, key, nonce, idx))
    } else {
        None
    }
}

/// XORs `data` with the keystream of entry `idx`.
fn xor_keystream(data: &Vec<u8>, key: &Vec<u8>, nonce: &Vec<u8>, idx: usize) -> (r: Vec<u8>)
    requires
        data@.len() % 32 == 0,
        data@.len() <= 0x10000,
    ensures
        r@ == cipher_body(data@, key@, nonce@, idx),
{
    let mut out: Vec<u8> = Vec::new();
    let mut j: usize = 0;
    let nblocks = data.len() / 32;
    while j < nblocks
        invariant
            nblocks == data@.len() / 32,
            data@.len() % 32 == 0,
            data@.len() <= 0x10000,
            j <= nblocks,
            out@ == cipher_body(data@, key@, nonce@, idx).take(32 * j),
        decreases nblocks - j,
    {
        let mut inp: Vec<u8> = Vec::new();
        push_all(&mut inp, key);
        push_all(&mut inp, nonce);
        crate::util::push_le64(&mut inp, idx as u64);
        crate::util::push_le64(&mut inp, j as u64);
        proof {
            assert(inp@ =~= ks_block_input(key@, nonce@, idx, j as u64));
        }
        let block = sha256(&inp);
        let mut k: usize = 0;
        while k < 32
            invariant
                j < nblocks,
                nblocks == data@.len() / 32,
                data@.len() % 32 == 0,
                data@.len() <= 0x10000,
                k <= 32,
                block@ == sha256_of(ks_block_input(key@, nonce@, idx, j as u64)),
                block@.len() == 32,
                out@ == cipher_body(data@, key@, nonce@, idx).take(32 * j + k),
            decreases 32 - k,
        {
            proof {
                assert((32 * j + k) / 32 == j && (32 * j + k) % 32 == k) by (nonlinear_arith)
                    requires
                        0 <= k < 32,
                        0 <= j,
                ;
                assert(32 * j + k < data@.len()) by (nonlinear_arith)
                    requires
                        j < nblocks,
                        k < 32,
                        nblocks == data@.len() / 32,
                        data@.len() % 32 == 0,
                ;
            }
            out.push(data[32 * j + k] ^ block[k]);
            k += 1;
            proof {
                assert(out@ =~= cipher_body(data@, key@, nonce@, idx).take(32 * j + k));
            }
        }
        j += 1;
        proof {
            assert(32 * (j - 1) + 32 == 32 * j) by (nonlinear_arith);
        }
    }
    proof {
        assert(32 * nblocks == data@.len()) by (nonlinear_arith)
            requires
                nblocks == data@.len() / 32,
                data@.len() % 32 == 0,
        ;
        assert(cipher_body(data@, key@, nonce@, idx).take(32 * nblocks as int) =~= cipher_body(
            data@,
            key@,
            nonce@,
            idx,
        ));
    }
    out
}

/// Encrypts one entry plaintext under the deterministic per-entry nonce
/// scheme: ciphertext followed by the authentication tag.
pub fn encrypt_entry(pt: &Vec<u8>, key: &Vec<u8>, nonce: &Vec<u8>, idx: usize) -> (r: Vec<u8>)
    requires
        pt@.len() == DECRYPTED_ENTRY_SIZE,
    ensures
        r@ == encrypt_spec(pt@, key@, nonce@, idx),
        r@.len() == ENCRYPTED_ENTRY_SIZE,
{
    let mut body = xor_keystream(pt, key, nonce, idx);
    let mut tag_input: Vec<u8> = Vec::new();
    push_all(&mut tag_input, key);
    push_all(&mut tag_input, nonce);
    crate::util::push_le64(&mut tag_input, idx as u64);
    push_all(&mut tag_input, &body);
    let tag = sha256(&tag_input);
    proof {
        assert(tag_input@ =~= key@ + nonce@ + le64(idx as u64) + body@);
        assert(tag@ =~= entry_tag(key@, nonce@, idx, body@));
    }
    let mut r = body;
    push_all(&mut r, &tag);
    r
}

/// Whether two byte vectors hold the same bytes.
pub fn bytes_equal(a: &Vec<u8>, b: &Vec<u8>) -> (r: bool)
    ensures
        r == (a@ == b@),
{
    if a.len() != b.len() {
        proof {
            assert(a@ != b@);
        }
        return false;
    }
    let mut i: usize = 0;
    while i < a.len()
        invariant
            a@.len() == b@.len(),
            i <= a@.len(),
            forall|j: int| 0 <= j < i ==> a@[j] == b@[j],
        decreases a@.len() - i,
    {
        if a[i] != b[i] {
            proof {
                assert(a@ != b@);
            }
            return false;
        }
        i += 1;
    }
    proof {
        assert(a@ =~= b@);
    }
    true
}

/// Decrypts one encrypted entry, failing if the authentication tag does
/// not match the ciphertext.
pub fn decrypt_entry(c: &Vec<u8>, key: &Vec<u8>, nonce: &Vec<u8>, idx: usize) -> (r: Result<
    Vec<u8>,
    Error,
>)
    requires
        c@.len() == ENCRYPTED_ENTRY_SIZE,
    ensures
        match r {
            Ok(d) => decrypt_spec(c@, key@, nonce@, idx) == Some(d@) && d@.len()
                == DECRYPTED_ENTRY_SIZE,
            Err(e) => decrypt_spec(c@, key@, nonce@, idx) is None && e
                == Error::EntryDecryptionFailed { entry_index: idx },
        },
{
    let mut body: Vec<u8> = Vec::new();
    let mut i: usize = 0;
    while i < DECRYPTED_ENTRY_SIZE
        invariant
            c@.len() == ENCRYPTED_ENTRY_SIZE,
            i <= DECRYPTED_ENTRY_SIZE,
            body@ == c@.take(i as int),
        decreases DECRYPTED_ENTRY_SIZE - i,
    {
        body.push(c[i]);
        i += 1;
        proof {
            assert(body@ =~= c@.take(i as int));
        }
    }
    let mut stored_tag: Vec<u8> = Vec::new();
    while i < ENCRYPTED_ENTRY_SIZE
        invariant
            c@.len() == ENCRYPTED_ENTRY_SIZE,
            DECRYPTED_ENTRY_SIZE <= i <= ENCRYPTED_ENTRY_SIZE,
            stored_tag@ == c@.subrange(DECRYPTED_ENTRY_SIZE as int, i as int),
        decreases ENCRYPTED_ENTRY_SIZE - i,
    {
        stored_tag.push(c[i]);
        i += 1;
        proof {
            assert(stored_tag@ =~= c@.subrange(DECRYPTED_ENTRY_SIZE as int, i as int));
        }
    }
    proof {
        assert(stored_tag@ =~= c@.skip(DECRYPTED_ENTRY_SIZE as int));
    }
    let mut tag_input: Vec<u8> = Vec::new();
    push_all(&mut tag_input, key);
    push_all(&mut tag_input, nonce);
    crate::util::push_le64(&mut tag_input, idx as u64);
    push_all(&mut tag_input, &body);
    let computed_tag = sha256(&tag_input);
    proof {
        assert(tag_input@ =~= key@ + nonce@ + le64(idx as u64) + body@);
        assert(computed_tag@ =~= entry_tag(key@, nonce@, idx, body@));
    }
    if !bytes_equal(&stored_tag, &computed_tag) {
        return Err(Error::EntryDecryptionFailed { entry_index: idx });
    }
    Ok(xor_keystream(&body, key, nonce, idx))
}

/// An encrypted entry is always exactly the plaintext size plus the
/// 32-byte tag.
pub proof fn lemma_encrypt_spec_len(pt: Seq<u8>, key: Seq<u8>, nonce: Seq<u8>, idx: usize)
    requires
        pt.len() == DECRYPTED_ENTRY_SIZE,
    ensures
        encrypt_spec(pt, key, nonce, idx).len() == ENCRYPTED_ENTRY_SIZE,
{
}

/// XOR with the same byte twice gives the byte back.
proof fn lemma_xor_involution(x: u8, y: u8)
    ensures
        (x ^ y) ^ y == x,
{
    assert((x ^ y) ^ y == x) by (bit_vector);
}

/// Round trip: decrypting what was encrypted under the same key, nonce
/// and entry index yields the original plaintext.
pub proof fn lemma_entry_roundtrip(pt: Seq<u8>, key: Seq<u8>, nonce: Seq<u8>, idx: usize)
    requires
        pt.len() == DECRYPTED_ENTRY_SIZE,
    ensures
        decrypt_spec(encrypt_spec(pt, key, nonce, idx), key, nonce, idx) == Some(pt),
{
    let body = cipher_body(pt, key, nonce, idx);
    let tag = entry_tag(key, nonce, idx, body);
    let c = encrypt_spec(pt, key, nonce, idx);
    assert(c.take(DECRYPTED_ENTRY_SIZE as int) =~= body);
    assert(c.skip(DECRYPTED_ENTRY_SIZE as int) =~= tag);
    assert forall|i: int| 0 <= i < pt.len() implies cipher_body(body, key, nonce, idx)[i]
        == pt[i] by {
        lemma_xor_involution(pt[i], keystream_byte(key, nonce, idx, i));
    }
    assert(cipher_body(body, key, nonce, idx) =~= pt);
}

/// Authentication: altering the stored tag of an encrypted entry makes
/// decryption fail rather than yield a different plaintext.  (Altering
/// ciphertext bits is caught because the tag is a collision-resistant
/// digest of the ciphertext; that resistance lives in the hash and is
/// exercised by tests, not provable here.)
pub proof fn lemma_tampered_tag_fails(pt: Seq<u8>, key: Seq<u8>, nonce: Seq<u8>, idx: usize,
    c2: Seq<u8>)
    requires
        pt.len() == DECRYPTED_ENTRY_SIZE,
        c2.len() == ENCRYPTED_ENTRY_SIZE,
        c2.take(DECRYPTED_ENTRY_SIZE as int) == encrypt_spec(pt, key, nonce, idx).take(
            DECRYPTED_ENTRY_SIZE as int,
        ),
        c2.skip(DECRYPTED_ENTRY_SIZE as int) != encrypt_spec(pt, key, nonce, idx).skip(
            DECRYPTED_ENTRY_SIZE as int,
        ),
    ensures
        decrypt_spec(c2, key, nonce, idx) is None,
{
    let body = cipher_body(pt, key, nonce, idx);
    let c = encrypt_spec(pt, key, nonce, idx);
    assert(c.take(DECRYPTED_ENTRY_SIZE as int) =~= body);
    assert(c.skip(DECRYPTED_ENTRY_SIZE as int) =~= entry_tag(key, nonce, idx, body));
}

} // verus!
