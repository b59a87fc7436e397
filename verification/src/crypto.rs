//! Cryptographic primitives the token formats rely on: the legacy 160-bit
//! digest and AES-128 in CBC mode with zero padding. The digest family and
//! the fixed, public IV are interoperability constraints of the remote
//! service, not choices of strength.
use aes::cipher::block_padding::{NoPadding, ZeroPadding};
use aes::cipher::{BlockModeDecrypt, BlockModeEncrypt, KeyIvInit};
use sha1::Digest;

use vstd::prelude::*;

verus! {

/// The length of the AES key in bytes.
pub const AES_KEY_LEN: usize = 16;

/// The size of the AES block in bytes.
pub const AES_BLOCK_SIZE: usize = 16;

/// The fixed initialization vector: sixteen bytes of 0x22. It is public and
/// constant, so it provides format compliance only, no semantic secrecy.
pub open spec fn iv_seq() -> Seq<u8> {
    Seq::new(16, |i: int| 0x22u8)
}

/// Builds the fixed IV as a byte vector.
pub fn aes_iv() -> (r: Vec<u8>)
    ensures
        r@ == iv_seq(),
{
    let mut r: Vec<u8> = Vec::new();
    let mut i: usize = 0;
    while i < 16
        invariant
            i <= 16,
            r@.len() == i,
            forall|j: int| 0 <= j < i ==> r@[j] == 0x22u8,
        decreases 16 - i,
    {
        r.push(0x22);
        i = i + 1;
    }
    proof {
        assert(r@ =~= iv_seq());
    }
    r
}

/// What the SHA-1 digest of a byte string is. The digest depends on the
/// input bytes alone.
pub uninterp spec fn sha1_of(b: Seq<u8>) -> Seq<u8>;

/// Relies on the `sha1` crate's `Sha1` hasher (through `digest::Digest`):
/// a deterministic digest of the input bytes, 20 bytes long.
#[verifier::external_body]
pub fn sha1(data: &Vec<u8>) -> (r: Vec<u8>)
    ensures
        r@ == sha1_of(data@),
        r@.len() == 20,
{
    let mut hasher = sha1::Sha1::new();
    hasher.update(data.as_slice());
    hasher.finalize().to_vec()
}

/// What AES-128-CBC encryption makes of a block-aligned byte string under
/// the given key and IV. A fixed key and IV make it a function of the
/// plaintext alone.
pub uninterp spec fn aes_cbc_of(key: Seq<u8>, iv: Seq<u8>, data: Seq<u8>) -> Seq<u8>;

/// Relies on `cbc::Encryptor<aes::Aes128>` (through
/// `cipher::BlockModeEncrypt::encrypt_padded`): AES-128-CBC encrypts the
/// block-aligned buffer in place, and the ciphertext is as long as the
/// plaintext.
#[verifier::external_body]
fn aes_cbc_encrypt_aligned(data: &mut Vec<u8>, key: &Vec<u8>, iv: &Vec<u8>)
    requires
        old(data)@.len() % 16 == 0,
        key@.len() == 16,
        iv@.len() == 16,
    ensures
        final(data)@ == aes_cbc_of(key@, iv@, old(data)@),
        final(data)@.len() == old(data)@.len(),
{
    let len = data.len();
    let enc = cbc::Encryptor::<aes::Aes128>::new_from_slices(key, iv).unwrap();
    enc.encrypt_padded::<ZeroPadding>(data.as_mut_slice(), len).unwrap();
}

/// Relies on `cbc::Decryptor<aes::Aes128>` (through
/// `cipher::BlockModeDecrypt::decrypt_padded` with no padding removal):
/// CBC decryption inverts CBC encryption block for block, so the result is
/// the unique block-aligned preimage of the input under the same key and IV.
#[verifier::external_body]
fn aes_cbc_decrypt_aligned(data: &Vec<u8>, key: &Vec<u8>, iv: &Vec<u8>) -> (r: Vec<u8>)
    requires
        data@.len() % 16 == 0,
        key@.len() == 16,
        iv@.len() == 16,
    ensures
        r@.len() == data@.len(),
        forall|p: Seq<u8>|
            p.len() == data@.len() && data@ == aes_cbc_of(key@, iv@, p) ==> r@ == p,
{
    let dec = cbc::Decryptor::<aes::Aes128>::new_from_slices(key, iv).unwrap();
    let mut buf = data.clone();
    let n = dec.decrypt_padded::<NoPadding>(buf.as_mut_slice()).unwrap().len();
    buf.truncate(n);
    buf
}

/// How many zero bytes pad a buffer of length `n` up to a block boundary.
pub open spec fn pad_len(n: nat) -> nat {
    ((16 - n % 16) % 16) as nat
}

/// A byte string zero-padded up to a multiple of the block size.
pub open spec fn zero_pad(s: Seq<u8>) -> Seq<u8> {
    s + Seq::new(pad_len(s.len()), |i: int| 0u8)
}

/// Zero-pads the buffer up to a multiple of the block size.
pub fn zero_pad_vec(data: &mut Vec<u8>)
    ensures
        final(data)@ == zero_pad(old(data)@),
        final(data)@.len() % 16 == 0,
{
    let rem = data.len() % 16;
    let pad: usize = if rem == 0 {
        0
    } else {
        16 - rem
    };
    let mut i: usize = 0;
    while i < pad
        invariant
            i <= pad,
            data@.len() == old(data)@.len() + i,
            data@ =~= old(data)@ + Seq::new(i as nat, |j: int| 0u8),
        decreases pad - i,
    {
        data.push(0);
        proof {
            assert(data@ =~= old(data)@ + Seq::new((i + 1) as nat, |j: int| 0u8));
        }
        i = i + 1;
    }
    proof {
        assert(pad == pad_len(old(data)@.len()));
        assert(data@ =~= zero_pad(old(data)@));
    }
}

/// Encrypts `data` in place with AES-128-CBC under the first 16 bytes of
/// `key` and the given IV, zero-padding it to a block boundary first, and
/// also returns the ciphertext.
pub fn aes_encrypt(data: &mut Vec<u8>, key: &Vec<u8>, iv: &Vec<u8>) -> (r: Vec<u8>)
    requires
        key@.len() >= 16,
        iv@.len() == 16,
    ensures
        final(data)@ == aes_cbc_of(key@.take(16), iv@, zero_pad(old(data)@)),
        final(data)@.len() == zero_pad(old(data)@).len(),
        r@ == final(data)@,
{
    let mut key16 = key.clone();
    key16.truncate(16);
    zero_pad_vec(data);
    aes_cbc_encrypt_aligned(data, &key16, iv);
    data.clone()
}

/// Decrypts a block-aligned AES-128-CBC ciphertext under the first 16 bytes
/// of `key` and the given IV. The result is the block-aligned plaintext the
/// ciphertext came from; trailing padding zeros are left for the caller,
/// since zero padding is not self-describing.
pub fn aes_decrypt(data: &Vec<u8>, key: &Vec<u8>, iv: &Vec<u8>) -> (r: Vec<u8>)
    requires
        data@.len() % 16 == 0,
        key@.len() >= 16,
        iv@.len() == 16,
    ensures
        r@.len() == data@.len(),
        forall|p: Seq<u8>|
            p.len() == data@.len() && data@ == aes_cbc_of(key@.take(16), iv@, p) ==> r@ == p,
{
    let mut key16 = key.clone();
    key16.truncate(16);
    aes_cbc_decrypt_aligned(data, &key16, iv)
}

/// Reverses a byte vector.
pub fn reverse_bytes(data: &Vec<u8>) -> (r: Vec<u8>)
    ensures
        r@ == data@.reverse(),
{
    let mut r: Vec<u8> = Vec::new();
    let mut i: usize = data.len();
    while i > 0
        invariant
            i <= data@.len(),
            r@.len() == data@.len() - i,
            forall|j: int| 0 <= j < r@.len() ==> r@[j] == data@[data@.len() - 1 - j],
        decreases i,
    {
        i = i - 1;
        r.push(data[i]);
    }
    proof {
        assert(r@ =~= data@.reverse());
    }
    r
}

} // verus!
