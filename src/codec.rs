//! Authenticated encryption envelope: `nonce || ChaCha20-Poly1305(plaintext)`.
use vstd::prelude::*;
use chacha20poly1305::aead::{Aead, KeyInit, OsRng};
use chacha20poly1305::{ChaCha20Poly1305, Key, Nonce};
use rand::RngCore;

verus! {

/// Length of the random nonce that starts every encrypted blob.
pub const NONCE_LEN: usize = 12;

/// Length of the Poly1305 authentication tag that ends every ciphertext.
pub const TAG_LEN: usize = 16;

/// Plaintexts must be shorter than this many bytes: the keystream starts at
/// block 1 of a 32-bit block counter, which leaves `u32::MAX - 1` 64-byte
/// blocks, that is at most `64 * (2^32 - 2)` bytes.
pub const MAX_PLAIN_LEN: u64 = 274877906817;

/// The secret shared out of band by every participating device: the ASCII
/// text `FileShareProSecureKey12345678!6!`.
pub open spec fn shared_key() -> Seq<u8> {
    seq![
        70u8, 105, 108, 101, 83, 104, 97, 114, 101, 80, 114, 111, 83, 101, 99, 117,
        114, 101, 75, 101, 121, 49, 50, 51, 52, 53, 54, 55, 56, 33, 54, 33,
    ]
}

/// The fixed 32-byte key that all devices of a network use.
pub fn generate_encryption_key() -> (r: [u8; 32])
    ensures
        r@ == shared_key(),
{
    let r: [u8; 32] = [
        70, 105, 108, 101, 83, 104, 97, 114, 101, 80, 114, 111, 83, 101, 99, 117,
        114, 101, 75, 101, 121, 49, 50, 51, 52, 53, 54, 55, 56, 33, 54, 33,
    ];
    assert(r@ =~= shared_key());
    r
}

/// Why an encrypted blob was refused.
#[derive(Debug, Clone, Copy, PartialEq, Eq, Structural)]
pub enum CodecError {
    /// The plaintext is too long for the cipher.
    TooLong,
    /// The blob is shorter than a nonce.
    Malformed,
    /// The tag did not authenticate: the blob was tampered with, or sealed
    /// under another key.
    Authentication,
}

#[verifier::external_type_specification]
#[verifier::external_body]
pub struct ExAeadError(chacha20poly1305::Error);

/// What ChaCha20-Poly1305 produces from a key, a nonce and a plaintext
/// (ciphertext followed by the tag).
pub uninterp spec fn sealed(key: Seq<u8>, nonce: Seq<u8>, plain: Seq<u8>) -> Seq<u8>;

/// Relies on `Aead::encrypt` of chacha20poly1305's `ChaCha20Poly1305`: for a
/// plaintext that the keystream can cover it returns the ciphertext with a
/// 16-byte tag appended. Longer inputs are left out: the call reserves room
/// for the whole output, and past the keystream's end it panics.
#[verifier::external_body]
fn aead_seal(key: &[u8; 32], nonce: &[u8; 12], plain: &[u8]) -> (r: Result<
    Vec<u8>,
    chacha20poly1305::Error,
>)
    requires
        plain@.len() < MAX_PLAIN_LEN,
    ensures
        r.is_ok(),
        r matches Ok(c) ==> c@ == sealed(key@, nonce@, plain@) && c@.len() == plain@.len()
            + TAG_LEN,
{
    let cipher = ChaCha20Poly1305::new(Key::from_slice(key));
    cipher.encrypt(Nonce::from_slice(nonce), plain)
}

/// Relies on `Aead::decrypt` of chacha20poly1305's `ChaCha20Poly1305`: it
/// returns a plaintext, 16 bytes shorter than its input with the tag taken
/// off, only when the tag authenticates, that is when the input is the
/// sealing of that plaintext under the key and nonce; a genuine sealing always
/// authenticates. Inputs whose message part the keystream cannot cover are
/// left out: an authentic one would make the call panic.
#[verifier::external_body]
fn aead_open(key: &[u8; 32], nonce: &[u8; 12], sealed_bytes: &[u8]) -> (r: Result<
    Vec<u8>,
    chacha20poly1305::Error,
>)
    requires
        sealed_bytes@.len() < MAX_PLAIN_LEN + TAG_LEN,
    ensures
        r matches Ok(p) ==> p@.len() < MAX_PLAIN_LEN && sealed(key@, nonce@, p@)
            == sealed_bytes@ && p@.len() + TAG_LEN == sealed_bytes@.len(),
        r matches Ok(q) ==> forall|p: Seq<u8>|
            p.len() < MAX_PLAIN_LEN && #[trigger] sealed(key@, nonce@, p) == sealed_bytes@
                ==> q@ == p,
        r is Err ==> forall|p: Seq<u8>|
            p.len() < MAX_PLAIN_LEN ==> #[trigger] sealed(key@, nonce@, p) != sealed_bytes@,
{
    let cipher = ChaCha20Poly1305::new(Key::from_slice(key));
    cipher.decrypt(Nonce::from_slice(nonce), sealed_bytes)
}

/// Relies on `RngCore::fill_bytes` of the operating system generator `OsRng`
/// (re-exported by chacha20poly1305's `aead`): twelve bytes drawn at random.
/// It panics only where the operating system cannot supply randomness.
#[verifier::external_body]
fn fresh_nonce() -> (r: [u8; 12]) {
    let mut n = [0u8; 12];
    OsRng.fill_bytes(&mut n);
    n
}

/// The blob that carries `plain` sealed under `key` with `nonce`.
pub open spec fn sealed_blob(key: Seq<u8>, nonce: Seq<u8>, plain: Seq<u8>) -> Seq<u8> {
    nonce + sealed(key, nonce, plain)
}

/// `blob` is a well-formed blob that authenticates under `key` and carries
/// `plain`.
pub open spec fn opens_to(key: Seq<u8>, blob: Seq<u8>, plain: Seq<u8>) -> bool {
    &&& blob.len() >= NONCE_LEN
    &&& plain.len() < MAX_PLAIN_LEN
    &&& blob.len() == NONCE_LEN + plain.len() + TAG_LEN
    &&& blob == sealed_blob(key, blob.subrange(0, NONCE_LEN as int), plain)
}

/// Decryption undoes encryption: a blob as `seal_with_nonce` returns it (the
/// nonce followed by the sealing of `plain`, 28 bytes longer than `plain`)
/// opens to `plain` under `key`; `encrypt_data` returns such a blob, and
/// `decrypt_data` returns exactly the plaintext a blob opens to.
pub proof fn lemma_encrypt_decrypt_round_trip(
    key: Seq<u8>,
    nonce: Seq<u8>,
    plain: Seq<u8>,
    blob: Seq<u8>,
)
    requires
        nonce.len() == NONCE_LEN,
        plain.len() < MAX_PLAIN_LEN,
        blob == sealed_blob(key, nonce, plain),
        blob.len() == NONCE_LEN + plain.len() + TAG_LEN,
    ensures
        opens_to(key, blob, plain),
{
    assert(blob.subrange(0, NONCE_LEN as int) =~= nonce);
}

/// Seals `data` under `key` with the given nonce and prefixes the nonce.
pub fn seal_with_nonce(data: &[u8], key: &[u8; 32], nonce: &[u8; 12]) -> (r: Result<
    Vec<u8>,
    CodecError,
>)
    ensures
        r.is_ok() <==> data@.len() < MAX_PLAIN_LEN,
        r matches Ok(b) ==> b@ == sealed_blob(key@, nonce@, data@) && b@.len() == NONCE_LEN
            + data@.len() + TAG_LEN,
        r matches Err(e) ==> e == CodecError::TooLong,
{
    if data.len() as u64 >= MAX_PLAIN_LEN {
        return Err(CodecError::TooLong);
    }
    match aead_seal(key, nonce, data) {
        Ok(c) => {
            let mut out: Vec<u8> = Vec::new();
            let mut i: usize = 0;
            while i < 12
                invariant
                    0 <= i <= 12,
                    nonce@.len() == 12,
                    out@ == nonce@.subrange(0, i as int),
                decreases 12 - i,
            {
                out.push(nonce[i]);
                i = i + 1;
            }
            let mut j: usize = 0;
            while j < c.len()
                invariant
                    0 <= j <= c@.len(),
                    nonce@.len() == 12,
                    out@ == nonce@ + c@.subrange(0, j as int),
                decreases c@.len() - j,
            {
                out.push(c[j]);
                j = j + 1;
            }
            assert(c@.subrange(0, c@.len() as int) == c@);
            Ok(out)
        },
        Err(_) => Err(CodecError::TooLong),
    }
}

/// Encrypts `data` under `key` with a freshly drawn nonce, returning
/// `nonce || ciphertext`.
pub fn encrypt_data(data: &[u8], key: &[u8; 32]) -> (r: Result<Vec<u8>, CodecError>)
    ensures
        r.is_ok() <==> data@.len() < MAX_PLAIN_LEN,
        r matches Ok(b) ==> opens_to(key@, b@, data@) && b@.len() == NONCE_LEN + data@.len()
            + TAG_LEN,
        r matches Err(e) ==> e == CodecError::TooLong,
{
    let nonce = fresh_nonce();
    let r = seal_with_nonce(data, key, &nonce);
    if let Ok(b) = &r {
        assert(b@.subrange(0, 12) =~= nonce@);
    }
    r
}

/// Decrypts a blob produced by `encrypt_data` under the same key.
pub fn decrypt_data(encrypted_data: &[u8], key: &[u8; 32]) -> (r: Result<Vec<u8>, CodecError>)
    ensures
        encrypted_data@.len() < NONCE_LEN ==> r == Err::<Vec<u8>, CodecError>(
            CodecError::Malformed),
        r matches Ok(p) ==> opens_to(key@, encrypted_data@, p@),
        r matches Ok(p) ==> encrypted_data@.len() == NONCE_LEN + p@.len() + TAG_LEN,
        forall|p: Seq<u8>| #[trigger]
            opens_to(key@, encrypted_data@, p) ==> (r matches Ok(q) && q@ == p),
        encrypted_data@.len() >= NONCE_LEN ==> (r matches Err(e) ==> e
            == CodecError::Authentication),
{
    if encrypted_data.len() < 12 {
        return Err(CodecError::Malformed);
    }
    if encrypted_data.len() as u64 - 12 >= MAX_PLAIN_LEN + 16 {
        return Err(CodecError::Authentication);
    }
    let mut nonce: [u8; 12] = [0u8; 12];
    let mut i: usize = 0;
    while i < 12
        invariant
            0 <= i <= 12,
            encrypted_data@.len() >= 12,
            forall|k: int| 0 <= k < i ==> nonce@[k] == encrypted_data@[k],
        decreases 12 - i,
    {
        nonce[i] = encrypted_data[i];
        i = i + 1;
    }
    let body = slice_from(encrypted_data, 12);
    let ghost n = encrypted_data@.subrange(0, 12);
    assert(nonce@ =~= n);
    assert(encrypted_data@ =~= n + body@);
    assert forall|p: Seq<u8>| #[trigger] opens_to(key@, encrypted_data@, p) implies sealed(
        key@,
        nonce@,
        p,
    ) == body@ by {
        assert(body@ =~= encrypted_data@.subrange(12, encrypted_data@.len() as int));
        assert(sealed_blob(key@, n, p).subrange(12, encrypted_data@.len() as int) =~= sealed(
            key@,
            n,
            p,
        ));
    }
    match aead_open(key, &nonce, &body) {
        Ok(p) => Ok(p),
        Err(_) => Err(CodecError::Authentication),
    }
}

/// The bytes of `s` from `start` on.
fn slice_from(s: &[u8], start: usize) -> (r: Vec<u8>)
    requires
        start <= s@.len(),
    ensures
        r@ == s@.subrange(start as int, s@.len() as int),
{
    let mut out: Vec<u8> = Vec::new();
    let mut i: usize = start;
    while i < s.len()
        invariant
            start <= i <= s@.len(),
            out@ == s@.subrange(start as int, i as int),
        decreases s@.len() - i,
    {
        out.push(s[i]);
        i = i + 1;
    }
    out
}

} // verus!
