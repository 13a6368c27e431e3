//! Authentication, key agreement, compression and sealing of the hidden
//! states that travel between pipeline stages.

use aes_gcm::aead::{Aead, KeyInit, Payload};
use aes_gcm::{Aes256Gcm, Nonce};
use hkdf::Hkdf;
use hmac::{Hmac, Mac};
use rand::rngs::OsRng;
use rand::RngCore;
use sha2::{Digest, Sha256};
use vstd::prelude::*;
use vstd::string::*;
use x25519_dalek::{PublicKey, StaticSecret};

verus! {

// ── Outside types ─────────────────────────────────────────────

#[verifier::external_type_specification]
#[verifier::external_body]
pub struct ExAeadError(aes_gcm::Error);

#[verifier::external_type_specification]
#[verifier::external_body]
pub struct ExIoError(std::io::Error);

#[verifier::external_type_specification]
#[verifier::external_body]
pub struct ExHkdfInvalidLength(hkdf::InvalidLength);

// ── Names for what the primitives compute ─────────────────────

/// The AES-256-GCM ciphertext-and-tag of `msg` under `key`, `nonce`, `aad`.
pub uninterp spec fn aes256_gcm_seal(key: Seq<u8>, nonce: Seq<u8>, msg: Seq<u8>, aad: Seq<u8>) -> Seq<u8>;

/// What AES-256-GCM decryption of `ct` under `key`, `nonce`, `aad` gives:
/// the plaintext, or `None` when the tag does not verify or a length limit
/// is exceeded.
pub uninterp spec fn aes256_gcm_open(key: Seq<u8>, nonce: Seq<u8>, ct: Seq<u8>, aad: Seq<u8>) -> Option<Seq<u8>>;

/// HMAC-SHA256 of `msg` under `key`.
pub uninterp spec fn hmac_sha256(key: Seq<u8>, msg: Seq<u8>) -> Seq<u8>;

/// SHA-256 digest of `data`.
pub uninterp spec fn sha256(data: Seq<u8>) -> Seq<u8>;

/// The X25519 public key of a 32-byte secret.
pub uninterp spec fn x25519_public_key(secret: Seq<u8>) -> Seq<u8>;

/// The X25519 shared secret of `secret` with a peer's `public` key.
pub uninterp spec fn x25519_shared(secret: Seq<u8>, public: Seq<u8>) -> Seq<u8>;

/// The 32-byte HKDF-SHA256 output key for `salt`, input key material `ikm`
/// and context `info`.
pub uninterp spec fn hkdf_sha256_32(salt: Seq<u8>, ikm: Seq<u8>, info: Seq<u8>) -> Seq<u8>;

/// The zstd frame produced for `data` at compression `level`.
pub uninterp spec fn zstd_compressed(data: Seq<u8>, level: int) -> Seq<u8>;

/// What a zstd stream decodes to, or `None` when it is not a valid stream.
pub uninterp spec fn zstd_decoded(stream: Seq<u8>) -> Option<Seq<u8>>;

/// Longest plaintext AES-GCM accepts, and longest associated data.
pub open spec fn aes_gcm_p_max() -> int { 0x10_0000_0000 }
pub open spec fn aes_gcm_a_max() -> int { 0x10_0000_0000 }

// ── Trusted items ─────────────────────────────────────────────

/// Calls `Aead::encrypt` of `aes_gcm::Aes256Gcm` with a payload of `msg`
/// and `aad`. Claims: it succeeds exactly when `msg` and `aad` are each at
/// most 2^36 bytes long, and then returns the ciphertext-and-tag named by
/// `aes256_gcm_seal`.
#[verifier::external_body]
fn aes_gcm_encrypt(key: &[u8; 32], nonce: &[u8; 12], msg: &[u8], aad: &[u8]) -> (r: Result<Vec<u8>, aes_gcm::Error>)
    ensures
        r is Ok <==> (msg@.len() <= aes_gcm_p_max() && aad@.len() <= aes_gcm_a_max()),
        r matches Ok(c) ==> c@ == aes256_gcm_seal(key@, nonce@, msg@, aad@),
        r matches Ok(c) ==> aes256_gcm_open(key@, nonce@, c@, aad@) == Some(msg@),
{
    Aes256Gcm::new(key.into()).encrypt(Nonce::from_slice(nonce), Payload { msg, aad })
}

/// Calls `Aead::decrypt` of `aes_gcm::Aes256Gcm` with a payload of `ct`
/// and `aad`. Claims that the outcome is the one named by
/// `aes256_gcm_open`.
#[verifier::external_body]
fn aes_gcm_decrypt(key: &[u8; 32], nonce: &[u8], ct: &[u8], aad: &[u8]) -> (r: Result<Vec<u8>, aes_gcm::Error>)
    requires
        nonce@.len() == 12,
    ensures
        r matches Ok(p) ==> aes256_gcm_open(key@, nonce@, ct@, aad@) == Some(p@),
        r is Err ==> aes256_gcm_open(key@, nonce@, ct@, aad@) is None,
{
    Aes256Gcm::new(key.into()).decrypt(Nonce::from_slice(nonce), Payload { msg: ct, aad })
}

/// Calls `Mac::finalize` of `Hmac<Sha256>` keyed with `key` after updating
/// it with `msg`. Claims the 32-byte tag is the one named by `hmac_sha256`.
#[verifier::external_body]
fn hmac_sha256_tag(key: &[u8], msg: &[u8]) -> (r: Vec<u8>)
    ensures
        r@ == hmac_sha256(key@, msg@),
        r@.len() == 32,
{
    let mut mac = <Hmac<Sha256> as KeyInit>::new_from_slice(key).unwrap();
    mac.update(msg);
    mac.finalize().into_bytes().to_vec()
}

/// Calls `Mac::verify_slice` of `Hmac<Sha256>` keyed with `key` after
/// updating it with `msg`. Claims it accepts exactly the tag named by
/// `hmac_sha256` (it compares lengths, then all bytes).
#[verifier::external_body]
fn hmac_sha256_verify(key: &[u8], msg: &[u8], tag: &[u8]) -> (r: bool)
    ensures
        r == (tag@ == hmac_sha256(key@, msg@)),
{
    let mut mac = <Hmac<Sha256> as KeyInit>::new_from_slice(key).unwrap();
    mac.update(msg);
    mac.verify_slice(tag).is_ok()
}

/// Calls `Sha256::digest`. Claims the digest named by `sha256`.
#[verifier::external_body]
fn sha256_digest(data: &[u8]) -> (r: [u8; 32])
    ensures
        r@ == sha256(data@),
{
    Sha256::digest(data).into()
}

/// Calls `RngCore::fill_bytes` of `rand::rngs::OsRng` on a zeroed array.
/// Nothing is claimed of the bytes: they come from the operating system.
#[verifier::external_body]
fn os_random_bytes<const N: usize>() -> (r: [u8; N]) {
    let mut bytes = [0u8; N];
    OsRng.fill_bytes(&mut bytes);
    bytes
}

/// Calls `StaticSecret::random_from_rng(OsRng)` and returns its bytes.
/// Nothing is claimed of them: they come from the operating system.
#[verifier::external_body]
fn x25519_random_secret() -> (r: [u8; 32]) {
    StaticSecret::random_from_rng(OsRng).to_bytes()
}

/// Calls `PublicKey::from(&StaticSecret::from(secret))`. Claims the key
/// named by `x25519_public_key`.
#[verifier::external_body]
fn x25519_public(secret: &[u8; 32]) -> (r: [u8; 32])
    ensures
        r@ == x25519_public_key(secret@),
{
    PublicKey::from(&StaticSecret::from(*secret)).to_bytes()
}

/// `shared` is what the owner of any secret `b` whose public key is
/// `their_public` computes with `my_secret`'s public key: X25519 agreement.
pub open spec fn agreed_by_peer(my_secret: Seq<u8>, their_public: Seq<u8>, shared: Seq<u8>) -> bool {
    forall|b: Seq<u8>|
        #![trigger x25519_shared(b, x25519_public_key(my_secret)), x25519_public_key(b)]
        their_public == x25519_public_key(b) ==> shared == x25519_shared(b, x25519_public_key(my_secret))
}

/// Calls `StaticSecret::diffie_hellman` with the peer's public key.
/// Claims the secret named by `x25519_shared`, and the agreement that
/// x25519-dalek documents: the peer, holding the secret of `their_public`,
/// computes the same shared secret with our public key.
#[verifier::external_body]
fn x25519_agree(secret: &[u8; 32], their_public: &[u8; 32]) -> (r: [u8; 32])
    ensures
        r@ == x25519_shared(secret@, their_public@),
        agreed_by_peer(secret@, their_public@, r@),
{
    StaticSecret::from(*secret).diffie_hellman(&PublicKey::from(*their_public)).to_bytes()
}

/// Calls `Hkdf::<Sha256>::new(Some(salt), ikm)` and `expand(info, ..)` into
/// 32 bytes. Claims success (the source refuses only outputs longer than
/// 255 × 32 bytes) and the key named by `hkdf_sha256_32`.
#[verifier::external_body]
fn hkdf_sha256_expand(salt: &[u8], ikm: &[u8; 32], info: &[u8]) -> (r: Result<[u8; 32], hkdf::InvalidLength>)
    ensures
        r is Ok,
        r matches Ok(k) ==> k@ == hkdf_sha256_32(salt@, ikm@, info@),
{
    let mut okm = [0u8; 32];
    match Hkdf::<Sha256>::new(Some(salt), ikm).expand(info, &mut okm) {
        Ok(()) => Ok(okm),
        Err(e) => Err(e),
    }
}

/// Calls `zstd::bulk::compress`. Claims that it succeeds (it compresses into
/// a buffer of `compress_bound` bytes, which always suffices; zstd clamps
/// the level into its range), and that the frame is the one named by `zstd_compressed` and
/// decodes back to `data` (zstd is lossless).
#[verifier::external_body]
fn zstd_compress(data: &[u8], level: i32) -> (r: Result<Vec<u8>, std::io::Error>)
    ensures
        r is Ok,
        r matches Ok(c) ==> c@ == zstd_compressed(data@, level as int) && zstd_decoded(c@) == Some(
            data@,
        ),
{
    zstd::bulk::compress(data, level)
}

/// Calls `zstd::bulk::decompress` with a capacity. Claims that what it
/// returns is what the input decodes to, and that a frame zstd made at the
/// library's level from content that fits the capacity decodes (the buffer
/// holds the whole capacity and such a frame stays within the decoder's
/// default window limit). Success on other inputs is not claimed: they may
/// be no zstd stream, ask for a larger window, or decode to more than the
/// capacity.
#[verifier::external_body]
fn zstd_decompress(data: &[u8], capacity: usize) -> (r: Result<Vec<u8>, std::io::Error>)
    ensures
        r matches Ok(d) ==> zstd_decoded(data@) == Some(d@),
        zstd_decoded(data@) matches Some(d) && data@ == zstd_compressed(d, COMPRESSION_LEVEL as int)
            && d.len() <= capacity ==> r is Ok,
{
    zstd::bulk::decompress(data, capacity)
}

// ── Library ───────────────────────────────────────────────────

/// Length of the random AES-GCM nonce that prefixes every sealed payload.
pub const NONCE_LEN: usize = 12;

/// zstd level used for hidden states.
pub const COMPRESSION_LEVEL: i32 = 3;

/// Largest payload `decompress` accepts (256 MiB), a guard against
/// decompression bombs.
pub const DECOMPRESS_LIMIT: usize = 268435456;

/// Context string of the session-key derivation.
pub open spec fn session_info() -> Seq<u8> {
    "neural-swarm-ai-v0.2-session".spec_bytes()
}

/// `out` is `data` sealed under `key` with associated data `aad`: a 12-byte
/// nonce followed by the AES-256-GCM ciphertext-and-tag for that nonce,
/// which decrypts back to `data`.
pub open spec fn sealed_by(key: Seq<u8>, aad: Seq<u8>, data: Seq<u8>, out: Seq<u8>) -> bool {
    &&& out.len() >= NONCE_LEN
    &&& out.skip(NONCE_LEN as int) == aes256_gcm_seal(key, out.take(NONCE_LEN as int), data, aad)
    &&& aes256_gcm_open(key, out.take(NONCE_LEN as int), out.skip(NONCE_LEN as int), aad) == Some(data)
}

/// Whether AES-GCM accepts a payload of these lengths.
pub open spec fn within_gcm_limits(data: Seq<u8>, aad: Seq<u8>) -> bool {
    data.len() <= aes_gcm_p_max() && aad.len() <= aes_gcm_a_max()
}

/// The outcome of opening a sealed payload: too short, refused by
/// AES-GCM, or the plaintext.
pub open spec fn opened(key: Seq<u8>, data: Seq<u8>, aad: Seq<u8>) -> Result<Seq<u8>, Seq<char>> {
    if data.len() < NONCE_LEN {
        Err("Data too short for decryption"@)
    } else {
        match aes256_gcm_open(key, data.take(NONCE_LEN as int), data.skip(NONCE_LEN as int), aad) {
            Some(p) => Ok(p),
            None => Err("Decryption failed: aead::Error"@),
        }
    }
}

/// A byte-or-message result seen through the views of its parts.
pub open spec fn bytes_or_message(r: Result<Vec<u8>, String>) -> Result<Seq<u8>, Seq<char>> {
    match r {
        Ok(v) => Ok(v@),
        Err(e) => Err(e@),
    }
}

/// The key that the legacy `encrypt`/`decrypt` derive from a shared secret.
pub open spec fn legacy_key(secret: Seq<u8>) -> Seq<u8> {
    sha256(secret)
}

/// `packed` is what `compress` returns for `data`.
pub open spec fn compressed_form(data: Seq<u8>, packed: Seq<u8>) -> bool {
    packed == zstd_compressed(data, COMPRESSION_LEVEL as int) && zstd_decoded(packed) == Some(data)
}

/// `packed` is a frame `compress` makes, of content no larger than
/// `decompress` accepts.
pub open spec fn decodes_within_limit(packed: Seq<u8>) -> bool {
    zstd_decoded(packed) matches Some(d) && packed == zstd_compressed(d, COMPRESSION_LEVEL as int) && d.len()
        <= DECOMPRESS_LIMIT
}

/// `unpacked` is what `decompress` returns for `packed`.
pub open spec fn decompressed_form(packed: Seq<u8>, unpacked: Seq<u8>) -> bool {
    zstd_decoded(packed) == Some(unpacked)
}

/// The tag `sign_hmac` produces for a nonce under a secret.
pub open spec fn hmac_signature(secret: Seq<u8>, nonce: Seq<u8>) -> Seq<u8> {
    hmac_sha256(secret, nonce)
}

/// Whether `verify_hmac` accepts `tag` for a nonce under a secret.
pub open spec fn hmac_accepts(secret: Seq<u8>, nonce: Seq<u8>, tag: Seq<u8>) -> bool {
    tag == hmac_sha256(secret, nonce)
}

/// The session key both sides of a handshake derive.
pub open spec fn session_key(my_secret: Seq<u8>, their_public: Seq<u8>, salt: Seq<u8>) -> Seq<u8> {
    hkdf_sha256_32(salt, x25519_shared(my_secret, their_public), session_info())
}

/// Generates a random 32-byte nonce for an authentication challenge.
pub fn generate_nonce() -> (r: [u8; 32]) {
    os_random_bytes::<32>()
}

/// Signs a nonce with HMAC-SHA256 under the shared secret.
pub fn sign_hmac(nonce: &[u8; 32], secret: &str) -> (r: Vec<u8>)
    ensures
        r@ == hmac_signature(secret.spec_bytes(), nonce@),
{
    hmac_sha256_tag(secret.as_bytes(), nonce.as_slice())
}

/// Checks a received tag against the HMAC-SHA256 of the nonce under the
/// shared secret.
pub fn verify_hmac(nonce: &[u8; 32], secret: &str, received_hash: &[u8]) -> (r: bool)
    ensures
        r == hmac_accepts(secret.spec_bytes(), nonce@, received_hash@),
{
    hmac_sha256_verify(secret.as_bytes(), nonce.as_slice(), received_hash)
}

/// Generates an ephemeral X25519 key pair: the secret's bytes and the
/// matching public key.
pub fn generate_ecdh_keys() -> (r: ([u8; 32], [u8; 32]))
    ensures
        r.1@ == x25519_public_key(r.0@),
{
    let secret = x25519_random_secret();
    let public = x25519_public(&secret);
    (secret, public)
}

/// Derives a 32-byte session key: X25519 agreement with the peer's public
/// key, then HKDF-SHA256 with `salt` and the session context string. Both
/// ends of a handshake derive the same key: the peer that holds the secret
/// of `their_public` derives it from our public key.
pub fn derive_session_key(my_secret: &[u8; 32], their_public: &[u8; 32], salt: &[u8]) -> (r: [u8; 32])
    ensures
        r@ == session_key(my_secret@, their_public@, salt@),
        forall|b: Seq<u8>|
            #![trigger session_key(b, x25519_public_key(my_secret@), salt@)]
            their_public@ == x25519_public_key(b) ==> r@ == session_key(b, x25519_public_key(my_secret@), salt@),
{
    let shared = x25519_agree(my_secret, their_public);
    let info = "neural-swarm-ai-v0.2-session".as_bytes();
    match hkdf_sha256_expand(salt, &shared, info) {
        Ok(key) => {
            proof {
                assert forall|b: Seq<u8>|
                    #![trigger session_key(b, x25519_public_key(my_secret@), salt@)]
                    their_public@ == x25519_public_key(b) implies key@ == session_key(
                    b,
                    x25519_public_key(my_secret@),
                    salt@,
                ) by {
                    assert(shared@ == x25519_shared(b, x25519_public_key(my_secret@)));
                }
            }
            key
        },
        Err(_) => {
            proof {
                assert(false);
            }
            [0u8; 32]
        },
    }
}

/// Compresses data with zstd at level 3.
pub fn compress(data: &[u8]) -> (r: Result<Vec<u8>, std::io::Error>)
    ensures
        r is Ok,
        r matches Ok(c) ==> compressed_form(data@, c@),
{
    zstd_compress(data, COMPRESSION_LEVEL)
}

/// Decompresses zstd data of at most 256 MiB.
pub fn decompress(data: &[u8]) -> (r: Result<Vec<u8>, std::io::Error>)
    ensures
        r matches Ok(d) ==> decompressed_form(data@, d@),
        decodes_within_limit(data@) ==> r is Ok,
{
    zstd_decompress(data, DECOMPRESS_LIMIT)
}

/// `prefix` followed by `rest`.
fn concat_bytes(prefix: &[u8], rest: Vec<u8>) -> (r: Vec<u8>)
    ensures
        r@ == prefix@ + rest@,
{
    let mut out: Vec<u8> = Vec::new();
    let n = prefix.len();
    for i in 0..n
        invariant
            n == prefix@.len(),
            out@ == prefix@.take(i as int),
    {
        out.push(prefix[i]);
        assert(out@ == prefix@.take(i + 1));
    }
    assert(prefix@.take(n as int) == prefix@);
    let mut rest = rest;
    out.append(&mut rest);
    out
}

/// Seals a payload with AES-256-GCM under a fresh random nonce, bound to the
/// associated data `aad` (a task id, so that a payload cannot be replayed
/// into another task). The output is the nonce followed by the ciphertext.
pub fn encrypt_with_aad(data: &[u8], key: &[u8; 32], aad: &[u8]) -> (r: Result<Vec<u8>, String>)
    ensures
        r is Ok <==> within_gcm_limits(data@, aad@),
        r matches Ok(c) ==> sealed_by(key@, aad@, data@, c@),
        r matches Err(e) ==> e@ == "Encryption failed: aead::Error"@,
{
    let nonce: [u8; 12] = os_random_bytes::<12>();
    match aes_gcm_encrypt(key, &nonce, data, aad) {
        Ok(ciphertext) => {
            let out = concat_bytes(nonce.as_slice(), ciphertext);
            proof {
                assert(out@.take(NONCE_LEN as int) == nonce@);
                assert(out@.skip(NONCE_LEN as int) == ciphertext@);
            }
            Ok(out)
        },
        Err(_) => Err(String::from_str("Encryption failed: aead::Error")),
    }
}

/// Opens a payload sealed by [`encrypt_with_aad`] under the same key and
/// associated data.
pub fn decrypt_with_aad(data: &[u8], key: &[u8; 32], aad: &[u8]) -> (r: Result<Vec<u8>, String>)
    ensures
        bytes_or_message(r) == opened(key@, data@, aad@),
{
    if data.len() < NONCE_LEN {
        return Err(String::from_str("Data too short for decryption"));
    }
    let (nonce_bytes, ciphertext) = data.split_at(NONCE_LEN);
    assert(nonce_bytes@ == data@.take(NONCE_LEN as int));
    assert(ciphertext@ == data@.skip(NONCE_LEN as int));
    match aes_gcm_decrypt(key, nonce_bytes, ciphertext, aad) {
        Ok(plain) => Ok(plain),
        Err(_) => Err(String::from_str("Decryption failed: aead::Error")),
    }
}

/// Seals with a key derived from a shared secret (SHA-256 of its bytes) and
/// no associated data.
pub fn encrypt(data: &[u8], secret: &str) -> (r: Result<Vec<u8>, String>)
    ensures
        r is Ok <==> within_gcm_limits(data@, Seq::<u8>::empty()),
        r matches Ok(c) ==> sealed_by(legacy_key(secret.spec_bytes()), Seq::<u8>::empty(), data@, c@),
        r matches Err(e) ==> e@ == "Encryption failed: aead::Error"@,
{
    let key = sha256_digest(secret.as_bytes());
    let no_aad: [u8; 0] = [];
    assert(no_aad@ =~= Seq::<u8>::empty());
    encrypt_with_aad(data, &key, no_aad.as_slice())
}

/// Opens a payload sealed by [`encrypt`] with the same shared secret.
pub fn decrypt(data: &[u8], secret: &str) -> (r: Result<Vec<u8>, String>)
    ensures
        bytes_or_message(r) == opened(legacy_key(secret.spec_bytes()), data@, Seq::<u8>::empty()),
{
    let key = sha256_digest(secret.as_bytes());
    let no_aad: [u8; 0] = [];
    assert(no_aad@ =~= Seq::<u8>::empty());
    decrypt_with_aad(data, &key, no_aad.as_slice())
}

// ── Laws ──────────────────────────────────────────────────────

/// Opening a sealed payload with the same key and associated data gives back
/// the plaintext.
pub proof fn lemma_open_inverts_seal(key: Seq<u8>, aad: Seq<u8>, data: Seq<u8>, sealed: Seq<u8>)
    requires
        sealed_by(key, aad, data, sealed),
    ensures
        opened(key, sealed, aad) == Ok::<Seq<u8>, Seq<char>>(data),
{
}

/// A tag made by `sign_hmac` is accepted by `verify_hmac` for the same nonce
/// and secret.
pub proof fn lemma_signature_verifies(secret: Seq<u8>, nonce: Seq<u8>)
    ensures
        hmac_accepts(secret, nonce, hmac_signature(secret, nonce)),
{
}

/// A tag is accepted only if it is exactly the signature.
pub proof fn lemma_only_signature_verifies(secret: Seq<u8>, nonce: Seq<u8>, tag: Seq<u8>)
    requires
        hmac_accepts(secret, nonce, tag),
    ensures
        tag == hmac_signature(secret, nonce),
{
}

/// Decompressing what `compress` produced gives back the data it compressed.
pub proof fn lemma_decompress_inverts_compress(data: Seq<u8>, packed: Seq<u8>, unpacked: Seq<u8>)
    requires
        compressed_form(data, packed),
        decompressed_form(packed, unpacked),
    ensures
        unpacked == data,
{
}

/// Compression is deterministic: the same data always compresses to the same
/// frame.
pub proof fn lemma_compress_deterministic(data: Seq<u8>, packed1: Seq<u8>, packed2: Seq<u8>)
    requires
        compressed_form(data, packed1),
        compressed_form(data, packed2),
    ensures
        packed1 == packed2,
{
}

} // verus!
