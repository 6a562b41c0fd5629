//! End-to-end encryption: X25519 session keys stretched by HKDF-SHA256, and
//! ChaCha20-Poly1305 authenticated encryption.
use chacha20poly1305::aead::Error as AeadError;
use chacha20poly1305::aead::{Aead, KeyInit, Payload};
use chacha20poly1305::{ChaCha20Poly1305, Key, Nonce};
use hkdf::Hkdf;
use sha2::Sha256;
use vstd::arithmetic::power2::pow2;
use vstd::prelude::*;
use vstd::string::StringSliceAdditionalSpecFns;
use x25519_dalek::{PublicKey, StaticSecret};

use crate::error::Error;
use crate::random::fill_random;

verus! {

/// Length in bytes of a session key (and of X25519 secrets and public keys).
pub const KEY_LEN: usize = 32;

/// Length in bytes of a ChaCha20-Poly1305 nonce.
pub const NONCE_LEN: usize = 12;

/// Length in bytes of the authentication tag appended to every ciphertext.
pub const TAG_LEN: usize = 16;

/// ChaCha20-Poly1305 refuses (with an error) messages of this many bytes and
/// more: 64 * (2^32 - 1), the bytes of a full 32-bit ChaCha20 block counter.
pub const AEAD_MESSAGE_LIMIT: u64 = 274_877_906_880;

/// The most bytes ChaCha20-Poly1305 can encrypt or decrypt: block 0 of the
/// keystream keys Poly1305, so 2^32 - 2 blocks of 64 bytes are left.
pub const KEYSTREAM_LIMIT: u64 = 274_877_906_816;

/// A message length that ChaCha20-Poly1305 neither refuses nor can process:
/// above `KEYSTREAM_LIMIT` and below `AEAD_MESSAGE_LIMIT` the keystream runs
/// out and the cipher panics.
pub open spec fn in_keystream_gap(len: int) -> bool {
    KEYSTREAM_LIMIT < len < AEAD_MESSAGE_LIMIT
}

// ---------------------------------------------------------------------------
// Names for what the outside primitives compute.

/// The X25519 public key of a 32-byte secret (RFC 7748, with clamping).
pub uninterp spec fn x25519_public_key(secret: Seq<u8>) -> Seq<u8>;

/// The X25519 shared secret of our 32-byte secret and their public key.
pub uninterp spec fn x25519_shared_secret(secret: Seq<u8>, their_public: Seq<u8>) -> Seq<u8>;

/// HKDF-SHA256 (RFC 5869): extract with `salt` from `ikm`, then expand with
/// `info` to `len` bytes.
pub uninterp spec fn hkdf_sha256(salt: Seq<u8>, ikm: Seq<u8>, info: Seq<u8>, len: nat) -> Seq<u8>;

/// The ChaCha20-Poly1305 (RFC 8439) ciphertext of `plaintext` under `key`,
/// `nonce` and associated data `aad`, with the tag appended.
pub uninterp spec fn chacha20poly1305_seal(
    key: Seq<u8>,
    nonce: Seq<u8>,
    plaintext: Seq<u8>,
    aad: Seq<u8>,
) -> Seq<u8>;

/// The little-endian value of a byte sequence.
pub open spec fn le_value(bytes: Seq<u8>) -> nat
    decreases bytes.len(),
{
    if bytes.len() == 0 {
        0
    } else {
        bytes[0] as nat + 256 * le_value(bytes.drop_first())
    }
}

/// The point (Montgomery u-coordinate) that a 32-byte X25519 public key
/// stands for: the key's low 255 bits, read little-endian, modulo the field
/// prime 2^255 - 19. Two keys are the same public key when their points are
/// equal.
pub open spec fn key_point(key: Seq<u8>) -> int {
    (le_value(key) % pow2(255)) as int % (pow2(255) - 19)
}

/// `ciphertext` is what ChaCha20-Poly1305 makes of `plaintext` under `key`,
/// `nonce` and `aad`, for a plaintext short enough to be encrypted at all.
pub open spec fn seals_to(
    key: Seq<u8>,
    nonce: Seq<u8>,
    plaintext: Seq<u8>,
    aad: Seq<u8>,
    ciphertext: Seq<u8>,
) -> bool {
    plaintext.len() <= KEYSTREAM_LIMIT && ciphertext == chacha20poly1305_seal(
        key,
        nonce,
        plaintext,
        aad,
    )
}

// ---------------------------------------------------------------------------
// Trusted items.

/// Declares `hkdf::InvalidLength`, the error of `Hkdf::expand`.
#[verifier::external_type_specification]
#[verifier::external_body]
pub struct ExHkdfInvalidLength(hkdf::InvalidLength);

/// Declares `chacha20poly1305::aead::Error`, the opaque AEAD error.
#[verifier::external_type_specification]
#[verifier::external_body]
pub struct ExAeadError(AeadError);

/// `PublicKey::from(&StaticSecret::from(secret))` of x25519-dalek, as bytes.
/// Claimed: the result is a function of the secret alone.
#[verifier::external_body]
pub(crate) fn x25519_public_of(secret: &[u8; KEY_LEN]) -> (public: [u8; KEY_LEN])
    ensures
        public@ == x25519_public_key(secret@),
{
    PublicKey::from(&StaticSecret::from(*secret)).to_bytes()
}

/// `==` on x25519-dalek's `PublicKey`, which compares the keys as field
/// elements (`MontgomeryPoint`'s equality: the low 255 bits of each, reduced
/// modulo 2^255 - 19, in canonical form). Claimed: the result says whether
/// the two keys stand for the same point.
#[verifier::external_body]
pub(crate) fn same_public_key(a: &[u8; KEY_LEN], b: &[u8; KEY_LEN]) -> (same: bool)
    ensures
        same == (key_point(a@) == key_point(b@)),
{
    PublicKey::from(*a) == PublicKey::from(*b)
}

/// `StaticSecret::diffie_hellman` of x25519-dalek, as bytes.
/// Claimed: the result is a function of the two arguments; and, as the
/// crate's documentation shows (both parties compute the same secret), when
/// `their_public` is the public key of some secret `peer`, the result is what
/// `peer` computes with our public key. Both sides clamp their scalar, so this
/// holds for every 32-byte secret.
#[verifier::external_body]
fn x25519_diffie_hellman(secret: &[u8; KEY_LEN], their_public: &[u8; KEY_LEN]) -> (shared: [u8;
    KEY_LEN])
    ensures
        shared@ == x25519_shared_secret(secret@, their_public@),
        forall|peer: Seq<u8>|
            peer.len() == KEY_LEN && their_public@ == #[trigger] x25519_public_key(peer)
                ==> shared@ == x25519_shared_secret(peer, x25519_public_key(secret@)),
{
    StaticSecret::from(*secret).diffie_hellman(&PublicKey::from(*their_public)).to_bytes()
}

/// `Hkdf::<Sha256>::new(Some(salt), ikm)` followed by `expand(info, okm)` into
/// 32 bytes. Claimed: `expand` fails only for more than 255 * 32 bytes, so it
/// succeeds here, and the output is a function of the arguments.
#[verifier::external_body]
fn hkdf_sha256_expand32(salt: &[u8], ikm: &[u8; KEY_LEN], info: &[u8]) -> (okm: Result<
    [u8; KEY_LEN],
    hkdf::InvalidLength,
>)
    ensures
        okm is Ok,
        okm matches Ok(bytes) ==> bytes@ == hkdf_sha256(salt@, ikm@, info@, KEY_LEN as nat),
{
    let mut out = [0u8; KEY_LEN];
    Hkdf::<Sha256>::new(Some(salt), ikm).expand(info, &mut out).map(|_| out)
}

/// `Aead::encrypt` of `ChaCha20Poly1305::new(key)` with `nonce`, on
/// `Payload { msg: plaintext, aad }`.
/// Claimed, from the crate's source: it fails exactly when the plaintext has
/// `AEAD_MESSAGE_LIMIT` bytes or more; otherwise the ciphertext is the
/// plaintext's length plus the tag, and a function of the four arguments.
/// Plaintext lengths in the keystream gap make `apply_keystream` panic, so
/// they are left out.
#[verifier::external_body]
fn chacha20poly1305_encrypt(
    key: &[u8; KEY_LEN],
    nonce: &[u8; NONCE_LEN],
    plaintext: &[u8],
    aad: &[u8],
) -> (ct: Result<Vec<u8>, AeadError>)
    requires
        !in_keystream_gap(plaintext@.len() as int),
    ensures
        ct is Ok <==> plaintext@.len() < AEAD_MESSAGE_LIMIT,
        ct matches Ok(c) ==> c@ == chacha20poly1305_seal(key@, nonce@, plaintext@, aad@)
            && c@.len() == plaintext@.len() + TAG_LEN,
{
    let cipher = ChaCha20Poly1305::new(Key::from_slice(key));
    cipher.encrypt(Nonce::from_slice(nonce), Payload { msg: plaintext, aad })
}

/// `Aead::decrypt` of `ChaCha20Poly1305::new(key)` with `nonce`, on
/// `Payload { msg: ciphertext, aad }`; `Nonce::from_slice` panics unless the
/// nonce has 12 bytes.
/// Claimed, from the crate's source (the tag is checked over the ciphertext
/// before the keystream is applied, and encryption computes that same tag):
/// it succeeds with `p` only if encrypting `p` gives back `ciphertext`; and
/// whenever `ciphertext` is the encryption of some `m` under the same key,
/// nonce and associated data, it succeeds with `m`. A ciphertext shorter than
/// the tag is refused, and a plaintext is the ciphertext without the tag.
/// A ciphertext whose body (without the tag) has a length in the keystream
/// gap makes `apply_keystream` panic once the tag checks out, so such
/// lengths are left out.
#[verifier::external_body]
fn chacha20poly1305_decrypt(
    key: &[u8; KEY_LEN],
    nonce: &[u8],
    ciphertext: &[u8],
    aad: &[u8],
) -> (pt: Result<Vec<u8>, AeadError>)
    requires
        nonce@.len() == NONCE_LEN,
        !in_keystream_gap(ciphertext@.len() - TAG_LEN),
    ensures
        ciphertext@.len() < TAG_LEN ==> pt is Err,
        pt is Ok ==> pt->Ok_0@.len() + TAG_LEN == ciphertext@.len(),
        pt matches Ok(p) ==> seals_to(key@, nonce@, p@, aad@, ciphertext@),
        forall|m: Seq<u8>| #[trigger] seals_to(key@, nonce@, m, aad@, ciphertext@) ==> pt is Ok && pt->Ok_0@ == m,
{
    let cipher = ChaCha20Poly1305::new(Key::from_slice(key));
    cipher.decrypt(Nonce::from_slice(nonce), Payload { msg: ciphertext, aad })
}

// ---------------------------------------------------------------------------
// Session keys.

/// A symmetric session key of `KEY_LEN` bytes.
pub struct SessionKey {
    inner: [u8; KEY_LEN],
}

impl View for SessionKey {
    type V = Seq<u8>;

    closed spec fn view(&self) -> Seq<u8> {
        self.inner@
    }
}

/// The label that binds derived keys to this protocol and version.
pub open spec fn session_label() -> Seq<u8> {
    "natprogect/v1/session".spec_bytes()
}

/// The session key that `our_secret` and `their_public` agree on under `salt`:
/// the X25519 shared secret stretched by HKDF-SHA256 with the session label.
pub open spec fn session_key_spec(our_secret: Seq<u8>, their_public: Seq<u8>, salt: Seq<u8>) -> Seq<
    u8,
> {
    hkdf_sha256(salt, x25519_shared_secret(our_secret, their_public), session_label(), KEY_LEN as nat)
}

/// The session key agreed on by `our_secret` and `their_public` under `salt`
/// is HKDF-SHA256 with the whole salt as the salt, the X25519 shared secret
/// of the two keys as input key material and the ASCII bytes of
/// `natprogect/v1/session` as info, expanded to 32 bytes.
pub proof fn lemma_session_key_is_hkdf(our_secret: Seq<u8>, their_public: Seq<u8>, salt: Seq<u8>)
    ensures
        session_key_spec(our_secret, their_public, salt) == hkdf_sha256(
            salt,
            x25519_shared_secret(our_secret, their_public),
            seq![
                110u8, 97, 116, 112, 114, 111, 103, 101, 99, 116, 47, 118, 49, 47, 115, 101, 115,
                115, 105, 111, 110,
            ],
            32,
        ),
{
    let label = "natprogect/v1/session";
    reveal_strlit("natprogect/v1/session");
    assert(vstd::string::is_ascii(label));
    vstd::string::is_ascii_spec_bytes(label);
    assert(label.spec_bytes() =~= seq![
        110u8, 97, 116, 112, 114, 111, 103, 101, 99, 116, 47, 118, 49, 47, 115, 101, 115,
        115, 105, 111, 110,
    ]);
}

impl SessionKey {
    /// Every session key has `KEY_LEN` bytes.
    pub proof fn lemma_len(&self)
        ensures
            self@.len() == KEY_LEN,
    {
    }

    /// Takes a key from raw bytes, which must be exactly `KEY_LEN` long.
    pub fn from_bytes(bytes: &[u8]) -> (r: Result<SessionKey, Error>)
        ensures
            bytes@.len() == KEY_LEN ==> (r matches Ok(k) && k@ == bytes@),
            bytes@.len() != KEY_LEN ==> (r matches Err(Error::InvalidKey(what)) && what@
                == "session key"@),
    {
        if bytes.len() != KEY_LEN {
            return Err(Error::InvalidKey(String::from_str("session key")));
        }
        let mut inner = [0u8; KEY_LEN];
        let mut i: usize = 0;
        while i < KEY_LEN
            invariant
                i <= KEY_LEN,
                bytes@.len() == KEY_LEN,
                forall|j: int| 0 <= j < i ==> inner@[j] == bytes@[j],
            decreases KEY_LEN - i,
        {
            inner[i] = bytes[i];
            i += 1;
        }
        assert(inner@ =~= bytes@);
        Ok(SessionKey { inner })
    }

    /// Derives the session key of an X25519 exchange: our secret with their
    /// public key, stretched by HKDF-SHA256 under `salt` and the session label.
    /// The peer, deriving with its secret and our public key, gets the same key.
    pub fn derive(our_secret: &[u8; KEY_LEN], their_public: &[u8; KEY_LEN], salt: &[u8]) -> (r:
        Result<SessionKey, Error>)
        ensures
            r matches Ok(k) && k@ == session_key_spec(our_secret@, their_public@, salt@),
            forall|peer: Seq<u8>|
                peer.len() == KEY_LEN && their_public@ == #[trigger] x25519_public_key(peer) ==> (
                r matches Ok(k) && k@ == session_key_spec(
                    peer,
                    x25519_public_key(our_secret@),
                    salt@,
                )),
    {
        let shared = x25519_diffie_hellman(our_secret, their_public);
        let info = "natprogect/v1/session".as_bytes();
        match hkdf_sha256_expand32(salt, &shared, info) {
            Ok(okm) => Ok(SessionKey { inner: okm }),
            Err(_) => Err(Error::InvalidKey(String::from_str("hkdf"))),
        }
    }

    /// The raw key bytes.
    pub fn as_ref(&self) -> (bytes: &[u8])
        ensures
            bytes@ == self@,
            bytes@.len() == KEY_LEN,
    {
        self.inner.as_slice()
    }
}

// ---------------------------------------------------------------------------
// Authenticated encryption.

/// What `encrypt` (and `encrypt_with_nonce`) may return for `plaintext` and
/// `aad` under `key`: the ciphertext of the plaintext under the returned
/// nonce when the plaintext is short enough, `Error::Encrypt` otherwise.
pub open spec fn encrypt_outcome(
    key: Seq<u8>,
    plaintext: Seq<u8>,
    aad: Seq<u8>,
    r: Result<([u8; NONCE_LEN], Vec<u8>), Error>,
) -> bool {
    &&& (r is Ok <==> plaintext.len() <= KEYSTREAM_LIMIT)
    &&& (r matches Ok((nonce, ct)) ==> seals_to(key, nonce@, plaintext, aad, ct@))
    &&& (r matches Err(e) ==> e == Error::Encrypt)
}

/// What `decrypt` returns for `ciphertext` under `key`, `nonce` and `aad`:
/// the plaintext that encrypts to it (the ciphertext without its tag), and
/// `Error::Auth` when there is none, as for any ciphertext shorter than the
/// tag.
pub open spec fn decrypt_outcome(
    key: Seq<u8>,
    nonce: Seq<u8>,
    ciphertext: Seq<u8>,
    aad: Seq<u8>,
    r: Result<Vec<u8>, Error>,
) -> bool {
    &&& (r matches Ok(p) ==> seals_to(key, nonce, p@, aad, ciphertext) && p@.len() + TAG_LEN
        == ciphertext.len())
    &&& (ciphertext.len() < TAG_LEN ==> r is Err)
    &&& (forall|m: Seq<u8>| #[trigger]
        seals_to(key, nonce, m, aad, ciphertext) ==> (r matches Ok(p) && p@ == m))
    &&& (r matches Err(e) ==> e == Error::Auth)
}

/// Encrypts `plaintext` with ChaCha20-Poly1305 under `key` and the given
/// `nonce`, binding `aad`; returns the nonce with the ciphertext (tag
/// appended). Fails with `Error::Encrypt` for a plaintext of
/// `AEAD_MESSAGE_LIMIT` bytes or more; lengths in the keystream gap, where
/// the cipher panics, are left out.
pub fn encrypt_with_nonce(
    key: &SessionKey,
    nonce: [u8; NONCE_LEN],
    plaintext: &[u8],
    aad: &[u8],
) -> (r: Result<([u8; NONCE_LEN], Vec<u8>), Error>)
    requires
        !in_keystream_gap(plaintext@.len() as int),
    ensures
        encrypt_outcome(key@, plaintext@, aad@, r),
        r matches Ok((n, ct)) ==> n == nonce && ct@.len() == plaintext@.len() + TAG_LEN,
{
    match chacha20poly1305_encrypt(&key.inner, &nonce, plaintext, aad) {
        Ok(ct) => Ok((nonce, ct)),
        Err(_) => Err(Error::Encrypt),
    }
}

/// Encrypts `plaintext` with ChaCha20-Poly1305 under `key` and a fresh random
/// nonce, binding `aad`; returns the nonce with the ciphertext (tag appended).
pub fn encrypt(key: &SessionKey, plaintext: &[u8], aad: &[u8]) -> (r: Result<
    ([u8; NONCE_LEN], Vec<u8>),
    Error,
>)
    requires
        !in_keystream_gap(plaintext@.len() as int),
    ensures
        encrypt_outcome(key@, plaintext@, aad@, r),
        r matches Ok((n, ct)) ==> ct@.len() == plaintext@.len() + TAG_LEN,
{
    let mut raw = [0u8; NONCE_LEN];
    fill_random(&mut raw);
    encrypt_with_nonce(key, raw, plaintext, aad)
}

/// Decrypts and authenticates `ciphertext` under `key`, `nonce` and `aad`.
/// Any change to the ciphertext, the key, the nonce or the associated data
/// that leaves no plaintext encrypting to it is refused with `Error::Auth`.
/// The nonce must have `NONCE_LEN` bytes, and the ciphertext's body a length
/// outside the keystream gap (the cipher panics otherwise).
pub fn decrypt(key: &SessionKey, nonce: &[u8], ciphertext: &[u8], aad: &[u8]) -> (r: Result<
    Vec<u8>,
    Error,
>)
    requires
        nonce@.len() == NONCE_LEN,
        !in_keystream_gap(ciphertext@.len() - TAG_LEN),
    ensures
        decrypt_outcome(key@, nonce@, ciphertext@, aad@, r),
{
    match chacha20poly1305_decrypt(&key.inner, nonce, ciphertext, aad) {
        Ok(p) => Ok(p),
        Err(_) => Err(Error::Auth),
    }
}

/// What an encryption result says: encryption succeeds exactly for
/// plaintexts of at most `KEYSTREAM_LIMIT` bytes; on success the ciphertext
/// is the ChaCha20-Poly1305 encryption of the plaintext under the key, the
/// returned nonce and the associated data; the only error is
/// `Error::Encrypt`.
pub proof fn lemma_encrypt_outcome(
    key: Seq<u8>,
    plaintext: Seq<u8>,
    aad: Seq<u8>,
    r: Result<([u8; NONCE_LEN], Vec<u8>), Error>,
)
    requires
        encrypt_outcome(key, plaintext, aad, r),
    ensures
        r is Ok <==> plaintext.len() <= 274_877_906_816,
        r matches Ok((nonce, ct)) ==> ct@ == chacha20poly1305_seal(key, nonce@, plaintext, aad),
        r is Err ==> r == Err::<([u8; NONCE_LEN], Vec<u8>), Error>(Error::Encrypt),
{
}

/// What a decryption result says: it succeeds with `p` exactly when some
/// plaintext of at most `KEYSTREAM_LIMIT` bytes encrypts to the ciphertext
/// under the key, nonce and associated data, and then `p` is that
/// plaintext, 16 bytes shorter than the ciphertext; otherwise the error is
/// `Error::Auth`, as it is for every ciphertext shorter than 16 bytes.
pub proof fn lemma_decrypt_outcome(
    key: Seq<u8>,
    nonce: Seq<u8>,
    ciphertext: Seq<u8>,
    aad: Seq<u8>,
    r: Result<Vec<u8>, Error>,
)
    requires
        decrypt_outcome(key, nonce, ciphertext, aad, r),
    ensures
        r is Ok <==> exists|m: Seq<u8>|
            m.len() <= 274_877_906_816 && ciphertext == #[trigger] chacha20poly1305_seal(
                key,
                nonce,
                m,
                aad,
            ),
        r matches Ok(p) ==> ciphertext == chacha20poly1305_seal(key, nonce, p@, aad) && p@.len()
            + 16 == ciphertext.len(),
        r is Err ==> r == Err::<Vec<u8>, Error>(Error::Auth),
        ciphertext.len() < 16 ==> r is Err,
{
    if r is Ok {
        let p = r->Ok_0;
        assert(seals_to(key, nonce, p@, aad, ciphertext));
        assert(chacha20poly1305_seal(key, nonce, p@, aad) == ciphertext);
    }
    if exists|m: Seq<u8>|
        m.len() <= 274_877_906_816 && ciphertext == #[trigger] chacha20poly1305_seal(
            key,
            nonce,
            m,
            aad,
        ) {
        let m = choose|m: Seq<u8>|
            m.len() <= 274_877_906_816 && ciphertext == #[trigger] chacha20poly1305_seal(
                key,
                nonce,
                m,
                aad,
            );
        assert(seals_to(key, nonce, m, aad, ciphertext));
    }
}

/// Decryption undoes encryption: whatever `encrypt` returns for a plaintext,
/// `decrypt` with the same key, the returned nonce and the same associated
/// data gives the plaintext back.
pub proof fn lemma_decrypt_undoes_encrypt(
    key: Seq<u8>,
    plaintext: Seq<u8>,
    aad: Seq<u8>,
    nonce: [u8; NONCE_LEN],
    ciphertext: Vec<u8>,
    opened: Result<Vec<u8>, Error>,
)
    requires
        encrypt_outcome(key, plaintext, aad, Ok((nonce, ciphertext))),
        decrypt_outcome(key, nonce@, ciphertext@, aad, opened),
    ensures
        opened matches Ok(p) && p@ == plaintext,
{
    assert(seals_to(key, nonce@, plaintext, aad, ciphertext@));
}

/// Decryption is all-or-nothing: it yields a plaintext exactly when some
/// plaintext encrypts to the ciphertext under that key, nonce and associated
/// data, and that plaintext is the only one.
pub proof fn lemma_decrypt_unique(
    key: Seq<u8>,
    nonce: Seq<u8>,
    ciphertext: Seq<u8>,
    aad: Seq<u8>,
    opened: Result<Vec<u8>, Error>,
    m1: Seq<u8>,
    m2: Seq<u8>,
)
    requires
        decrypt_outcome(key, nonce, ciphertext, aad, opened),
        seals_to(key, nonce, m1, aad, ciphertext),
        seals_to(key, nonce, m2, aad, ciphertext),
    ensures
        m1 == m2,
{
}

} // verus!
