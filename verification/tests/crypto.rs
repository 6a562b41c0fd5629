use hkdf::Hkdf;
use natcore::crypto::{decrypt, encrypt, encrypt_with_nonce, SessionKey, KEY_LEN, NONCE_LEN, TAG_LEN};
use natcore::identity::Identity;
use natcore::Error;
use sha2::Sha256;

fn pair() -> ([u8; 32], [u8; 32]) {
    let id = Identity::generate();
    (id.secret_bytes(), *id.public())
}

fn hex(s: &str) -> [u8; 32] {
    let mut out = [0u8; 32];
    for i in 0..32 {
        out[i] = u8::from_str_radix(&s[2 * i..2 * i + 2], 16).unwrap();
    }
    out
}

#[test]
fn ecdh_is_symmetric() {
    let (alice_s, alice_p) = pair();
    let (bob_s, bob_p) = pair();

    let k_a = SessionKey::derive(&alice_s, &bob_p, b"test-salt").unwrap();
    let k_b = SessionKey::derive(&bob_s, &alice_p, b"test-salt").unwrap();

    assert_eq!(k_a.as_ref(), k_b.as_ref());
}

#[test]
fn roundtrip() {
    let (alice_s, _) = pair();
    let (_, bob_p) = pair();
    let key = SessionKey::derive(&alice_s, &bob_p, b"test-salt").unwrap();

    let msg = b"privet, p2p";
    let (nonce, ct) = encrypt(&key, msg, b"").unwrap();
    let dec = decrypt(&key, &nonce, &ct, b"").unwrap();

    assert_eq!(msg.to_vec(), dec);
}

#[test]
fn tampering_is_detected() {
    let (alice_s, _) = pair();
    let (_, bob_p) = pair();
    let key = SessionKey::derive(&alice_s, &bob_p, b"test-salt").unwrap();

    let (nonce, mut ct) = encrypt(&key, b"secret", b"").unwrap();
    ct[0] ^= 0x01;
    assert_eq!(decrypt(&key, &nonce, &ct, b"").unwrap_err(), Error::Auth);
}

#[test]
fn wrong_key_is_rejected() {
    let (alice_s, _) = pair();
    let (_, bob_p) = pair();
    let (carol_s, carol_p) = pair();

    let good = SessionKey::derive(&alice_s, &bob_p, b"test-salt").unwrap();
    let evil = SessionKey::derive(&carol_s, &carol_p, b"test-salt").unwrap();

    let (nonce, ct) = encrypt(&good, b"secret", b"").unwrap();
    assert_eq!(decrypt(&evil, &nonce, &ct, b"").unwrap_err(), Error::Auth);
}

#[test]
fn aad_binds_chat() {
    let (alice_s, _) = pair();
    let (_, bob_p) = pair();
    let key = SessionKey::derive(&alice_s, &bob_p, b"test-salt").unwrap();

    let (nonce, ct) = encrypt(&key, b"secret", b"chat:team-anon").unwrap();
    assert_eq!(
        decrypt(&key, &nonce, &ct, b"chat:OTHER").unwrap_err(),
        Error::Auth
    );
}

#[test]
fn session_key_from_bytes_checks_length() {
    let bytes = [7u8; KEY_LEN];
    let key = SessionKey::from_bytes(&bytes).unwrap();
    assert_eq!(key.as_ref(), &bytes[..]);
    assert_eq!(
        SessionKey::from_bytes(&[7u8; 31]).err(),
        Some(Error::InvalidKey("session key".to_string()))
    );
    assert_eq!(
        SessionKey::from_bytes(&[7u8; 33]).err(),
        Some(Error::InvalidKey("session key".to_string()))
    );
    assert!(SessionKey::from_bytes(&[]).is_err());
}

#[test]
fn derive_matches_rfc7748_and_hkdf() {
    // RFC 7748, section 6.1.
    let alice_s = hex("77076d0a7318a57d3c16c17251b26645df4c2f87ebc0992ab177fba51db92c2a");
    let bob_p = hex("de9edb7d7b7dc1b4d35b61c2ece435373f8343c85b78674dadfc7e146f882b4f");
    let shared = hex("4a5d9d5ba4ce2de1728e3bf480350f25e07e21c947d19e3376f09b3c1e161742");
    let mut expected = [0u8; 32];
    Hkdf::<Sha256>::new(Some(b"salt"), &shared)
        .expand(b"natprogect/v1/session", &mut expected)
        .unwrap();
    let key = SessionKey::derive(&alice_s, &bob_p, b"salt").unwrap();
    assert_eq!(key.as_ref(), &expected[..]);
    assert_ne!(key.as_ref(), &shared[..]);
}

#[test]
fn derive_depends_on_salt() {
    let (alice_s, _) = pair();
    let (_, bob_p) = pair();
    let k1 = SessionKey::derive(&alice_s, &bob_p, b"one").unwrap();
    let k2 = SessionKey::derive(&alice_s, &bob_p, b"two").unwrap();
    assert_ne!(k1.as_ref(), k2.as_ref());
}

#[test]
fn encrypt_with_nonce_is_deterministic_and_tagged() {
    let key = SessionKey::from_bytes(&[3u8; KEY_LEN]).unwrap();
    let nonce = [9u8; NONCE_LEN];
    let (n1, c1) = encrypt_with_nonce(&key, nonce, b"hello", b"ad").unwrap();
    let (n2, c2) = encrypt_with_nonce(&key, nonce, b"hello", b"ad").unwrap();
    assert_eq!(n1, nonce);
    assert_eq!(n2, nonce);
    assert_eq!(c1, c2);
    assert_eq!(c1.len(), 5 + TAG_LEN);
    assert_ne!(&c1[..5], b"hello");
    assert_eq!(decrypt(&key, &nonce, &c1, b"ad").unwrap(), b"hello".to_vec());
}

#[test]
fn empty_message_roundtrip() {
    let key = SessionKey::from_bytes(&[1u8; KEY_LEN]).unwrap();
    let (nonce, ct) = encrypt(&key, b"", b"x").unwrap();
    assert_eq!(ct.len(), TAG_LEN);
    assert_eq!(decrypt(&key, &nonce, &ct, b"x").unwrap(), Vec::<u8>::new());
}

#[test]
fn truncated_ciphertext_is_rejected() {
    let key = SessionKey::from_bytes(&[1u8; KEY_LEN]).unwrap();
    let (nonce, ct) = encrypt(&key, b"abc", b"").unwrap();
    assert_eq!(decrypt(&key, &nonce, &ct[..10], b"").unwrap_err(), Error::Auth);
    let mut other_nonce = nonce;
    other_nonce[0] ^= 1;
    assert_eq!(decrypt(&key, &other_nonce, &ct, b"").unwrap_err(), Error::Auth);
}

#[test]
fn short_ciphertext_is_rejected() {
    let key = SessionKey::from_bytes(&[1u8; KEY_LEN]).unwrap();
    let nonce = [0u8; NONCE_LEN];
    assert_eq!(decrypt(&key, &nonce, &[], b"").unwrap_err(), Error::Auth);
    assert_eq!(decrypt(&key, &nonce, &[0u8; TAG_LEN - 1], b"").unwrap_err(), Error::Auth);
    assert_eq!(decrypt(&key, &nonce, &[0u8; TAG_LEN], b"").unwrap_err(), Error::Auth);
}
