# natcore

The core of an anonymous offline messenger, verified with Verus.

- `src/crypto.rs`: session keys from an X25519 exchange stretched by
  HKDF-SHA256, and ChaCha20-Poly1305 encryption bound to associated data.
  The primitives themselves come from x25519-dalek, hkdf/sha2 and
  chacha20poly1305; their contracts are stated over named results.
- `src/identity.rs`: an identity (X25519 secret, its public key, a nick).
- `src/network.rs`: invite codes (base32 of the salt's first 40 bits) and the
  membership of a network session.
- `src/error.rs`: the core's error type.
- `app/`: `Display`/`std::error::Error` for the errors, and adapters that take
  x25519-dalek's key types.
