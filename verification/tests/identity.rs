use natcore::identity::{nick_from_seed, Identity};

fn hex(s: &str) -> [u8; 32] {
    let mut out = [0u8; 32];
    for i in 0..32 {
        out[i] = u8::from_str_radix(&s[2 * i..2 * i + 2], 16).unwrap();
    }
    out
}

#[test]
fn nick_from_seed_formats() {
    assert_eq!(nick_from_seed([42, 0, 0, 0]), "Сыч 042");
    assert_eq!(nick_from_seed([0x39, 0x30, 0, 0]), "Лис 345");
    assert_eq!(nick_from_seed([0, 0, 0, 0]), "Лис 000");
    // 0xffffffff = 4294967295: 4294967295 % 5 == 0, % 1000 == 295
    assert_eq!(nick_from_seed([255, 255, 255, 255]), "Лис 295");
    // 9: animal 4, number 009
    assert_eq!(nick_from_seed([9, 0, 0, 0]), "Енот 009");
    assert_eq!(nick_from_seed([1, 0, 0, 0]), "Барсук 001");
    assert_eq!(nick_from_seed([3, 0, 0, 0]), "Олень 003");
}

#[test]
fn public_key_matches_rfc7748() {
    let secret = hex("77076d0a7318a57d3c16c17251b26645df4c2f87ebc0992ab177fba51db92c2a");
    let public = hex("8520f0098930a754748b7ddcb43ef75a0dbf3a0d26381af4eba4a98eaa9b4e6a");
    let id = Identity::from_bytes(secret, "Лис 001".to_string());
    assert_eq!(*id.public(), public);
    assert_eq!(id.secret_bytes(), secret);
    assert_eq!(id.nick(), "Лис 001");
}

#[test]
fn restored_identity_keeps_public_key() {
    let id = Identity::generate();
    let again = Identity::from_bytes(id.secret_bytes(), id.nick().to_string());
    assert_eq!(again.public(), id.public());
    assert_eq!(again.nick(), id.nick());
}

#[test]
fn generated_nick_has_shape() {
    let id = Identity::generate();
    let nick = id.nick();
    let (animal, number) = nick.rsplit_once(' ').unwrap();
    assert!(["Лис", "Барсук", "Сыч", "Олень", "Енот"].contains(&animal));
    assert_eq!(number.len(), 3);
    assert!(number.chars().all(|c| c.is_ascii_digit()));
}
