use natcore::identity::Identity;
use natcore::network::{Network, NetworkCode, NetworkError, NetworkStatus, ParticipantStatus};

fn gen_keys() -> ([u8; 32], [u8; 32]) {
    let id = Identity::generate();
    (id.secret_bytes(), *id.public())
}

#[test]
fn code_roundtrip() {
    let salt = [1u8; 32];
    let code = NetworkCode::new(&salt);
    let parsed = NetworkCode::parse(code.as_str()).unwrap();
    assert_eq!(code.as_str(), parsed.as_str());
    assert!(parsed.matches_salt(&salt));
}

#[test]
fn parse_rejects_bad() {
    let bad = NetworkCode::parse("ZZ-ZZ-ZZ-ZZ");
    assert!(bad.is_err());
    let bad2 = NetworkCode::parse("ABCD-EFGH-extra");
    assert!(bad2.is_err());
}

#[test]
fn create_populates_host() {
    let (_, p) = gen_keys();
    let (net, _) = Network::create("test", p, "Лис 042");
    assert_eq!(net.name, "test");
    assert!(net.is_host(&p));
    assert_eq!(net.participants().len(), 1);
    assert_eq!(net.participants()[0].nick, "Лис 042");
}

#[test]
fn join_valid() {
    let (net, salt) = Network::create("test", gen_keys().1, "Хост");
    let (_, my_pub) = gen_keys();
    let net2 = Network::join(net.code(), &salt, my_pub, "Барсук 001").unwrap();
    assert_eq!(net2.participants().len(), 1);
    assert!(net2.find_participant(&my_pub).is_some());
    assert_eq!(net2.code().as_str(), net.code().as_str());
}

#[test]
fn join_invalid_code() {
    let salt = [1u8; 32];
    let bad_code = NetworkCode::parse("ABCD-EFGH").unwrap();
    let (_, my_pub) = gen_keys();
    let res = Network::join(&bad_code, &salt, my_pub, "Барсук 001");
    assert!(res.is_err());
}

#[test]
fn add_duplicate_rejected() {
    let (_, p) = gen_keys();
    let (mut net, _) = Network::create("test", p, "Хост");
    let (_, other) = gen_keys();
    net.add_participant(other, "Друг").unwrap();
    let res = net.add_participant(other, "Друг");
    assert!(res.is_err());
}

#[test]
fn remove_participant() {
    let (_, p) = gen_keys();
    let (mut net, _) = Network::create("test", p, "Хост");
    let (_, other) = gen_keys();
    net.add_participant(other, "Друг").unwrap();
    net.remove_participant(&other);
    assert!(net.find_participant(&other).is_none());
}

#[test]
fn find_and_status() {
    let (_, p) = gen_keys();
    let (net, _) = Network::create("test", p, "Хост");
    assert!(net.find_participant(&p).is_some());
    assert_eq!(NetworkStatus::InRoom.to_string(), "в сети");
    assert_eq!(NetworkStatus::Disconnected.to_string(), "вне сети");
}

#[test]
fn code_of_known_salts() {
    assert_eq!(NetworkCode::new(&[1u8; 32]).as_str(), "AEAQ-CAIB");
    let mut salt = [0u8; 32];
    salt[..5].copy_from_slice(&[0xde, 0xad, 0xbe, 0xef, 0x42]);
    assert_eq!(NetworkCode::new(&salt).as_str(), "32W3-532C");
    assert_eq!(NetworkCode::new(&[0u8; 32]).as_str(), "AAAA-AAAA");
    assert_eq!(NetworkCode::new(&[0xffu8; 32]).as_str(), "7777-7777");
    // only the first five bytes count
    let mut other = salt;
    other[31] = 1;
    assert_eq!(NetworkCode::new(&other).as_str(), "32W3-532C");
}

#[test]
fn parse_edge_cases() {
    assert_eq!(NetworkCode::parse("AB27-XYZ2").unwrap().as_str(), "AB27-XYZ2");
    assert!(matches!(NetworkCode::parse(""), Err(NetworkError::InvalidInviteCode)));
    assert!(NetworkCode::parse("ABCDEFGHI").is_err());
    assert!(NetworkCode::parse("abcd-efgh").is_err());
    assert!(NetworkCode::parse("ABC1-EFGH").is_err());
    assert!(NetworkCode::parse("ABC8-EFGH").is_err());
    assert!(NetworkCode::parse("ABCD-EFG").is_err());
    assert!(NetworkCode::parse("ABCD-ЕFGH").is_err());
    assert!(NetworkCode::parse("ABCD--FGH").is_err());
}

#[test]
fn matches_salt_rejects_other_salt() {
    let code = NetworkCode::new(&[1u8; 32]);
    assert!(code.matches_salt(&[1u8; 32]));
    assert!(!code.matches_salt(&[2u8; 32]));
}

#[test]
fn create_with_salt_and_join() {
    let host = [5u8; 32];
    let (net, salt) = Network::create_with_salt("room", host, "Хост", [1u8; 32]);
    assert_eq!(salt, [1u8; 32]);
    assert_eq!(net.name(), "room");
    assert_eq!(net.code().as_str(), "AEAQ-CAIB");
    assert!(net.is_host(&host));
    assert!(!net.is_host(&[6u8; 32]));
    assert_eq!(net.participants()[0].status, ParticipantStatus::Online);

    let me = [7u8; 32];
    let joined = Network::join(net.code(), &salt, me, "Я").unwrap();
    assert_eq!(joined.name(), "");
    assert_eq!(joined.host_public_key, None);
    assert!(!joined.is_host(&host));
    assert_eq!(joined.participants()[0].status, ParticipantStatus::Connecting);
    assert_eq!(joined.participants()[0].nick, "Я");
    assert!(matches!(
        Network::join(net.code(), &[2u8; 32], me, "Я"),
        Err(NetworkError::InvalidInviteCode)
    ));
}

#[test]
fn add_remove_keeps_order() {
    let (mut net, _) = Network::create_with_salt("room", [1u8; 32], "a", [0u8; 32]);
    net.add_participant([2u8; 32], "b").unwrap();
    net.add_participant([3u8; 32], "c").unwrap();
    assert!(matches!(
        net.add_participant([1u8; 32], "dup"),
        Err(NetworkError::DuplicateParticipant)
    ));
    assert_eq!(net.participants().len(), 3);
    net.remove_participant(&[2u8; 32]);
    let nicks: Vec<&str> = net.participants().iter().map(|p| p.nick.as_str()).collect();
    assert_eq!(nicks, vec!["a", "c"]);
    net.remove_participant(&[9u8; 32]);
    assert_eq!(net.participants().len(), 2);
    assert_eq!(net.find_participant(&[3u8; 32]).unwrap().nick, "c");
    net.add_participant([2u8; 32], "b2").unwrap();
    assert_eq!(net.participants()[2].nick, "b2");
}

#[test]
fn leave_clears_participants() {
    let (mut net, _) = Network::create_with_salt("room", [1u8; 32], "a", [0u8; 32]);
    net.add_participant([2u8; 32], "b").unwrap();
    net.leave();
    assert!(net.participants().is_empty());
    assert_eq!(net.name(), "room");
    assert!(net.is_host(&[1u8; 32]));
}

#[test]
fn keys_compare_as_curve_points() {
    let zero = [0u8; 32];
    let mut top_bit = [0u8; 32];
    top_bit[31] = 0x80;
    // 2^255 - 19, the field prime: the same point as zero
    let mut prime = [0xffu8; 32];
    prime[0] = 0xed;
    prime[31] = 0x7f;

    let (mut net, _) = Network::create_with_salt("room", zero, "host", [0u8; 32]);
    assert!(net.is_host(&top_bit));
    assert!(net.is_host(&prime));
    assert!(matches!(
        net.add_participant(top_bit, "twin"),
        Err(NetworkError::DuplicateParticipant)
    ));
    assert!(matches!(
        net.add_participant(prime, "twin"),
        Err(NetworkError::DuplicateParticipant)
    ));
    assert_eq!(net.find_participant(&prime).unwrap().nick, "host");
    let mut one = [0u8; 32];
    one[0] = 1;
    assert!(!net.is_host(&one));
    net.add_participant(one, "one").unwrap();
    net.remove_participant(&top_bit);
    assert!(net.find_participant(&zero).is_none());
    assert_eq!(net.participants().len(), 1);
    assert_eq!(net.participants()[0].nick, "one");
}

#[test]
fn cloned_code_is_the_same() {
    let code = NetworkCode::new(&[1u8; 32]);
    let copy = code.clone();
    assert_eq!(copy.as_str(), code.as_str());
    assert!(copy.matches_salt(&[1u8; 32]));
}

#[test]
fn code_depends_on_each_prefix_byte() {
    let base = NetworkCode::new(&[0u8; 32]);
    for i in 0..5 {
        let mut salt = [0u8; 32];
        salt[i] = 1;
        assert_ne!(NetworkCode::new(&salt).as_str(), base.as_str());
    }
    for i in 5..32 {
        let mut salt = [0u8; 32];
        salt[i] = 0xff;
        assert_eq!(NetworkCode::new(&salt).as_str(), base.as_str());
    }
}
