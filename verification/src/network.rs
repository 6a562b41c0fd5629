//! A "NAT network" session: its name, invite code, members and status.
use vstd::arithmetic::power2::pow2;
use vstd::prelude::*;

use crate::crypto::{key_point, same_public_key};
use crate::random::fill_random;
use crate::text::push_char;

verus! {

/// Bytes of the salt that an invite code encodes.
pub const CODE_BYTES: usize = 5;

/// Base32 symbols in an invite code.
pub const CODE_CHARS: usize = 8;

/// Position of the `-` that splits an invite code in two halves.
pub const SEPARATOR: usize = 4;

// ---------------------------------------------------------------------------
// Invite codes.

/// The RFC 4648 base32 alphabet: `A`..`Z` for 0..25, `2`..`7` for 26..31.
pub open spec fn base32_symbol(v: int) -> char {
    if v < 26 {
        (65 + v) as char
    } else {
        (24 + v) as char
    }
}

/// The symbol of each five-bit value is its entry in the RFC 4648 base32
/// alphabet `ABCDEFGHIJKLMNOPQRSTUVWXYZ234567`.
pub proof fn lemma_base32_alphabet(v: int)
    requires
        0 <= v < 32,
    ensures
        base32_symbol(v) == "ABCDEFGHIJKLMNOPQRSTUVWXYZ234567"@[v],
{
    reveal_strlit("ABCDEFGHIJKLMNOPQRSTUVWXYZ234567");
}

/// `c` belongs to the base32 alphabet.
pub open spec fn is_base32_symbol(c: char) -> bool {
    (65 <= c as int <= 90) || (50 <= c as int <= 55)
}

/// The base32 symbols are exactly the 32 characters of the RFC 4648
/// alphabet `ABCDEFGHIJKLMNOPQRSTUVWXYZ234567`.
pub proof fn lemma_base32_membership(c: char)
    ensures
        is_base32_symbol(c) <==> "ABCDEFGHIJKLMNOPQRSTUVWXYZ234567"@.contains(c),
{
    let alphabet = "ABCDEFGHIJKLMNOPQRSTUVWXYZ234567"@;
    reveal_strlit("ABCDEFGHIJKLMNOPQRSTUVWXYZ234567");
    if is_base32_symbol(c) {
        let v = if c as int >= 65 {
            c as int - 65
        } else {
            c as int - 24
        };
        lemma_base32_alphabet(v);
        assert(base32_symbol(v) == c);
        assert(alphabet[v] == c);
    }
    if alphabet.contains(c) {
        let i = choose|i: int| 0 <= i < alphabet.len() && alphabet[i] == c;
        lemma_base32_alphabet(i);
        assert(base32_symbol(i) as int == if i < 26 { 65 + i } else { 24 + i });
    }
}

/// A text has the shape of an invite code exactly when it has nine
/// characters, the fifth is `-`, and every other one is in the base32
/// alphabet `ABCDEFGHIJKLMNOPQRSTUVWXYZ234567`.
pub proof fn lemma_code_shape(t: Seq<char>)
    ensures
        is_code_text(t) <==> (t.len() == 9 && t[4] == '-' && forall|i: int|
            0 <= i < 9 && i != 4 ==> "ABCDEFGHIJKLMNOPQRSTUVWXYZ234567"@.contains(#[trigger] t[i])),
{
    assert forall|i: int| 0 <= i < t.len() implies (is_base32_symbol(#[trigger] t[i])
        <==> "ABCDEFGHIJKLMNOPQRSTUVWXYZ234567"@.contains(t[i])) by {
        lemma_base32_membership(t[i]);
    }
}

/// The big-endian value of the first `n` bytes of `bytes`.
pub open spec fn big_endian(bytes: Seq<u8>, n: nat) -> nat
    decreases n,
{
    if n == 0 {
        0
    } else {
        big_endian(bytes, (n - 1) as nat) * 256 + bytes[n - 1] as nat
    }
}

/// The `k`-th five-bit group (from the top) of the salt's first 40 bits.
pub open spec fn code_digit(salt: Seq<u8>, k: int) -> int {
    (big_endian(salt, CODE_BYTES as nat) / pow2((35 - 5 * k) as nat)) as int % 32
}

/// The invite code of a salt: its first 40 bits as eight base32 symbols,
/// split four and four by a `-`.
pub open spec fn code_text(salt: Seq<u8>) -> Seq<char> {
    Seq::new(
        (CODE_CHARS + 1) as nat,
        |i: int|
            if i < SEPARATOR {
                base32_symbol(code_digit(salt, i))
            } else if i == SEPARATOR {
                '-'
            } else {
                base32_symbol(code_digit(salt, i - 1))
            },
    )
}

/// `text` has the shape of an invite code: four base32 symbols, `-`, four
/// base32 symbols.
pub open spec fn is_code_text(text: Seq<char>) -> bool {
    &&& text.len() == CODE_CHARS + 1
    &&& text[SEPARATOR as int] == '-'
    &&& forall|i: int|
        0 <= i < text.len() && i != SEPARATOR ==> #[trigger] is_base32_symbol(text[i])
}

/// An invite code for a network.
#[derive(Debug)]
pub struct NetworkCode(String);

impl NetworkCode {
    /// Every invite code has the shape of one.
    #[verifier::type_invariant]
    spec fn well_formed(&self) -> bool {
        is_code_text(self.0@)
    }
}

impl Clone for NetworkCode {
    /// A copy of the code.
    fn clone(&self) -> (copy: NetworkCode)
        ensures
            copy@ == self@,
    {
        proof {
            use_type_invariant(self);
        }
        NetworkCode(self.0.clone())
    }
}

impl View for NetworkCode {
    type V = Seq<char>;

    closed spec fn view(&self) -> Seq<char> {
        self.0@
    }
}

/// Errors of network sessions.
#[derive(Debug)]
pub enum NetworkError {
    /// The invite code is malformed or does not belong to the salt.
    InvalidInviteCode,
    /// The room name is empty or too long.
    InvalidName,
    /// The participant is already in the room.
    DuplicateParticipant,
}

impl NetworkError {
    /// The human-readable message of this error.
    pub open spec fn message(&self) -> Seq<char> {
        match self {
            NetworkError::InvalidInviteCode => "некорректный код приглашения"@,
            NetworkError::InvalidName => "имя комнаты пустое или длиннее 64 символов"@,
            NetworkError::DuplicateParticipant => "участник уже есть в комнате"@,
        }
    }

    /// Renders the error as text.
    pub fn to_string(&self) -> (text: String)
        ensures
            text@ == self.message(),
    {
        match self {
            NetworkError::InvalidInviteCode => String::from_str("некорректный код приглашения"),
            NetworkError::InvalidName => String::from_str(
                "имя комнаты пустое или длиннее 64 символов",
            ),
            NetworkError::DuplicateParticipant => String::from_str("участник уже есть в комнате"),
        }
    }
}

/// Whether this device is in a network.
pub enum NetworkStatus {
    Disconnected,
    InRoom,
}

impl NetworkStatus {
    /// The human-readable name of this status.
    pub open spec fn message(&self) -> Seq<char> {
        match self {
            NetworkStatus::Disconnected => "вне сети"@,
            NetworkStatus::InRoom => "в сети"@,
        }
    }

    /// Renders the status as text.
    pub fn to_string(&self) -> (text: String)
        ensures
            text@ == self.message(),
    {
        match self {
            NetworkStatus::Disconnected => String::from_str("вне сети"),
            NetworkStatus::InRoom => String::from_str("в сети"),
        }
    }
}

/// The base32 symbol of a five-bit value.
fn base32_char(v: u8) -> (c: char)
    requires
        v < 32,
    ensures
        c == base32_symbol(v as int),
        is_base32_symbol(c),
{
    if v < 26 {
        (65 + v) as char
    } else {
        (24 + v) as char
    }
}

impl NetworkCode {
    /// The invite code of `salt`: the first 40 bits of the salt as eight
    /// base32 symbols, written `XXXX-XXXX`.
    pub fn new(salt: &[u8; 32]) -> (code: NetworkCode)
        ensures
            code@ == code_text(salt@),
    {
        let mut buf: u64 = 0;
        let mut bits: u64 = 0;
        let mut out = String::new();
        let mut i: usize = 0;
        proof {
            vstd::arithmetic::power2::lemma2_to64();
        }
        while i < CODE_BYTES
            invariant
                i <= CODE_BYTES,
                buf == big_endian(salt@, i as nat),
                buf < pow2(8 * i as nat),
                bits == 8 * i,
            decreases CODE_BYTES - i,
        {
            let b = salt[i];
            proof {
                vstd::arithmetic::power2::lemma2_to64();
                if i < 4 {
                    vstd::arithmetic::power2::lemma_pow2_strictly_increases(8 * i as nat, 32);
                }
                assert(buf < 0x1_0000_0000);
                assert((buf << 8u64) | (b as u64) == buf * 256 + b) by (bit_vector)
                    requires
                        buf < 0x1_0000_0000,
                ;
                vstd::arithmetic::power2::lemma_pow2_adds(8 * i as nat, 8);
            }
            buf = (buf << 8u64) | (b as u64);
            bits += 8;
            i += 1;
        }
        let mut i: usize = 0;
        while i < CODE_CHARS
            invariant
                i <= CODE_CHARS,
                buf == big_endian(salt@, CODE_BYTES as nat),
                bits == 40 - 5 * i,
                out@.len() == if i <= SEPARATOR {
                    i as int
                } else {
                    i + 1
                },
                forall|j: int| 0 <= j < out@.len() ==> out@[j] == code_text(salt@)[j],
            decreases CODE_CHARS - i,
        {
            if i == SEPARATOR {
                push_char(&mut out, '-');
            }
            bits -= 5;
            let v = (buf >> bits) & 0x1F;
            proof {
                vstd::bits::lemma_u64_shr_is_div(buf, bits);
                let y = buf >> bits;
                assert(y & 0x1F == y % 32) by (bit_vector);
            }
            push_char(&mut out, base32_char(v as u8));
            i += 1;
        }
        assert(out@ =~= code_text(salt@));
        proof {
            lemma_code_parse_roundtrip(salt@);
        }
        NetworkCode(out)
    }

    /// Reads an invite code typed by a user: exactly four base32 symbols, a
    /// `-` and four more; anything else is `InvalidInviteCode`.
    pub fn parse(s: &str) -> (r: Result<NetworkCode, NetworkError>)
        ensures
            is_code_text(s@) ==> (r matches Ok(code) && code@ == s@),
            !is_code_text(s@) ==> (r matches Err(NetworkError::InvalidInviteCode)),
            r is Ok <==> (s@.len() == 9 && s@[4] == '-' && forall|i: int|
                0 <= i < 9 && i != 4 ==> "ABCDEFGHIJKLMNOPQRSTUVWXYZ234567"@.contains(#[trigger] s@[i])),
    {
        proof {
            lemma_code_shape(s@);
        }
        if s.unicode_len() != CODE_CHARS + 1 {
            return Err(NetworkError::InvalidInviteCode);
        }
        if s.get_char(SEPARATOR) != '-' {
            return Err(NetworkError::InvalidInviteCode);
        }
        let mut i: usize = 0;
        while i < CODE_CHARS + 1
            invariant
                i <= CODE_CHARS + 1,
                s@.len() == CODE_CHARS + 1,
                forall|j: int| 0 <= j < i && j != SEPARATOR ==> #[trigger] is_base32_symbol(s@[j]),
            decreases CODE_CHARS + 1 - i,
        {
            if i != SEPARATOR {
                let c = s.get_char(i);
                let v = c as u32;
                if !((65 <= v && v <= 90) || (50 <= v && v <= 55)) {
                    assert(!is_base32_symbol(s@[i as int]));
                    proof {
                        lemma_base32_membership(s@[i as int]);
                    }
                    return Err(NetworkError::InvalidInviteCode);
                }
            }
            i += 1;
        }
        Ok(NetworkCode(String::from_str(s)))
    }

    /// The code as text: always four base32 symbols, `-`, four more.
    pub fn as_str(&self) -> (text: &str)
        ensures
            text@ == self@,
            is_code_text(text@),
    {
        proof {
            use_type_invariant(self);
        }
        self.0.as_str()
    }

    /// Whether this is the invite code of `salt`.
    pub fn matches_salt(&self, salt: &[u8; 32]) -> (r: bool)
        ensures
            r == (self@ == code_text(salt@)),
    {
        NetworkCode::new(salt).0 == self.0
    }
}

/// The invite code of every salt has the shape that `NetworkCode::parse`
/// accepts, so parsing the text of `NetworkCode::new(salt)` succeeds with the
/// same text, which matches `salt`.
pub proof fn lemma_code_parse_roundtrip(salt: Seq<u8>)
    ensures
        is_code_text(code_text(salt)),
{
    let t = code_text(salt);
    assert forall|i: int| 0 <= i < t.len() && i != SEPARATOR implies #[trigger] is_base32_symbol(
        t[i],
    ) by {
        let k = if i < SEPARATOR {
            i
        } else {
            i - 1
        };
        let d = code_digit(salt, k);
        assert(0 <= d < 32);
    }
}

proof fn lemma_big_endian_five(s: Seq<u8>)
    requires
        s.len() >= CODE_BYTES,
    ensures
        big_endian(s, CODE_BYTES as nat) == s[0] * 4294967296nat + s[1] * 16777216nat + s[2]
            * 65536nat + s[3] * 256nat + s[4] as nat,
{
    reveal_with_fuel(big_endian, 6);
}

/// The invite code of a salt is nine characters with `-` in the middle, and
/// its `k`-th symbol (counting from 0 and skipping the `-`) is the entry of
/// the base32 alphabet `ABCDEFGHIJKLMNOPQRSTUVWXYZ234567` at the `k`-th
/// five-bit group, from the most significant, of the salt's first five bytes
/// read as a big-endian 40-bit number.
pub proof fn lemma_code_symbols(salt: Seq<u8>, k: int)
    requires
        salt.len() >= CODE_BYTES,
        0 <= k < 8,
    ensures
        code_text(salt).len() == 9,
        code_text(salt)[4] == '-',
        code_text(salt)[if k < 4 { k } else { k + 1 }] == "ABCDEFGHIJKLMNOPQRSTUVWXYZ234567"@[(
        (salt[0] * 4294967296 + salt[1] * 16777216 + salt[2] * 65536 + salt[3] * 256 + salt[4])
            / (pow2((35 - 5 * k) as nat) as int)) % 32],
{
    lemma_big_endian_five(salt);
    let d = code_digit(salt, k);
    assert(0 <= d < 32);
    lemma_base32_alphabet(d);
}

proof fn lemma_digit_bits(s: Seq<u8>, x: u64, k: int)
    requires
        s.len() >= CODE_BYTES,
        x == big_endian(s, CODE_BYTES as nat),
        0 <= k < CODE_CHARS,
    ensures
        code_digit(s, k) == (x >> ((35 - 5 * k) as u64)) & 31,
{
    let sh = (35 - 5 * k) as u64;
    vstd::bits::lemma_u64_shr_is_div(x, sh);
    let xs = x >> sh;
    assert(xs & 31 == xs % 32) by (bit_vector);
}

proof fn lemma_base32_symbol_injective(v: int, w: int)
    requires
        0 <= v < 32,
        0 <= w < 32,
        base32_symbol(v) == base32_symbol(w),
    ensures
        v == w,
{
    let cv = base32_symbol(v);
    let cw = base32_symbol(w);
    assert(cv as int == if v < 26 { 65 + v } else { 24 + v });
    assert(cw as int == if w < 26 { 65 + w } else { 24 + w });
}

/// Two salts have the same invite code exactly when their first
/// `CODE_BYTES` bytes agree: the code depends on those bytes alone, and on
/// each of them.
#[verifier::rlimit(80)]
pub proof fn lemma_code_determined_by_prefix(a: Seq<u8>, b: Seq<u8>)
    requires
        a.len() >= CODE_BYTES,
        b.len() >= CODE_BYTES,
    ensures
        code_text(a) == code_text(b) <==> a.take(CODE_BYTES as int) == b.take(CODE_BYTES as int),
{
    lemma_big_endian_five(a);
    lemma_big_endian_five(b);
    let va = big_endian(a, CODE_BYTES as nat);
    let vb = big_endian(b, CODE_BYTES as nat);
    if a.take(CODE_BYTES as int) == b.take(CODE_BYTES as int) {
        assert(a[0] == a.take(5)[0] && a[1] == a.take(5)[1] && a[2] == a.take(5)[2]);
        assert(a[3] == a.take(5)[3] && a[4] == a.take(5)[4]);
        assert(b[0] == b.take(5)[0] && b[1] == b.take(5)[1] && b[2] == b.take(5)[2]);
        assert(b[3] == b.take(5)[3] && b[4] == b.take(5)[4]);
        assert(va == vb);
        assert(code_text(a) =~= code_text(b));
    }
    if code_text(a) == code_text(b) {
        vstd::arithmetic::power2::lemma2_to64();
        vstd::arithmetic::power2::lemma2_to64_rest();
        assert(va < 0x100_0000_0000);
        assert(vb < 0x100_0000_0000);
        let x = va as u64;
        let y = vb as u64;
        assert forall|k: int| 0 <= k < CODE_CHARS implies #[trigger] code_digit(a, k) == code_digit(b, k) by {
            let i = if k < SEPARATOR { k } else { k + 1 };
            assert(code_text(a)[i] == code_text(b)[i]);
            lemma_base32_symbol_injective(code_digit(a, k), code_digit(b, k));
        }
        lemma_digit_bits(a, x, 0);
        lemma_digit_bits(b, y, 0);
        lemma_digit_bits(a, x, 1);
        lemma_digit_bits(b, y, 1);
        lemma_digit_bits(a, x, 2);
        lemma_digit_bits(b, y, 2);
        lemma_digit_bits(a, x, 3);
        lemma_digit_bits(b, y, 3);
        lemma_digit_bits(a, x, 4);
        lemma_digit_bits(b, y, 4);
        lemma_digit_bits(a, x, 5);
        lemma_digit_bits(b, y, 5);
        lemma_digit_bits(a, x, 6);
        lemma_digit_bits(b, y, 6);
        lemma_digit_bits(a, x, 7);
        lemma_digit_bits(b, y, 7);
        assert((x >> 35u64) & 31 == (y >> 35u64) & 31);
        assert((x >> 30u64) & 31 == (y >> 30u64) & 31);
        assert((x >> 25u64) & 31 == (y >> 25u64) & 31);
        assert((x >> 20u64) & 31 == (y >> 20u64) & 31);
        assert((x >> 15u64) & 31 == (y >> 15u64) & 31);
        assert((x >> 10u64) & 31 == (y >> 10u64) & 31);
        assert((x >> 5u64) & 31 == (y >> 5u64) & 31);
        assert((x >> 0u64) & 31 == (y >> 0u64) & 31);
        assert(x == y) by (bit_vector)
            requires
                x < 0x100_0000_0000,
                y < 0x100_0000_0000,
                (x >> 35u64) & 31 == (y >> 35u64) & 31,
                (x >> 30u64) & 31 == (y >> 30u64) & 31,
                (x >> 25u64) & 31 == (y >> 25u64) & 31,
                (x >> 20u64) & 31 == (y >> 20u64) & 31,
                (x >> 15u64) & 31 == (y >> 15u64) & 31,
                (x >> 10u64) & 31 == (y >> 10u64) & 31,
                (x >> 5u64) & 31 == (y >> 5u64) & 31,
                (x >> 0u64) & 31 == (y >> 0u64) & 31,
        ;
        assert(va == vb);
        assert(a.take(CODE_BYTES as int) =~= b.take(CODE_BYTES as int));
    }
}

// ---------------------------------------------------------------------------
// Participants and networks.

/// Connection state of a participant.
#[derive(Debug, Clone, Copy, PartialEq, Eq)]
pub enum ParticipantStatus {
    Online,
    Offline,
    Connecting,
}

/// A member of a network: its X25519 public key, nick and status.
pub struct Participant {
    pub public_key: [u8; 32],
    pub nick: String,
    pub status: ParticipantStatus,
}

/// A network session: its name, salt, invite code, host and members.
pub struct Network {
    pub name: String,
    pub salt: [u8; 32],
    pub code: NetworkCode,
    pub host_public_key: Option<[u8; 32]>,
    pub participants: Vec<Participant>,
}

/// The curve point that a participant's public key stands for.
pub open spec fn point_of(p: Participant) -> int {
    key_point(p.public_key@)
}

/// Some participant of `ps` has a public key that stands for the point `key`.
pub open spec fn has_key(ps: Seq<Participant>, key: int) -> bool {
    exists|i: int| 0 <= i < ps.len() && #[trigger] point_of(ps[i]) == key
}

/// No two participants of `ps` share a public key.
pub open spec fn keys_distinct(ps: Seq<Participant>) -> bool {
    forall|i: int, j: int|
        0 <= i < j < ps.len() ==> #[trigger] point_of(ps[i]) != #[trigger] point_of(ps[j])
}

/// `i` is the first position in `ps` of a participant with public key `key`.
pub open spec fn first_with_key(ps: Seq<Participant>, key: int, i: int) -> bool {
    &&& 0 <= i < ps.len()
    &&& point_of(ps[i]) == key
    &&& forall|j: int| 0 <= j < i ==> #[trigger] point_of(ps[j]) != key
}

/// `ps` with every participant whose public key is `key` taken out, the
/// others kept in order.
pub open spec fn without_key(ps: Seq<Participant>, key: int) -> Seq<Participant>
    decreases ps.len(),
{
    if ps.len() == 0 {
        ps
    } else {
        let rest = without_key(ps.drop_last(), key);
        if point_of(ps.last()) == key {
            rest
        } else {
            rest.push(ps.last())
        }
    }
}

/// `after` is `before` with one more participant at the end.
pub open spec fn appended(
    before: Seq<Participant>,
    after: Seq<Participant>,
    key: Seq<u8>,
    nick: Seq<char>,
    status: ParticipantStatus,
) -> bool {
    &&& after.len() == before.len() + 1
    &&& after.drop_last() == before
    &&& after.last().public_key@ == key
    &&& after.last().nick@ == nick
    &&& after.last().status == status
}

impl Network {
    /// The network's invariant: no public key occurs twice among the
    /// participants, and the invite code is the code of the salt.
    pub open spec fn wf(&self) -> bool {
        &&& keys_distinct(self.participants@)
        &&& self.code@ == code_text(self.salt@)
    }

    /// Everything but the participants is as in `other`.
    pub open spec fn same_settings(&self, other: &Network) -> bool {
        &&& self.name@ == other.name@
        &&& self.salt == other.salt
        &&& self.code@ == other.code@
        &&& self.host_public_key == other.host_public_key
    }
}

/// The first position in `ps` of a participant with public key `key`.
fn position_of(ps: &Vec<Participant>, key: &[u8; 32]) -> (r: Option<usize>)
    ensures
        r is None <==> !has_key(ps@, key_point(key@)),
        r matches Some(i) ==> first_with_key(ps@, key_point(key@), i as int),
{
    let mut i: usize = 0;
    while i < ps.len()
        invariant
            i <= ps@.len(),
            forall|j: int| 0 <= j < i ==> #[trigger] point_of(ps@[j]) != key_point(key@),
        decreases ps@.len() - i,
    {
        if same_public_key(&ps[i].public_key, key) {
            assert(point_of(ps@[i as int]) == key_point(key@));
            return Some(i);
        }
        i += 1;
    }
    None
}

proof fn lemma_without_key_step(ps: Seq<Participant>, key: int, i: int)
    requires
        0 <= i < ps.len(),
    ensures
        without_key(ps.take(i + 1), key) == if point_of(ps[i]) == key {
            without_key(ps.take(i), key)
        } else {
            without_key(ps.take(i), key).push(ps[i])
        },
{
    assert(ps.take(i + 1).drop_last() =~= ps.take(i));
}

/// What `without_key` keeps: participants of `ps` none of which has `key`,
/// and, when the keys of `ps` are distinct, theirs are too.
proof fn lemma_without_key(ps: Seq<Participant>, key: int)
    ensures
        !has_key(without_key(ps, key), key),
        forall|k: int| has_key(without_key(ps, key), k) ==> has_key(ps, k),
        forall|k: int| k != key && has_key(ps, k) ==> has_key(without_key(ps, key), k),
        keys_distinct(ps) ==> keys_distinct(without_key(ps, key)),
    decreases ps.len(),
{
    if ps.len() > 0 {
        let init = ps.drop_last();
        lemma_without_key(init, key);
        let rest = without_key(init, key);
        let out = without_key(ps, key);
        assert forall|k: int| k != key && has_key(ps, k) implies has_key(out, k) by {
            let i = choose|i: int| 0 <= i < ps.len() && #[trigger] point_of(ps[i]) == k;
            if i < init.len() {
                assert(init[i] == ps[i]);
                assert(has_key(init, k));
                let j = choose|j: int| 0 <= j < rest.len() && #[trigger] point_of(rest[j]) == k;
                if point_of(ps.last()) != key {
                    assert(out[j] == rest[j]);
                }
            } else {
                assert(out[rest.len() as int] == ps.last());
            }
        }
        assert forall|k: int| has_key(init, k) implies has_key(ps, k) by {
            let i = choose|i: int| 0 <= i < init.len() && #[trigger] point_of(init[i]) == k;
            assert(ps[i] == init[i]);
        }
        if point_of(ps.last()) != key {
            let out = rest.push(ps.last());
            assert forall|k: int| has_key(out, k) implies has_key(ps, k) by {
                let i = choose|i: int| 0 <= i < out.len() && #[trigger] point_of(out[i]) == k;
                if i == rest.len() {
                    assert(point_of(ps[ps.len() - 1]) == k);
                } else {
                    assert(out[i] == rest[i]);
                    assert(has_key(rest, k));
                }
            }
            assert(!has_key(out, key)) by {
                if has_key(out, key) {
                    let i = choose|i: int| 0 <= i < out.len() && #[trigger] point_of(out[i]) == key;
                    assert(out[i] == rest[i]);
                }
            }
            if keys_distinct(ps) {
                assert(keys_distinct(init)) by {
                    assert forall|i: int, j: int| 0 <= i < j < init.len() implies #[trigger] point_of(init[i])
                        != #[trigger] point_of(init[j]) by {
                        assert(init[i] == ps[i] && init[j] == ps[j]);
                    }
                }
                assert(!has_key(init, point_of(ps.last()))) by {
                    if has_key(init, point_of(ps.last())) {
                        let i = choose|i: int| 0 <= i < init.len() && #[trigger] point_of(init[i])
                            == point_of(ps.last());
                        assert(ps[i] == init[i]);
                        assert(point_of(ps[i]) != point_of(ps[ps.len() - 1]));
                    }
                }
                assert forall|i: int, j: int| 0 <= i < j < out.len() implies #[trigger] point_of(out[i])
                    != #[trigger] point_of(out[j]) by {
                    assert(out[i] == rest[i]);
                    if j == rest.len() {
                        assert(has_key(rest, point_of(out[i])));
                    } else {
                        assert(out[j] == rest[j]);
                    }
                }
            }
        } else {
            if keys_distinct(ps) {
                assert forall|i: int, j: int| 0 <= i < j < init.len() implies #[trigger] point_of(init[i])
                    != #[trigger] point_of(init[j]) by {
                    assert(init[i] == ps[i] && init[j] == ps[j]);
                }
            }
        }
    }
}

/// Taking out a key that no participant has changes nothing.
proof fn lemma_without_absent_key(ps: Seq<Participant>, key: int)
    requires
        !has_key(ps, key),
    ensures
        without_key(ps, key) == ps,
    decreases ps.len(),
{
    if ps.len() > 0 {
        let init = ps.drop_last();
        assert(!has_key(init, key)) by {
            if has_key(init, key) {
                let i = choose|i: int| 0 <= i < init.len() && #[trigger] point_of(init[i]) == key;
                assert(ps[i] == init[i]);
            }
        }
        lemma_without_absent_key(init, key);
        assert(ps.last() == ps[ps.len() - 1]);
        assert(init.push(ps.last()) =~= ps);
    }
}

/// Removing a key keeps exactly the participants whose key stands for
/// another point, in their order: it is `filter` on the participants.
pub proof fn lemma_remove_is_filter(ps: Seq<Participant>, key: int)
    ensures
        without_key(ps, key) == ps.filter(|p: Participant| point_of(p) != key),
    decreases ps.len(),
{
    reveal(Seq::filter);
    if ps.len() > 0 {
        lemma_remove_is_filter(ps.drop_last(), key);
    }
}

/// Some participant has a key exactly when the points of the participants'
/// keys contain it, and exactly when there is a first participant with it;
/// that first one is unique.
pub proof fn lemma_has_key(ps: Seq<Participant>, key: int)
    ensures
        has_key(ps, key) <==> ps.map_values(|p: Participant| point_of(p)).contains(key),
        has_key(ps, key) <==> exists|i: int| first_with_key(ps, key, i),
        forall|i: int, j: int|
            first_with_key(ps, key, i) && first_with_key(ps, key, j) ==> i == j,
    decreases ps.len(),
{
    let pts = ps.map_values(|p: Participant| point_of(p));
    if has_key(ps, key) {
        let i = choose|i: int| 0 <= i < ps.len() && #[trigger] point_of(ps[i]) == key;
        assert(pts[i] == key);
    }
    if pts.contains(key) {
        let i = choose|i: int| 0 <= i < pts.len() && pts[i] == key;
        assert(point_of(ps[i]) == key);
    }
    if ps.len() > 0 {
        let init = ps.drop_last();
        lemma_has_key(init, key);
        if has_key(init, key) {
            let i = choose|i: int| first_with_key(init, key, i);
            assert forall|j: int| 0 <= j < i implies #[trigger] point_of(ps[j]) != key by {
                assert(ps[j] == init[j]);
            }
            assert(ps[i] == init[i]);
            assert(first_with_key(ps, key, i));
        } else if has_key(ps, key) {
            let last = ps.len() - 1;
            assert forall|j: int| 0 <= j < last implies #[trigger] point_of(ps[j]) != key by {
                assert(ps[j] == init[j]);
                if point_of(ps[j]) == key {
                    assert(point_of(init[j]) == key);
                }
            }
            let i = choose|i: int| 0 <= i < ps.len() && #[trigger] point_of(ps[i]) == key;
            if i < last {
                assert(point_of(ps[i]) != key);
            }
            assert(first_with_key(ps, key, last));
        }
    }
    assert forall|i: int, j: int|
        first_with_key(ps, key, i) && first_with_key(ps, key, j) implies i == j by {
        if i < j {
            assert(point_of(ps[i]) != key);
        } else if j < i {
            assert(point_of(ps[j]) != key);
        }
    }
}

/// Removing a key leaves no participant with that key (so
/// `find_participant` finds none), and keeps every participant with another
/// key.
pub proof fn lemma_remove_participant(ps: Seq<Participant>, key: int, other: int)
    ensures
        !has_key(without_key(ps, key), key),
        other != key ==> (has_key(without_key(ps, key), other) <==> has_key(ps, other)),
{
    lemma_without_key(ps, key);
}

/// Adding a participant with a new key and then removing that key gives the
/// participants back as they were.
pub proof fn lemma_add_then_remove(
    before: Seq<Participant>,
    after: Seq<Participant>,
    key: Seq<u8>,
    nick: Seq<char>,
    status: ParticipantStatus,
)
    requires
        !has_key(before, key_point(key)),
        appended(before, after, key, nick, status),
    ensures
        without_key(after, key_point(key)) == before,
{
    lemma_without_absent_key(before, key_point(key));
}

impl Network {
    /// A network hosted by `host_pub` with the given salt: the host is its
    /// only participant, online.
    pub fn create_with_salt(name: &str, host_pub: [u8; 32], host_nick: &str, salt: [u8; 32]) -> (r: (
        Network,
        [u8; 32],
    ))
        ensures
            r.1 == salt,
            r.0.wf(),
            r.0.name@ == name@,
            r.0.salt == salt,
            r.0.code@ == code_text(salt@),
            r.0.host_public_key == Some(host_pub),
            appended(Seq::empty(), r.0.participants@, host_pub@, host_nick@, ParticipantStatus::Online),
    {
        let code = NetworkCode::new(&salt);
        let participant = Participant {
            public_key: host_pub,
            nick: String::from_str(host_nick),
            status: ParticipantStatus::Online,
        };
        let mut participants = Vec::new();
        participants.push(participant);
        let network = Network {
            name: String::from_str(name),
            salt,
            code,
            host_public_key: Some(host_pub),
            participants,
        };
        proof {
            assert(network.participants@.drop_last() =~= Seq::<Participant>::empty());
        }
        (network, salt)
    }

    /// A new network hosted by `host_pub`, with a fresh random salt; returns
    /// the network and its salt.
    pub fn create(name: &str, host_pub: [u8; 32], host_nick: &str) -> (r: (Network, [u8; 32]))
        ensures
            r.1 == r.0.salt,
            r.0.wf(),
            r.0.name@ == name@,
            r.0.code@ == code_text(r.0.salt@),
            r.0.host_public_key == Some(host_pub),
            appended(Seq::empty(), r.0.participants@, host_pub@, host_nick@, ParticipantStatus::Online),
    {
        let mut salt = [0u8; 32];
        fill_random(&mut salt);
        Network::create_with_salt(name, host_pub, host_nick, salt)
    }

    /// Joins the network of invite code `code` and salt `salt` as `my_pub`:
    /// refused unless the code is the code of the salt. The joiner is the only
    /// participant known so far, connecting; the host and name are unknown.
    pub fn join(code: &NetworkCode, salt: &[u8; 32], my_pub: [u8; 32], my_nick: &str) -> (r: Result<
        Network,
        NetworkError,
    >)
        ensures
            code@ != code_text(salt@) ==> (r matches Err(NetworkError::InvalidInviteCode)),
            code@ == code_text(salt@) ==> (r matches Ok(net) && {
                &&& net.wf()
                &&& net.name@ == Seq::<char>::empty()
                &&& net.salt == *salt
                &&& net.code@ == code@
                &&& net.host_public_key is None
                &&& appended(
                    Seq::empty(),
                    net.participants@,
                    my_pub@,
                    my_nick@,
                    ParticipantStatus::Connecting,
                )
            }),
    {
        if !code.matches_salt(salt) {
            return Err(NetworkError::InvalidInviteCode);
        }
        let participant = Participant {
            public_key: my_pub,
            nick: String::from_str(my_nick),
            status: ParticipantStatus::Connecting,
        };
        let mut participants = Vec::new();
        participants.push(participant);
        let network = Network {
            name: String::new(),
            salt: *salt,
            code: code.clone(),
            host_public_key: None,
            participants,
        };
        proof {
            assert(network.participants@.drop_last() =~= Seq::<Participant>::empty());
        }
        Ok(network)
    }

    /// Leaves the network: forgets every participant.
    pub fn leave(&mut self)
        ensures
            final(self).participants@ == Seq::<Participant>::empty(),
            final(self).same_settings(old(self)),
            old(self).wf() ==> final(self).wf(),
    {
        self.participants.clear();
    }

    /// Adds an online participant, refused when its public key is already in
    /// the network (which then stays as it was).
    pub fn add_participant(&mut self, pub_key: [u8; 32], nick: &str) -> (r: Result<(), NetworkError>)
        ensures
            has_key(old(self).participants@, key_point(pub_key@)) ==> (r matches Err(
                NetworkError::DuplicateParticipant,
            ) && *final(self) == *old(self)),
            !has_key(old(self).participants@, key_point(pub_key@)) ==> (r is Ok && appended(
                old(self).participants@,
                final(self).participants@,
                pub_key@,
                nick@,
                ParticipantStatus::Online,
            ) && final(self).same_settings(old(self))),
            old(self).wf() ==> final(self).wf(),
    {
        if position_of(&self.participants, &pub_key).is_some() {
            return Err(NetworkError::DuplicateParticipant);
        }
        let ghost before = self.participants@;
        self.participants.push(
            Participant {
                public_key: pub_key,
                nick: String::from_str(nick),
                status: ParticipantStatus::Online,
            },
        );
        proof {
            let after = self.participants@;
            assert(after.drop_last() =~= before);
            if keys_distinct(before) {
                assert forall|i: int, j: int| 0 <= i < j < after.len() implies #[trigger] point_of(after[i])
                    != #[trigger] point_of(after[j]) by {
                    assert(after[i] == before[i]);
                    if j < before.len() {
                        assert(after[j] == before[j]);
                    }
                }
            }
        }
        Ok(())
    }

    /// Removes every participant with public key `pub_key`, keeping the
    /// others in order.
    pub fn remove_participant(&mut self, pub_key: &[u8; 32])
        ensures
            final(self).participants@ == without_key(old(self).participants@, key_point(pub_key@)),
            final(self).same_settings(old(self)),
            old(self).wf() ==> final(self).wf(),
    {
        let mut remaining: Vec<Participant> = Vec::new();
        std::mem::swap(&mut remaining, &mut self.participants);
        let ghost all = remaining@;
        let mut kept: Vec<Participant> = Vec::new();
        proof {
            broadcast use vstd::std_specs::vec::axiom_spec_into_iter;
        }
        for p in it: remaining
            invariant
                it.seq() == all,
                kept@ == without_key(all.take(it.index() as int), key_point(pub_key@)),
        {
            proof {
                lemma_without_key_step(all, key_point(pub_key@), it.index() as int);
            }
            if !same_public_key(&p.public_key, pub_key) {
                kept.push(p);
            }
        }
        proof {
            assert(all.take(all.len() as int) =~= all);
            lemma_without_key(all, key_point(pub_key@));
        }
        self.participants = kept;
    }

    /// The first participant with public key `pub_key`, if any.
    pub fn find_participant(&self, pub_key: &[u8; 32]) -> (r: Option<&Participant>)
        ensures
            r is None <==> !has_key(self.participants@, key_point(pub_key@)),
            r matches Some(p) ==> exists|i: int| #[trigger]
                first_with_key(self.participants@, key_point(pub_key@), i) && *p == self.participants@[i],
    {
        match position_of(&self.participants, pub_key) {
            Some(i) => Some(&self.participants[i]),
            None => None,
        }
    }

    /// The participants, in the order they joined.
    pub fn participants(&self) -> (ps: &[Participant])
        ensures
            ps@ == self.participants@,
    {
        self.participants.as_slice()
    }

    /// The network's name.
    pub fn name(&self) -> (name: &str)
        ensures
            name@ == self.name@,
    {
        self.name.as_str()
    }

    /// The network's invite code.
    pub fn code(&self) -> (code: &NetworkCode)
        ensures
            *code == self.code,
    {
        &self.code
    }

    /// Whether `pub_key` is the host's public key.
    pub fn is_host(&self, pub_key: &[u8; 32]) -> (r: bool)
        ensures
            r == (self.host_public_key matches Some(h) && key_point(h@) == key_point(pub_key@)),
    {
        match &self.host_public_key {
            Some(h) => same_public_key(h, pub_key),
            None => false,
        }
    }
}

} // verus!
