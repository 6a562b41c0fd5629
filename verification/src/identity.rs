//! An anonymous identity: an X25519 key pair and a nick.
use vstd::prelude::*;

use crate::crypto::{x25519_public_key, x25519_public_of, KEY_LEN};
use crate::random::fill_random;
use crate::text::push_char;

verus! {

/// Number of animals that nicks are drawn from.
pub const ANIMAL_COUNT: u32 = 5;

/// The animal of a nick, by index.
pub open spec fn animal_name(i: int) -> Seq<char> {
    if i == 0 {
        "Лис"@
    } else if i == 1 {
        "Барсук"@
    } else if i == 2 {
        "Сыч"@
    } else if i == 3 {
        "Олень"@
    } else {
        "Енот"@
    }
}

/// The decimal digit `d` as a character.
pub open spec fn digit_char(d: int) -> char {
    (48 + d) as char
}

/// The value of four bytes read as a little-endian unsigned integer.
pub open spec fn le_u32(b: Seq<u8>) -> int {
    b[0] + b[1] * 256 + b[2] * 65536 + b[3] * 16777216
}

/// The nick drawn from `seed`: an animal (seed mod 5), a space, and the
/// seed mod 1000 written with three digits.
pub open spec fn nick_text(seed: int) -> Seq<char> {
    let n = seed % 1000;
    animal_name(seed % 5) + " "@ + seq![digit_char(n / 100), digit_char(n / 10 % 10), digit_char(n % 10)]
}

/// Four bytes are read little-endian: the first is the least significant.
pub proof fn lemma_le_u32_bytes(b: Seq<u8>)
    requires
        b.len() == 4,
    ensures
        0 <= le_u32(b) <= u32::MAX,
        le_u32(b) % 256 == b[0],
        le_u32(b) / 256 % 256 == b[1],
        le_u32(b) / 65536 % 256 == b[2],
        le_u32(b) / 16777216 == b[3],
{
}

/// The nick drawn from a 32-bit seed is, for the seed mod 5, the animal
/// Лис, Барсук, Сыч, Олень or Енот, then a space, then three decimal digits
/// that read back as the seed mod 1000.
pub proof fn lemma_nick_shape(seed: int)
    requires
        0 <= seed <= u32::MAX,
    ensures
        ({
            let t = nick_text(seed);
            let n = t.len() as int;
            &&& n >= 4
            &&& t.subrange(0, n - 4) == if seed % 5 == 0 {
                "Лис"@
            } else if seed % 5 == 1 {
                "Барсук"@
            } else if seed % 5 == 2 {
                "Сыч"@
            } else if seed % 5 == 3 {
                "Олень"@
            } else {
                "Енот"@
            }
            &&& t[n - 4] == ' '
            &&& forall|j: int| n - 3 <= j < n ==> '0' <= #[trigger] t[j] <= '9'
            &&& (t[n - 3] as int - 48) * 100 + (t[n - 2] as int - 48) * 10 + (t[n - 1] as int - 48)
                == seed % 1000
        }),
{
    reveal_strlit("Лис");
    reveal_strlit("Барсук");
    reveal_strlit("Сыч");
    reveal_strlit("Олень");
    reveal_strlit("Енот");
    reveal_strlit(" ");
    let t = nick_text(seed);
    let a = animal_name(seed % 5);
    let m = seed % 1000;
    let d0 = digit_char(m / 100);
    let d1 = digit_char(m / 10 % 10);
    let d2 = digit_char(m % 10);
    assert(t == a + " "@ + seq![d0, d1, d2]);
    let n = t.len() as int;
    assert(t.subrange(0, n - 4) =~= a);
    assert(d0 as int == 48 + m / 100);
    assert(d1 as int == 48 + m / 10 % 10);
    assert(d2 as int == 48 + m % 10);
    assert(t[n - 3] == d0 && t[n - 2] == d1 && t[n - 1] == d2);
    assert(t[n - 4] == ' ');
}

fn animal(i: u32) -> (name: &'static str)
    requires
        i < ANIMAL_COUNT,
    ensures
        name@ == animal_name(i as int),
{
    if i == 0 {
        "Лис"
    } else if i == 1 {
        "Барсук"
    } else if i == 2 {
        "Сыч"
    } else if i == 3 {
        "Олень"
    } else {
        "Енот"
    }
}

fn digit(d: u32) -> (c: char)
    requires
        d < 10,
    ensures
        c == digit_char(d as int),
{
    (48 + d as u8) as char
}

/// The nick drawn from four random bytes, read as a little-endian number:
/// an animal and a three-digit number, such as `Лис 042`.
pub fn nick_from_seed(seed: [u8; 4]) -> (nick: String)
    ensures
        nick@ == nick_text(le_u32(seed@)),
{
    let v: u32 = seed[0] as u32 + seed[1] as u32 * 256 + seed[2] as u32 * 65536 + seed[3] as u32
        * 16777216;
    let number = v % 1000;
    let mut nick = String::from_str(animal(v % ANIMAL_COUNT));
    nick.append(" ");
    push_char(&mut nick, digit(number / 100));
    push_char(&mut nick, digit(number / 10 % 10));
    push_char(&mut nick, digit(number % 10));
    nick
}

fn random_nick() -> (nick: String)
    ensures
        exists|seed: int| 0 <= seed <= u32::MAX && nick@ == #[trigger] nick_text(seed),
{
    let mut b = [0u8; 4];
    fill_random(&mut b);
    let nick = nick_from_seed(b);
    assert(nick@ == nick_text(le_u32(b@)));
    nick
}

/// An anonymous identity: an X25519 secret, its public key and a nick.
pub struct Identity {
    secret: [u8; KEY_LEN],
    public: [u8; KEY_LEN],
    nick: String,
}

impl Identity {
    /// The public key is always the key of the secret.
    #[verifier::type_invariant]
    spec fn keys_match(&self) -> bool {
        self.public@ == x25519_public_key(self.secret@)
    }

    /// The identity's secret key.
    pub closed spec fn secret_key(&self) -> Seq<u8> {
        self.secret@
    }

    /// The identity's nick.
    pub closed spec fn nick_view(&self) -> Seq<char> {
        self.nick@
    }

    /// The identity's public key: by the type's invariant, the X25519 public
    /// key of its secret.
    pub open spec fn public_key(&self) -> Seq<u8> {
        x25519_public_key(self.secret_key())
    }

    /// Two identities with the same secret have the same public key: an
    /// identity restored with `from_bytes(id.secret_bytes(), ..)` is `id`
    /// again, up to its nick.
    pub proof fn lemma_same_secret_same_public(a: &Identity, b: &Identity)
        requires
            a.secret_key() == b.secret_key(),
        ensures
            a.public_key() == b.public_key(),
    {
    }

    /// A fresh identity: a random secret and a random nick.
    pub fn generate() -> (id: Identity)
        ensures
            exists|seed: int| 0 <= seed <= u32::MAX && id.nick_view() == #[trigger] nick_text(seed),
            id.secret_key().len() == KEY_LEN,
    {
        let mut secret = [0u8; KEY_LEN];
        fill_random(&mut secret);
        let public = x25519_public_of(&secret);
        let nick = random_nick();
        Identity { secret, public, nick }
    }

    /// The identity's public key: the X25519 public key of its secret.
    pub fn public(&self) -> (public: &[u8; KEY_LEN])
        ensures
            public@ == self.public_key(),
    {
        proof {
            use_type_invariant(self);
        }
        &self.public
    }

    /// The identity's nick.
    pub fn nick(&self) -> (nick: &str)
        ensures
            nick@ == self.nick_view(),
    {
        self.nick.as_str()
    }

    /// The secret key's bytes.
    pub fn secret_bytes(&self) -> (secret: [u8; KEY_LEN])
        ensures
            secret@ == self.secret_key(),
    {
        self.secret
    }

    /// Restores an identity from its secret key and nick.
    pub fn from_bytes(secret_bytes: [u8; KEY_LEN], nick: String) -> (id: Identity)
        ensures
            id.secret_key() == secret_bytes@,
            id.nick_view() == nick@,
    {
        let public = x25519_public_of(&secret_bytes);
        Identity { secret: secret_bytes, public, nick }
    }
}

} // verus!
