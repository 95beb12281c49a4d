//! Authentication records and the offline account identity: the offline
//! login result and the name-derived offline UUID.
use vstd::prelude::*;
use vstd::string::StringExecFns;

verus! {

/// The outcome of a completed login.
#[derive(Debug, Clone, PartialEq)]
pub struct AuthResult {
    pub access_token: String,
    pub refresh_token: String,
    pub expires_in: u64,
    pub username: String,
    pub uuid: String,
    pub xuid: String,
    pub mode: String,
}

/// A failed login, with a message and a stable code.
#[derive(Debug, Clone, PartialEq)]
pub struct AuthError {
    pub message: String,
    pub code: String,
}

/// The authentication payload a launch carries.
#[derive(Debug, Clone, PartialEq)]
pub enum AuthData {
    Microsoft { access_token: String, uuid: String, username: String, xuid: Option<String> },
    Offline { uuid: String, username: String, xuid: Option<String> },
}

/// An offline login: a placeholder token, a name-derived id, and no xuid.
pub fn login_offline(username: String) -> (r: AuthResult)
    ensures
        r.access_token@ == "offline_token"@,
        r.refresh_token@ == "none"@,
        r.expires_in == 0,
        r.username == username,
        r.uuid@ == "offline-"@ + username@,
        r.xuid@ == "0"@,
        r.mode@ == "offline"@,
{
    let mut uuid = String::from_str("offline-");
    uuid.append(username.as_str());
    AuthResult {
        access_token: String::from_str("offline_token"),
        refresh_token: String::from_str("none"),
        expires_in: 0,
        username,
        uuid,
        xuid: String::from_str("0"),
        mode: String::from_str("offline"),
    }
}

/// The MD5 digest of a string's bytes, named: sixteen bytes, a function of
/// the input characters alone.
pub uninterp spec fn md5_of(s: Seq<char>) -> Seq<u8>;

/// Relies on rust-crypto's `Md5` with `Digest::input_str` and
/// `Digest::result`: the digest is sixteen bytes and depends on the input
/// characters alone.
#[verifier::external_body]
fn md5_str(s: &str) -> (r: Vec<u8>)
    ensures
        r@ == md5_of(s@),
        r@.len() == 16,
{
    let mut hasher = crypto::md5::Md5::new();
    crypto::digest::Digest::input_str(&mut hasher, s);
    let mut bytes = [0u8; 16];
    crypto::digest::Digest::result(&mut hasher, &mut bytes);
    bytes.to_vec()
}

/// A digest stamped as a name-derived UUID: its seventh byte carries the
/// version nibble, its ninth the variant bits.
pub open spec fn uuid_v3_bytes(d: Seq<u8>) -> Seq<u8> {
    d.update(6, ((d[6] & 0x0f) | 0x30) as u8).update(8, ((d[8] & 0x3f) | 0x80) as u8)
}

/// The lower-case hex character of a value below sixteen.
pub open spec fn hex_digit(n: u8) -> char {
    if n < 10 {
        (('0' as u32) + n as u32) as char
    } else {
        (('a' as u32) + (n - 10) as u32) as char
    }
}

/// The two hex characters of one byte.
pub open spec fn hex_byte(b: u8) -> Seq<char> {
    seq![hex_digit(b / 16), hex_digit(b % 16)]
}

/// The hyphenated textual form of sixteen UUID bytes.
pub open spec fn uuid_hyphenated(d: Seq<u8>) -> Seq<char> {
    hex_byte(d[0]) + hex_byte(d[1]) + hex_byte(d[2]) + hex_byte(d[3]) + seq!['-'] + hex_byte(d[4])
        + hex_byte(d[5]) + seq!['-'] + hex_byte(d[6]) + hex_byte(d[7]) + seq!['-'] + hex_byte(d[8])
        + hex_byte(d[9]) + seq!['-'] + hex_byte(d[10]) + hex_byte(d[11]) + hex_byte(d[12])
        + hex_byte(d[13]) + hex_byte(d[14]) + hex_byte(d[15])
}

/// The lower-case hex character of a value below sixteen.
fn hex_digit_exec(n: u8) -> (r: char)
    requires
        n < 16,
    ensures
        r == hex_digit(n),
{
    match n {
        0 => '0',
        1 => '1',
        2 => '2',
        3 => '3',
        4 => '4',
        5 => '5',
        6 => '6',
        7 => '7',
        8 => '8',
        9 => '9',
        10 => 'a',
        11 => 'b',
        12 => 'c',
        13 => 'd',
        14 => 'e',
        _ => 'f',
    }
}

/// Appends the two hex characters of one byte.
fn push_hex_byte(s: String, b: u8) -> (r: String)
    ensures
        r@ == s@ + hex_byte(b),
{
    let hi = hex_digit_exec(b / 16);
    let lo = hex_digit_exec(b % 16);
    let s1 = crate::strutil::push_char(s, hi);
    let r = crate::strutil::push_char(s1, lo);
    proof {
        assert(r@ =~= s@ + hex_byte(b));
    }
    r
}

/// The offline UUID of a player name: the MD5 digest of
/// `OfflinePlayer:<name>`, stamped with the name-derived version and
/// variant bits, written in hyphenated hex.
pub fn generate_offline_uuid(username: &str) -> (r: String)
    ensures
        r@ == uuid_hyphenated(uuid_v3_bytes(md5_of("OfflinePlayer:"@ + username@))),
{
    let mut payload = String::from_str("OfflinePlayer:");
    payload.append(username);
    let mut bytes = md5_str(payload.as_str());
    let b6 = bytes[6];
    bytes.set(6, (b6 & 0x0f) | 0x30);
    let b8 = bytes[8];
    bytes.set(8, (b8 & 0x3f) | 0x80);
    let ghost stamped = uuid_v3_bytes(md5_of("OfflinePlayer:"@ + username@));
    proof {
        assert(bytes@ =~= stamped);
    }
    let mut s = String::new();
    s = push_hex_byte(s, bytes[0]);
    s = push_hex_byte(s, bytes[1]);
    s = push_hex_byte(s, bytes[2]);
    s = push_hex_byte(s, bytes[3]);
    s = crate::strutil::push_char(s, '-');
    s = push_hex_byte(s, bytes[4]);
    s = push_hex_byte(s, bytes[5]);
    s = crate::strutil::push_char(s, '-');
    s = push_hex_byte(s, bytes[6]);
    s = push_hex_byte(s, bytes[7]);
    s = crate::strutil::push_char(s, '-');
    s = push_hex_byte(s, bytes[8]);
    s = push_hex_byte(s, bytes[9]);
    s = crate::strutil::push_char(s, '-');
    s = push_hex_byte(s, bytes[10]);
    s = push_hex_byte(s, bytes[11]);
    s = push_hex_byte(s, bytes[12]);
    s = push_hex_byte(s, bytes[13]);
    s = push_hex_byte(s, bytes[14]);
    s = push_hex_byte(s, bytes[15]);
    proof {
        assert(s@ =~= uuid_hyphenated(stamped));
    }
    s
}

} // verus!
