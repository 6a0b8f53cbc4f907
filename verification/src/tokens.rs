//! Secrets and identifiers: invitation tokens, their hashes, session ids.
use base64::engine::general_purpose::URL_SAFE_NO_PAD;
use base64::Engine;
use rand::RngCore;
use sha2::{Digest, Sha256};
use uuid::Uuid;
use vstd::prelude::*;
use vstd::utf8::encode_utf8;

verus! {

/// The URL-safe base64 form, without padding, of some bytes.
pub uninterp spec fn base64_text(bytes: Seq<u8>) -> Seq<char>;

/// Whether a character stands in a URL as it is.
pub open spec fn url_safe(c: char) -> bool {
    ||| 'A' <= c <= 'Z'
    ||| 'a' <= c <= 'z'
    ||| '0' <= c <= '9'
    ||| c == '-'
    ||| c == '_'
}

/// `base64`'s `URL_SAFE_NO_PAD.encode`: a function of the bytes alone, named
/// [`base64_text`]. Thirty-two bytes give forty-three characters of the
/// URL-safe alphabet.
#[verifier::external_body]
fn encode_base64(bytes: &[u8; 32]) -> (r: String)
    ensures
        r@ == base64_text(bytes@),
        r@.len() == 43,
        forall|i: int| 0 <= i < 43 ==> url_safe(#[trigger] r@[i]),
{
    URL_SAFE_NO_PAD.encode(bytes)
}

/// `rand::rng().fill_bytes`: thirty-two random bytes. Nothing is known of them.
#[verifier::external_body]
fn random_bytes() -> (r: [u8; 32]) {
    let mut raw: [u8; 32] = [0u8; 32];
    rand::rng().fill_bytes(&mut raw);
    raw
}

/// A fresh invitation token: thirty-two random bytes in a form that can stand
/// in a link.
pub fn random_token() -> (r: String)
    ensures
        exists|bytes: Seq<u8>| bytes.len() == 32 && r@ == #[trigger] base64_text(bytes),
        r@.len() == 43,
        forall|i: int| 0 <= i < r@.len() ==> url_safe(#[trigger] r@[i]),
{
    let raw: [u8; 32] = random_bytes();
    let token: String = token_of(&raw);
    assert(raw@.len() == 32);
    token
}

/// The token made of the given bytes.
pub fn token_of(raw: &[u8; 32]) -> (r: String)
    ensures
        r@ == base64_text(raw@),
        r@.len() == 43,
        forall|i: int| 0 <= i < r@.len() ==> url_safe(#[trigger] r@[i]),
{
    encode_base64(raw)
}

/// The SHA-256 digest of some bytes.
pub uninterp spec fn sha256(bytes: Seq<u8>) -> Seq<u8>;

/// `sha2::Sha256`, fed with `update` and read with `finalize`: a function of
/// the bytes alone, named [`sha256`], of thirty-two bytes.
#[verifier::external_body]
fn digest_sha256(bytes: &[u8]) -> (r: Vec<u8>)
    ensures
        r@ == sha256(bytes@),
        r@.len() == 32,
{
    let mut hasher: Sha256 = Sha256::new();
    hasher.update(bytes);
    hasher.finalize().to_vec()
}

/// The lowercase hexadecimal digit of a number below sixteen.
pub open spec fn hex_digit(n: int) -> char {
    if n < 10 {
        ((48 + n) as u8) as char
    } else {
        ((87 + n) as u8) as char
    }
}

/// Bytes in lowercase hexadecimal, two digits each.
pub open spec fn hex_text(bytes: Seq<u8>) -> Seq<char>
    decreases bytes.len(),
{
    if bytes.len() == 0 {
        Seq::empty()
    } else {
        hex_text(bytes.drop_last()).push(hex_digit(bytes.last() as int / 16)).push(
            hex_digit(bytes.last() as int % 16),
        )
    }
}

/// What is stored of a token: the SHA-256 of its characters, in hexadecimal.
pub open spec fn token_hash(token: Seq<char>) -> Seq<char> {
    hex_text(sha256(encode_utf8(token)))
}

fn hex_char(n: u8) -> (r: char)
    requires
        n < 16,
    ensures
        r == hex_digit(n as int),
{
    if n < 10 {
        (48 + n) as char
    } else {
        (87 + n) as char
    }
}

/// Renders bytes in lowercase hexadecimal.
pub fn to_hex(bytes: &Vec<u8>) -> (r: String)
    ensures
        r@ == hex_text(bytes@),
        r@.len() == 2 * bytes@.len(),
{
    let mut out: String = String::new();
    let mut i: usize = 0;
    while i < bytes.len()
        invariant
            i <= bytes.len(),
            out@ =~= hex_text(bytes@.take(i as int)),
            out@.len() == 2 * i,
        decreases bytes.len() - i,
    {
        assert(bytes@.take(i + 1).drop_last() =~= bytes@.take(i as int));
        let b: u8 = bytes[i];
        out.push(hex_char(b / 16));
        out.push(hex_char(b % 16));
        i = i + 1;
    }
    assert(bytes@.take(bytes@.len() as int) =~= bytes@);
    out
}

/// The SHA-256 of a text, in hexadecimal.
pub fn hex_sha256(input: &str) -> (r: String)
    ensures
        r@ == token_hash(input@),
        r@.len() == 64,
{
    let digest: Vec<u8> = digest_sha256(input.as_bytes());
    to_hex(&digest)
}

/// `Uuid::new_v4`: a random identifier. Nothing is known of it but the bits
/// that mark its version and variant.
#[verifier::external_body]
fn new_uuid() -> (r: u128)
    ensures
        (r >> 76) & 0xf == 4,
        (r >> 62) & 0x3 == 2,
{
    Uuid::new_v4().as_u128()
}

/// A fresh session id.
pub fn new_session_id() -> (r: u128)
    ensures
        (r >> 76) & 0xf == 4,
        (r >> 62) & 0x3 == 2,
{
    new_uuid()
}

/// Different bytes have different hexadecimal forms.
pub proof fn hex_is_one_to_one(a: Seq<u8>, b: Seq<u8>)
    requires
        hex_text(a) == hex_text(b),
    ensures
        a == b,
    decreases a.len(),
{
    hex_length(a);
    hex_length(b);
    if a.len() > 0 {
        let x = hex_text(a);
        let y = hex_text(b);
        let n = x.len() as int;
        assert(x.take(n - 2) =~= hex_text(a.drop_last()));
        assert(y.take(n - 2) =~= hex_text(b.drop_last()));
        hex_is_one_to_one(a.drop_last(), b.drop_last());
        assert(x[n - 2] == y[n - 2] && x[n - 1] == y[n - 1]);
        assert(a.last() == b.last());
        assert(a =~= a.drop_last().push(a.last()));
        assert(b =~= b.drop_last().push(b.last()));
    } else {
        assert(a =~= b);
    }
}

proof fn hex_length(a: Seq<u8>)
    ensures
        hex_text(a).len() == 2 * a.len(),
    decreases a.len(),
{
    if a.len() > 0 {
        hex_length(a.drop_last());
    }
}

/// What a hexadecimal digit stands for.
pub open spec fn hex_value(c: char) -> int {
    if c <= '9' {
        c as u32 - '0' as u32
    } else {
        c as u32 - 'a' as u32 + 10
    }
}

/// Each byte stands in two hexadecimal digits, the higher half first, with small
/// letters.
pub proof fn bytes_are_read_back(bytes: Seq<u8>, i: int)
    requires
        0 <= i < bytes.len(),
    ensures
        ({
            let text = hex_text(bytes);
            let (high, low) = (text[2 * i], text[2 * i + 1]);
            &&& text.len() == 2 * bytes.len()
            &&& '0' <= high <= '9' || 'a' <= high <= 'f'
            &&& '0' <= low <= '9' || 'a' <= low <= 'f'
            &&& hex_value(high) * 16 + hex_value(low) == bytes[i]
        }),
    decreases bytes.len(),
{
    let front = bytes.drop_last();
    hex_length(front);
    if i < front.len() {
        bytes_are_read_back(front, i);
    } else {
        let b = bytes.last() as int;
        assert(hex_text(bytes)[2 * i] == hex_digit(b / 16));
        assert(hex_text(bytes)[2 * i + 1] == hex_digit(b % 16));
    }
}

/// A token is kept as the hexadecimal form of the SHA-256 hash of its bytes.
pub proof fn tokens_are_kept_as_hashes(token: Seq<char>)
    ensures
        token_hash(token) == hex_text(sha256(encode_utf8(token))),
{
}

/// A token is the text of its bytes, and its hash the hexadecimal text of the SHA-256
/// of that text.
pub proof fn tokens_are_written_and_hashed(
    raw: &[u8; 32],
    token: String,
    input: &str,
    hash: String,
    bytes: &Vec<u8>,
    hex: String,
)
    requires
        call_ensures(token_of, (raw,), token),
        call_ensures(hex_sha256, (input,), hash),
        call_ensures(to_hex, (bytes,), hex),
    ensures
        token@ == base64_text(raw@),
        token@.len() == 43,
        hash@ == hex_text(sha256(encode_utf8(input@))),
        hex@ == hex_text(bytes@),
{
}

} // verus!
