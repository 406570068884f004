use vstd::prelude::*;

use crate::text::{concat, push_str};
use rsa::pkcs1::DecodeRsaPrivateKey;
use vstd::utf8::encode_utf8;

verus! {

/// The character of a six-bit value in the URL-safe base64 alphabet:
/// `A`-`Z`, `a`-`z`, `0`-`9`, `-` and `_`.
pub open spec fn base64url_char(v: int) -> char {
    if v < 26 {
        (65 + v) as char
    } else if v < 52 {
        (97 + v - 26) as char
    } else if v < 62 {
        (48 + v - 52) as char
    } else if v == 62 {
        '-'
    } else {
        '_'
    }
}

/// What base64 with the URL-safe alphabet and no padding writes for some
/// bytes: four characters for each three bytes, two or three for the one or
/// two bytes left at the end.
#[verifier::opaque]
pub open spec fn base64url_text(bytes: Seq<u8>) -> Seq<char>
    decreases bytes.len(),
{
    if bytes.len() == 0 {
        Seq::<char>::empty()
    } else if bytes.len() == 1 {
        let a = bytes[0] as int;
        seq![base64url_char(a / 4), base64url_char((a % 4) * 16)]
    } else if bytes.len() == 2 {
        let a = bytes[0] as int;
        let b = bytes[1] as int;
        seq![base64url_char(a / 4), base64url_char((a % 4) * 16 + b / 16), base64url_char((b % 16) * 4)]
    } else {
        let a = bytes[0] as int;
        let b = bytes[1] as int;
        let c = bytes[2] as int;
        seq![
            base64url_char(a / 4),
            base64url_char((a % 4) * 16 + b / 16),
            base64url_char((b % 16) * 4 + c / 64),
            base64url_char(c % 64),
        ] + base64url_text(bytes.skip(3))
    }
}

/// Calls `base64`'s `URL_SAFE_NO_PAD.encode`. Claimed: the text
/// `base64url_text` states.
#[verifier::external_body]
fn base64url(bytes: &[u8]) -> (r: String)
    ensures
        r@ == base64url_text(bytes@),
{
    base64::Engine::encode(&base64::engine::general_purpose::URL_SAFE_NO_PAD, bytes)
}

/// The RS256 signature (RSASSA-PKCS1-v1_5 over SHA-256) of `msg` under the
/// RSA private key whose PKCS#1 DER encoding is `key_der`; `None` when those
/// bytes hold no such key or signing fails.
pub uninterp spec fn rs256_signature(key_der: Seq<u8>, msg: Seq<u8>) -> Option<Seq<u8>>;

/// Calls `RsaPrivateKey::from_pkcs1_der` on `key_der`, then
/// `SigningKey::<Sha256>::try_sign_with_rng` on `msg` with the thread's
/// random generator, which only blinds the computation, and gives the
/// signature's bytes. Claimed: the result is the named signature of those
/// bytes and that message.
#[verifier::external_body]
fn sign_rs256(key_der: &[u8], msg: &[u8]) -> (r: Option<Vec<u8>>)
    ensures
        r.deep_view() == rs256_signature(key_der@, msg@),
{
    let key = match rsa::RsaPrivateKey::from_pkcs1_der(key_der) {
        Ok(k) => k,
        Err(_) => return None,
    };
    let signing_key = rsa::pkcs1v15::SigningKey::<sha2::Sha256>::new(key);
    match rsa::signature::RandomizedSigner::try_sign_with_rng(&signing_key, &mut rand::thread_rng(), msg) {
        Ok(sig) => Some(rsa::signature::SignatureEncoding::to_vec(&sig)),
        Err(_) => None,
    }
}

/// When a token issued at `now` (seconds since the epoch) is issued and
/// when it expires: an hour later.
pub fn token_times(now: i64) -> (r: (i64, i64))
    requires
        now <= i64::MAX - 3600,
    ensures
        r.0 == now,
        r.1 == now + 3600,
{
    (now, now + 3600)
}

/// The signed part of a token: the encoded header, a dot, the encoded
/// claims.
pub open spec fn signing_input_spec(header_json: Seq<u8>, claims_json: Seq<u8>) -> Seq<char> {
    base64url_text(header_json) + "."@ + base64url_text(claims_json)
}

pub fn signing_input(header_json: &[u8], claims_json: &[u8]) -> (r: String)
    ensures
        r@ == signing_input_spec(header_json@, claims_json@),
{
    let mut s = base64url(header_json);
    push_str(&mut s, ".");
    push_str(&mut s, base64url(claims_json).as_str());
    s
}

/// The token for a signing input and the signature of it: the input, a dot,
/// and the encoded signature.
pub fn token_with_signature(input: &str, sig: &[u8]) -> (r: String)
    ensures
        r@ == input@ + "."@ + base64url_text(sig@),
{
    let mut t = concat(input, ".");
    let enc = base64url(sig);
    push_str(&mut t, enc.as_str());
    t
}

/// A signed token for the bank API: the signing input of the JSON header
/// and claims, a dot, and the encoded RS256 signature of that input under
/// the key whose PKCS#1 DER encoding is `key_der`; `None` when that key
/// cannot sign.
pub fn generate_jwt(key_der: &[u8], header_json: &[u8], claims_json: &[u8]) -> (r: Option<String>)
    ensures
        ({
            let input = signing_input_spec(header_json@, claims_json@);
            match rs256_signature(key_der@, encode_utf8(input)) {
                Some(sig) => r matches Some(t) && t@ == input + "."@ + base64url_text(sig),
                None => r is None,
            }
        }),
{
    let input = signing_input(header_json, claims_json);
    let msg = input.as_str().as_bytes();
    assert(msg@ == encode_utf8(input@));
    match sign_rs256(key_der, msg) {
        Some(sig) => {
            assert(sig.deep_view() =~= sig@);
            Some(token_with_signature(input.as_str(), sig.as_slice()))
        },
        None => None,
    }
}

} // verus!
