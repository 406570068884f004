use banqline::jwt::{generate_jwt, signing_input, token_times, token_with_signature};
use base64::Engine;
use base64::engine::general_purpose::URL_SAFE_NO_PAD;
use rsa::pkcs1v15::{Signature, VerifyingKey};
use rsa::signature::Verifier;
use rsa::pkcs1::EncodeRsaPrivateKey;
use rsa::RsaPrivateKey;
use sha2::Sha256;

#[test]
fn signing_input_encodes_both_parts() {
    let s = signing_input(b"{\"alg\":\"RS256\"}", b"{}");
    assert_eq!(s, format!("{}.{}", URL_SAFE_NO_PAD.encode(b"{\"alg\":\"RS256\"}"), URL_SAFE_NO_PAD.encode(b"{}")));
    assert_eq!(token_times(100), (100, 3700));
}

#[test]
fn jwt_signature_verifies() {
    let key = RsaPrivateKey::new(&mut rand::thread_rng(), 512).unwrap();
    let der = key.to_pkcs1_der().unwrap();
    let token = generate_jwt(der.as_bytes(), b"{\"alg\":\"RS256\",\"typ\":\"JWT\",\"kid\":\"app\"}", b"{\"iat\":1}").unwrap();
    let parts: Vec<&str> = token.split('.').collect();
    assert_eq!(parts.len(), 3);
    let input = format!("{}.{}", parts[0], parts[1]);
    let sig = URL_SAFE_NO_PAD.decode(parts[2]).unwrap();
    let signature = Signature::try_from(sig.as_slice()).unwrap();
    VerifyingKey::<Sha256>::new(key.to_public_key()).verify(input.as_bytes(), &signature).unwrap();
}

#[test]
fn generate_jwt_signature_verifies_with_rs256_input() {
    let key = RsaPrivateKey::new(&mut rand::thread_rng(), 2048).unwrap();
    let header = br#"{"alg":"RS256","typ":"JWT","kid":"test-app"}"#;
    let claims = br#"{"iss":"enablebanking.com","aud":"api.enablebanking.com","iat":1700000000,"exp":1700003600}"#;
    let der = key.to_pkcs1_der().unwrap();
    let token = generate_jwt(der.as_bytes(), header, claims).unwrap();
    let parts: Vec<&str> = token.split('.').collect();
    assert_eq!(parts.len(), 3);
    let signing_input = format!("{}.{}", parts[0], parts[1]);
    let signature_bytes = URL_SAFE_NO_PAD.decode(parts[2]).unwrap();
    let signature = Signature::try_from(signature_bytes.as_slice()).unwrap();
    let verifying_key = VerifyingKey::<Sha256>::new(key.to_public_key());
    verifying_key.verify(signing_input.as_bytes(), &signature).unwrap();
}

#[test]
fn token_appends_encoded_signature() {
    assert_eq!(token_with_signature("a.b", &[0xfb, 0xff]), "a.b.-_8");
    assert_eq!(token_with_signature("a.b", b""), "a.b.");
}

#[test]
fn jwt_refused_for_bytes_that_hold_no_key() {
    assert_eq!(generate_jwt(b"not a key", b"{}", b"{}"), None);
    assert_eq!(generate_jwt(b"", b"{}", b"{}"), None);
}
