use weesels::auth::{create_auth, create_auth_with, Algo, AuthError, ShaSize};
use weesels::messages::Handshake;

fn handshake(algo: &str, nonce: &str) -> Handshake {
    Handshake {
        password_hash_algo: String::from(algo),
        password_hash_iterations: String::new(),
        compression: String::new(),
        totp: String::new(),
        nonce: String::from(nonce),
    }
}

const NOT_RANDOM: &[u8] = b"\xa4\xb7\x32\x07\xf5\xaa\xe4";

#[test]
fn test_auth_plain() {
    let algo = Algo::from_handshake(&handshake("plain", "")).unwrap();
    let res = create_auth(&algo, "foobar").unwrap();
    assert_eq!("password=foobar", res)
}

#[test]
fn test_sha256() {
    let algo = Algo::from_handshake(&handshake("sha256", "85b1ee00695a5b254e14f4885538df0d")).unwrap();
    let res = create_auth_with(&algo, "test", NOT_RANDOM).unwrap();
    assert_eq!(
        "password_hash=sha256:85b1ee00695a5b254e14f4885538df0da4b73207f5aae4:\
         2c6ed12eb0109fca3aedc03bf03d9b6e804cd60a23e1731fd17794da423e21db",
        res
    )
}

#[test]
fn test_sha512() {
    let algo = Algo::from_handshake(&handshake("sha512", "85b1ee00695a5b254e14f4885538df0d")).unwrap();
    let res = create_auth_with(&algo, "test", NOT_RANDOM).unwrap();
    let expected = "\
        password_hash=sha512:85b1ee00695a5b254e14f4885538df0da4b73207f5aae4:\
        0a1f0172a542916bd86e0cbceebc1c38ed791f6be246120452825f0d74ef1078c79e\
        9812de8b0ab3dfaf598b6ca14522374ec6a8653a46df3f96a6b54ac1f0f8";
    assert_eq!(expected, res)
}

#[test]
fn unsupported_algorithm_is_refused() {
    assert_eq!(
        Err(AuthError::UnsupportedAlgorithm),
        Algo::from_handshake(&handshake("pbkdf2+sha256", "00"))
    );
}

#[test]
fn algorithm_choice_keeps_the_nonce() {
    assert_eq!(
        Algo::Sha { nonce: String::from("abcd"), size: ShaSize::Sha512 },
        Algo::from_handshake(&handshake("sha512", "abcd")).unwrap()
    );
}

#[test]
fn a_nonce_that_is_not_hex_is_refused() {
    let algo = Algo::Sha { nonce: String::from("xyz1"), size: ShaSize::Sha256 };
    assert_eq!(Err(AuthError::BadNonce), create_auth_with(&algo, "test", NOT_RANDOM));
    let odd = Algo::Sha { nonce: String::from("abc"), size: ShaSize::Sha256 };
    assert_eq!(Err(AuthError::BadNonce), create_auth_with(&odd, "test", NOT_RANDOM));
}

#[test]
fn uppercase_nonce_is_accepted_and_echoed() {
    let algo = Algo::Sha { nonce: String::from("85B1EE00"), size: ShaSize::Sha256 };
    let res = create_auth_with(&algo, "test", NOT_RANDOM).unwrap();
    assert!(res.starts_with("password_hash=sha256:85B1EE00a4b73207f5aae4:"));
}

#[test]
fn fresh_nonce_has_seven_bytes() {
    let algo = Algo::Sha { nonce: String::from("85b1ee00695a5b254e14f4885538df0d"), size: ShaSize::Sha256 };
    let res = create_auth(&algo, "test").unwrap();
    let parts: Vec<&str> = res.split(':').collect();
    assert_eq!(3, parts.len());
    assert_eq!("password_hash=sha256", parts[0]);
    assert_eq!(32 + 14, parts[1].len());
    assert!(parts[1].starts_with("85b1ee00695a5b254e14f4885538df0d"));
    assert_eq!(64, parts[2].len());
    assert!(parts[2].chars().all(|c| c.is_ascii_hexdigit() && !c.is_ascii_uppercase()));
}
