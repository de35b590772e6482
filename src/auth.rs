//! The password step of the connection preamble: choosing a hash algorithm
//! from the server's handshake and composing the `init` credentials.
use crate::messages::{Handshake, HandshakeView};
use crate::text::same_text;
use vstd::prelude::*;
use vstd::utf8::encode_utf8;

verus! {

/// The hash algorithms this client offers, colon-separated.
pub const SUPPORTED_HASHES: &'static str = "plain:sha256:sha512";

/// Why no credentials could be composed.
#[derive(Clone, Copy, Debug, PartialEq, Eq, Structural)]
pub enum AuthError {
    /// The server asks for an algorithm this client does not offer.
    UnsupportedAlgorithm,
    /// The server nonce is not hex.
    BadNonce,
    /// The hash or the random number generator failed.
    Crypto,
}

#[derive(Clone, Copy, Debug, PartialEq, Eq, Structural)]
pub enum ShaSize {
    Sha256,
    Sha512,
}

/// The password scheme the server asked for.
#[derive(Debug, PartialEq)]
pub enum Algo {
    Plain,
    Sha { nonce: String, size: ShaSize },
}

pub enum AlgoView {
    Plain,
    Sha { nonce: Seq<char>, size: ShaSize },
}

impl View for Algo {
    type V = AlgoView;

    open spec fn view(&self) -> AlgoView {
        match self {
            Algo::Plain => AlgoView::Plain,
            Algo::Sha { nonce, size } => AlgoView::Sha { nonce: nonce@, size: *size },
        }
    }
}

/// The scheme named by the handshake's `password_hash_algo`.
pub open spec fn algo_of(h: HandshakeView) -> Option<AlgoView> {
    if h.password_hash_algo == "plain"@ {
        Some(AlgoView::Plain)
    } else if h.password_hash_algo == "sha256"@ {
        Some(AlgoView::Sha { nonce: h.nonce, size: ShaSize::Sha256 })
    } else if h.password_hash_algo == "sha512"@ {
        Some(AlgoView::Sha { nonce: h.nonce, size: ShaSize::Sha512 })
    } else {
        None
    }
}

impl Algo {
    pub fn from_handshake(h: &Handshake) -> (r: Result<Algo, AuthError>)
        ensures
            match r {
                Ok(a) => algo_of(h@) == Some(a@),
                Err(e) => algo_of(h@) is None && e == AuthError::UnsupportedAlgorithm,
            },
    {
        let name = h.password_hash_algo.as_str();
        if same_text(name, "plain") {
            Ok(Algo::Plain)
        } else if same_text(name, "sha256") {
            Ok(Algo::Sha { nonce: h.nonce.clone(), size: ShaSize::Sha256 })
        } else if same_text(name, "sha512") {
            Ok(Algo::Sha { nonce: h.nonce.clone(), size: ShaSize::Sha512 })
        } else {
            Err(AuthError::UnsupportedAlgorithm)
        }
    }
}

// ----- outside functions -----

#[verifier::external_type_specification]
#[verifier::external_body]
pub struct ExErrorStack(openssl::error::ErrorStack);

#[verifier::external_type_specification]
#[verifier::external_body]
pub struct ExFromHexError(hex::FromHexError);

/// The SHA-256 digest of a byte string.
pub uninterp spec fn sha256_of(data: Seq<u8>) -> Seq<u8>;

/// The SHA-512 digest of a byte string.
pub uninterp spec fn sha512_of(data: Seq<u8>) -> Seq<u8>;

/// Relies on openssl::hash::hash with MessageDigest::sha256: on success it
/// returns the SHA-256 digest of `data`.
#[verifier::external_body]
fn sha256(data: &[u8]) -> (r: Result<Vec<u8>, openssl::error::ErrorStack>)
    ensures
        r matches Ok(d) ==> d@ == sha256_of(data@),
{
    openssl::hash::hash(openssl::hash::MessageDigest::sha256(), data).map(|d| d.to_vec())
}

/// Relies on openssl::hash::hash with MessageDigest::sha512: on success it
/// returns the SHA-512 digest of `data`.
#[verifier::external_body]
fn sha512(data: &[u8]) -> (r: Result<Vec<u8>, openssl::error::ErrorStack>)
    ensures
        r matches Ok(d) ==> d@ == sha512_of(data@),
{
    openssl::hash::hash(openssl::hash::MessageDigest::sha512(), data).map(|d| d.to_vec())
}

/// Relies on openssl::rand::rand_bytes: on success the buffer of `n` bytes is
/// filled from the secure generator (it asserts that `n` fits a C int).
#[verifier::external_body]
fn random_bytes(n: usize) -> (r: Result<Vec<u8>, openssl::error::ErrorStack>)
    requires
        n <= i32::MAX,
    ensures
        r matches Ok(b) ==> b@.len() == n,
{
    let mut buf = vec![0u8; n];
    openssl::rand::rand_bytes(&mut buf).map(|_| buf)
}

/// A lowercase hex digit.
pub open spec fn hex_digit(n: int) -> char {
    seq!['0', '1', '2', '3', '4', '5', '6', '7', '8', '9', 'a', 'b', 'c', 'd', 'e', 'f'][n]
}

/// Two lowercase hex digits per byte, high nibble first.
pub open spec fn hex_lower(b: Seq<u8>) -> Seq<char>
    decreases b.len(),
{
    if b.len() == 0 {
        Seq::empty()
    } else {
        hex_lower(b.drop_last()) + seq![
            hex_digit(b.last() as int / 16),
            hex_digit(b.last() as int % 16),
        ]
    }
}

/// The value of an ASCII hex digit of either case.
pub open spec fn hex_value(c: u8) -> Option<int> {
    if 48 <= c <= 57 {
        Some(c - 48)
    } else if 97 <= c <= 102 {
        Some(c - 87)
    } else if 65 <= c <= 70 {
        Some(c - 55)
    } else {
        None
    }
}

/// Whether `b` is an even number of hex digits.
pub open spec fn is_hex(b: Seq<u8>) -> bool {
    b.len() % 2 == 0 && forall|i: int| 0 <= i < b.len() ==> hex_value(#[trigger] b[i]) is Some
}

/// The bytes that a string of hex digits spells, one per pair.
pub open spec fn unhex(b: Seq<u8>) -> Seq<u8> {
    Seq::new(
        (b.len() / 2) as nat,
        |i: int| (hex_value(b[2 * i])->0 * 16 + hex_value(b[2 * i + 1])->0) as u8,
    )
}

/// Relies on hex::encode: two lowercase hex digits per byte, high nibble first.
#[verifier::external_body]
fn hex_encode(b: &[u8]) -> (r: String)
    ensures
        r@ == hex_lower(b@),
{
    hex::encode(b)
}

/// Relies on hex::decode: it accepts exactly the even-length strings of hex
/// digits of either case, and each pair gives one byte, high nibble first.
#[verifier::external_body]
fn hex_decode(s: &str) -> (r: Result<Vec<u8>, hex::FromHexError>)
    ensures
        r is Ok <==> is_hex(encode_utf8(s@)),
        r matches Ok(v) ==> v@ == unhex(encode_utf8(s@)),
{
    hex::decode(s)
}

// ----- composing credentials -----

pub open spec fn size_text(size: ShaSize) -> Seq<char> {
    match size {
        ShaSize::Sha256 => "256"@,
        ShaSize::Sha512 => "512"@,
    }
}

pub open spec fn digest_of(size: ShaSize, data: Seq<u8>) -> Seq<u8> {
    match size {
        ShaSize::Sha256 => sha256_of(data),
        ShaSize::Sha512 => sha512_of(data),
    }
}

/// What is hashed: the server nonce's bytes, the client nonce, the password.
pub open spec fn salted(nonce: Seq<char>, client_nonce: Seq<u8>, password: Seq<char>) -> Seq<u8> {
    unhex(encode_utf8(nonce)) + client_nonce + encode_utf8(password)
}

/// The credentials for `init`, given the client nonce; `None` if the server
/// nonce is not hex.
pub open spec fn auth_text(algo: AlgoView, password: Seq<char>, client_nonce: Seq<u8>) -> Option<
    Seq<char>,
> {
    match algo {
        AlgoView::Plain => Some("password="@ + password),
        AlgoView::Sha { nonce, size } => if is_hex(encode_utf8(nonce)) {
            Some(
                "password_hash=sha"@ + size_text(size) + ":"@ + nonce + hex_lower(client_nonce)
                    + ":"@ + hex_lower(digest_of(size, salted(nonce, client_nonce, password))),
            )
        } else {
            None
        },
    }
}

fn append_bytes(v: &mut Vec<u8>, b: &[u8])
    ensures
        final(v)@ == old(v)@ + b@,
{
    let mut i: usize = 0;
    while i < b.len()
        invariant
            i <= b.len(),
            v@ == old(v)@ + b@.subrange(0, i as int),
        decreases b.len() - i,
    {
        v.push(b[i]);
        i = i + 1;
        assert(v@ =~= old(v)@ + b@.subrange(0, i as int));
    }
    assert(b@.subrange(0, i as int) =~= b@);
}

/// Composes the `init` credentials with a given client nonce. A plain
/// password always succeeds; a hashed one fails with `BadNonce` exactly when
/// the server nonce is not hex, and otherwise only if the hash fails.
pub fn create_auth_with(algo: &Algo, password: &str, client_nonce: &[u8]) -> (r: Result<
    String,
    AuthError,
>)
    ensures
        match r {
            Ok(t) => auth_text(algo@, password@, client_nonce@) == Some(t@),
            Err(e) => (e == AuthError::BadNonce && auth_text(algo@, password@, client_nonce@) is None)
                || (e == AuthError::Crypto && algo is Sha && auth_text(
                algo@,
                password@,
                client_nonce@,
            ) is Some),
        },
        algo is Plain ==> r is Ok,
{
    match algo {
        Algo::Plain => {
            let mut t = String::from_str("password=");
            t.append(password);
            Ok(t)
        },
        Algo::Sha { nonce, size } => {
            let mut data = match hex_decode(nonce.as_str()) {
                Err(_) => {
                    return Err(AuthError::BadNonce);
                },
                Ok(v) => v,
            };
            append_bytes(&mut data, client_nonce);
            append_bytes(&mut data, password.as_bytes());
            let digest = match size {
                ShaSize::Sha256 => sha256(data.as_slice()),
                ShaSize::Sha512 => sha512(data.as_slice()),
            };
            let digest = match digest {
                Err(_) => {
                    return Err(AuthError::Crypto);
                },
                Ok(d) => d,
            };
            let mut t = String::from_str("password_hash=sha");
            match size {
                ShaSize::Sha256 => t.append("256"),
                ShaSize::Sha512 => t.append("512"),
            }
            t.append(":");
            t.append(nonce.as_str());
            let cn = hex_encode(client_nonce);
            t.append(cn.as_str());
            t.append(":");
            let dh = hex_encode(digest.as_slice());
            t.append(dh.as_str());
            Ok(t)
        },
    }
}

/// The length of the client nonce, in bytes.
pub const CLIENT_NONCE_LEN: usize = 7;

/// Composes the `init` credentials, drawing a fresh client nonce for a
/// hashed password. A plain password always succeeds.
pub fn create_auth(algo: &Algo, password: &str) -> (r: Result<String, AuthError>)
    ensures
        match r {
            Ok(t) => exists|cn: Seq<u8>|
                cn.len() == CLIENT_NONCE_LEN && #[trigger] auth_text(algo@, password@, cn) == Some(
                    t@,
                ),
            Err(e) => algo is Sha && (e == AuthError::BadNonce || e == AuthError::Crypto),
        },
        algo is Plain ==> r is Ok,
        r == Err::<String, AuthError>(AuthError::BadNonce) ==> (algo@ matches AlgoView::Sha {
            nonce,
            ..
        } && !is_hex(encode_utf8(nonce))),
{
    // The plain scheme reads no nonce; it gets a fixed one.
    let cn = match algo {
        Algo::Plain => vec![0u8, 0u8, 0u8, 0u8, 0u8, 0u8, 0u8],
        Algo::Sha { .. } => match random_bytes(CLIENT_NONCE_LEN) {
            Err(_) => {
                return Err(AuthError::Crypto);
            },
            Ok(b) => b,
        },
    };
    assert(cn@.len() == CLIENT_NONCE_LEN);
    let r = create_auth_with(algo, password, cn.as_slice());
    if let Ok(t) = &r {
        assert(auth_text(algo@, password@, cn@) == Some(t@));
    }
    r
}

} // verus!
