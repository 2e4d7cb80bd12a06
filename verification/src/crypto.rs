//! Layer 5: signatures, content hashes and key fingerprints.
//!
//! The arithmetic is that of the `base64`, `ed25519-dalek`, `sha2` and
//! `hex` crates. What they return is named here; what this module decides
//! from it is stated over those names.

use base64::engine::general_purpose::STANDARD;
use base64::Engine;
use ed25519_dalek::{Signature, Verifier, VerifyingKey};
use sha2::{Digest, Sha256};
use vstd::prelude::*;
use vstd::string::StringExecFns;
use crate::schema::joined;
use crate::text::digit_char;

verus! {

/// The length of an Ed25519 public key, in bytes.
pub const KEY_LENGTH: usize = 32;

/// The length of an Ed25519 signature, in bytes.
pub const SIGNATURE_LENGTH: usize = 64;

/// What the `base64` crate's standard engine makes of `text`: the bytes
/// that it decodes to, or the decoder's words on why it refuses the text.
pub uninterp spec fn base64_decoded(text: Seq<char>) -> Result<Seq<u8>, Seq<char>>;

/// The text that the `base64` crate's standard engine writes for `bytes`.
pub uninterp spec fn base64_encoded(bytes: Seq<u8>) -> Seq<char>;

/// Why `ed25519-dalek` refuses `key` as a public key, in the words of its
/// error, or `None` if it accepts the bytes.
pub uninterp spec fn ed25519_key_rejection(key: Seq<u8>) -> Option<Seq<char>>;

/// Whether `ed25519-dalek` accepts `signature` as a signature of `content`
/// under the public key `key`.
pub uninterp spec fn ed25519_verifies(key: Seq<u8>, content: Seq<u8>, signature: Seq<u8>) -> bool;

/// The SHA-256 digest of `bytes`, as the `sha2` crate computes it.
pub uninterp spec fn sha256(bytes: Seq<u8>) -> Seq<u8>;

/// The lower-case hexadecimal digit for `n`, for `n` below sixteen.
pub open spec fn hex_digit(n: nat) -> char {
    if n < 10 {
        digit_char(n)
    } else {
        ((87 + n) as u8) as char
    }
}

/// The lower-case hexadecimal text for `bytes`: two digits for each byte,
/// the high half first.
pub open spec fn hex(bytes: Seq<u8>) -> Seq<char> {
    Seq::new(
        2 * bytes.len(),
        |i: int|
            if i % 2 == 0 {
                hex_digit((bytes[i / 2] / 16) as nat)
            } else {
                hex_digit((bytes[i / 2] % 16) as nat)
            },
    )
}

/// The outcome of a decoding, over characters and bytes.
pub open spec fn decoded_view(r: Result<Vec<u8>, String>) -> Result<Seq<u8>, Seq<char>> {
    match r {
        Ok(bytes) => Ok(bytes@),
        Err(why) => Err(why@),
    }
}

/// The characters of an optional text.
pub open spec fn optional_view(r: Option<String>) -> Option<Seq<char>> {
    match r {
        Some(text) => Some(text@),
        None => None,
    }
}

/// The outcome of a check, over characters.
pub open spec fn verdict_view(r: Result<bool, String>) -> Result<bool, Seq<char>> {
    match r {
        Ok(valid) => Ok(valid),
        Err(why) => Err(why@),
    }
}

/// The outcome of a rendering, over characters.
pub open spec fn text_view(r: Result<String, String>) -> Result<Seq<char>, Seq<char>> {
    match r {
        Ok(text) => Ok(text@),
        Err(why) => Err(why@),
    }
}

/// Calls `Engine::decode` of the `base64` crate on its `STANDARD` engine.
/// The decoder reads the text alone, so its outcome gets a name: the bytes,
/// or the text that the decoder's error displays. Nothing is claimed about
/// which texts decode, nor to what.
#[verifier::external_body]
fn decode_base64(text: &str) -> (r: Result<Vec<u8>, String>)
    ensures
        decoded_view(r) == base64_decoded(text@),
{
    match STANDARD.decode(text) {
        Ok(bytes) => Ok(bytes),
        Err(e) => Err(e.to_string()),
    }
}

/// Calls `Engine::encode` of the `base64` crate on its `STANDARD` engine,
/// which reads the bytes alone; the contract gives the text its name. The
/// encoder panics only where the length of the text would not fit the
/// machine, which a digest of thirty-two bytes rules out.
#[verifier::external_body]
fn encode_base64(bytes: &[u8]) -> (text: String)
    requires
        bytes@.len() == 32,
    ensures
        text@ == base64_encoded(bytes@),
{
    STANDARD.encode(bytes)
}

/// Calls `VerifyingKey::from_bytes` of `ed25519-dalek`, which reads the
/// bytes alone, and hands back what its error displays when it refuses
/// them. The contract gives that outcome its name.
#[verifier::external_body]
fn key_rejection(key: &[u8; 32]) -> (r: Option<String>)
    ensures
        optional_view(r) == ed25519_key_rejection(key@),
{
    match VerifyingKey::from_bytes(key) {
        Ok(_) => None,
        Err(e) => Some(e.to_string()),
    }
}

/// Calls `Verifier::verify` of `ed25519-dalek`. Its arguments are the key
/// and the signature that `VerifyingKey::from_bytes` and
/// `Signature::from_bytes` make of the bytes. Whether it accepts depends on
/// the three byte strings alone and gets a name; under bytes that are no
/// key nothing is accepted.
#[verifier::external_body]
fn signature_verifies(key: &[u8; 32], content: &[u8], signature: &[u8; 64]) -> (valid: bool)
    ensures
        valid == ed25519_verifies(key@, content@, signature@),
{
    match VerifyingKey::from_bytes(key) {
        Ok(k) => k.verify(content, &Signature::from_bytes(signature)).is_ok(),
        Err(_) => false,
    }
}

/// Feeds the bytes to a `Sha256` hasher of the `sha2` crate and takes its
/// digest, which depends on the bytes alone and is thirty-two bytes long.
/// The contract gives the digest its name and states its length.
#[verifier::external_body]
fn sha256_digest(bytes: &[u8]) -> (digest: Vec<u8>)
    ensures
        digest@ == sha256(bytes@),
        digest@.len() == 32,
{
    let mut hasher = Sha256::new();
    hasher.update(bytes);
    hasher.finalize().to_vec()
}

/// Calls `hex::encode`, which writes each byte as two lower-case
/// hexadecimal digits, the high half first.
#[verifier::external_body]
fn hex_encode(bytes: &[u8]) -> (text: String)
    ensures
        text@ == hex(bytes@),
{
    hex::encode(bytes)
}

/// The bytes of a decoded public key, if the text decoded, to exactly
/// thirty-two bytes; else the error for what went wrong.
pub open spec fn key_bytes_outcome(decoded: Result<Seq<u8>, Seq<char>>) -> Result<
    Seq<u8>,
    Seq<char>,
> {
    match decoded {
        Err(why) => Err("Invalid public key base64: "@ + why),
        Ok(bytes) => if bytes.len() != KEY_LENGTH {
            Err("Public key must be 32 bytes"@)
        } else {
            Ok(bytes)
        },
    }
}

/// The key, unless the key parser refused its bytes.
pub open spec fn key_parse_outcome(bytes: Seq<u8>, rejection: Option<Seq<char>>) -> Result<
    Seq<u8>,
    Seq<char>,
> {
    match rejection {
        Some(why) => Err("Invalid public key: "@ + why),
        None => Ok(bytes),
    }
}

/// The validity of a decoded public key: the key's bytes if the text
/// decoded to thirty-two bytes that are a key, else the error for what
/// went wrong first.
pub open spec fn key_outcome(decoded: Result<Seq<u8>, Seq<char>>) -> Result<Seq<u8>, Seq<char>> {
    match key_bytes_outcome(decoded) {
        Err(why) => Err(why),
        Ok(bytes) => key_parse_outcome(bytes, ed25519_key_rejection(bytes)),
    }
}

/// The validity of a decoded signature: its bytes if the text decoded to
/// sixty-four bytes, else the error for what went wrong.
pub open spec fn signature_outcome(decoded: Result<Seq<u8>, Seq<char>>) -> Result<
    Seq<u8>,
    Seq<char>,
> {
    match decoded {
        Err(why) => Err("Invalid signature base64: "@ + why),
        Ok(bytes) => if bytes.len() != SIGNATURE_LENGTH {
            Err("Signature must be 64 bytes"@)
        } else {
            Ok(bytes)
        },
    }
}

/// The outcome of checking a signature: whether it verifies, or the error
/// for the first of the key and the signature that is malformed.
pub open spec fn verification(key: Seq<char>, content: Seq<u8>, signature: Seq<char>) -> Result<
    bool,
    Seq<char>,
> {
    match key_outcome(base64_decoded(key)) {
        Err(why) => Err(why),
        Ok(key_bytes) => match signature_outcome(base64_decoded(signature)) {
            Err(why) => Err(why),
            Ok(signature_bytes) => Ok(ed25519_verifies(key_bytes, content, signature_bytes)),
        },
    }
}

/// The content hash for a digest.
pub open spec fn hash_label(digest: Seq<u8>) -> Seq<char> {
    "sha256:"@ + hex(digest)
}

/// The bytes to fingerprint, if the text decoded; else the error.
pub open spec fn fingerprint_bytes(decoded: Result<Seq<u8>, Seq<char>>) -> Result<
    Seq<u8>,
    Seq<char>,
> {
    match decoded {
        Err(why) => Err("Invalid base64: "@ + why),
        Ok(bytes) => Ok(bytes),
    }
}

/// The fingerprint for the base64 text of a digest.
pub open spec fn fingerprint_label(encoded: Seq<char>) -> Seq<char> {
    "SHA256:"@ + encoded
}

/// The fingerprint of the key that `text` encodes, or the error if `text`
/// is no base64.
pub open spec fn fingerprint(text: Seq<char>) -> Result<Seq<char>, Seq<char>> {
    match fingerprint_bytes(base64_decoded(text)) {
        Err(why) => Err(why),
        Ok(bytes) => Ok(fingerprint_label(base64_encoded(sha256(bytes)))),
    }
}

/// Two values below sixteen with the same hexadecimal digit are the same.
proof fn lemma_hex_digit(a: nat, b: nat)
    requires
        a < 16,
        b < 16,
        hex_digit(a) == hex_digit(b),
    ensures
        a == b,
{
    let x: int = if a < 10 { 48 + a as int } else { 87 + a as int };
    let y: int = if b < 10 { 48 + b as int } else { 87 + b as int };
    assert(hex_digit(a) == (x as u8) as char);
    assert(hex_digit(b) == (y as u8) as char);
    assert(((x as u8) as char) as int == x);
    assert(((y as u8) as char) as int == y);
}

/// Content hashes are the same only for the same digest: the label shows
/// every bit of the digest.
pub proof fn lemma_hash_label(a: Seq<u8>, b: Seq<u8>)
    ensures
        hash_label(a) == hash_label(b) <==> a == b,
{
    if hash_label(a) == hash_label(b) {
        let tag = "sha256:"@;
        assert(hex(a) =~= hash_label(a).subrange(tag.len() as int, hash_label(a).len() as int));
        assert(hex(b) =~= hash_label(b).subrange(tag.len() as int, hash_label(b).len() as int));
        assert(a.len() == b.len()) by {
            assert(hex(a).len() == 2 * a.len());
            assert(hex(b).len() == 2 * b.len());
        }
        assert forall|i: int| 0 <= i < a.len() implies a[i] == b[i] by {
            assert(hex(a)[2 * i] == hex(b)[2 * i]);
            assert(hex(a)[2 * i + 1] == hex(b)[2 * i + 1]);
            assert((2 * i) / 2 == i && (2 * i + 1) / 2 == i);
            assert((2 * i) % 2 == 0 && (2 * i + 1) % 2 == 1);
            lemma_hex_digit((a[i] / 16) as nat, (b[i] / 16) as nat);
            lemma_hex_digit((a[i] % 16) as nat, (b[i] % 16) as nat);
        }
        assert(a =~= b);
    }
}

/// The content hash depends on the content alone: the same bytes always
/// have the same hash, and two contents have the same hash exactly when
/// they have the same SHA-256 digest.
pub proof fn lemma_content_hash(a: Seq<u8>, b: Seq<u8>)
    ensures
        a == b ==> hash_label(sha256(a)) == hash_label(sha256(b)),
        hash_label(sha256(a)) == hash_label(sha256(b)) <==> sha256(a) == sha256(b),
{
    lemma_hash_label(sha256(a), sha256(b));
}

/// The thirty-two bytes as an array.
fn key_array(bytes: &Vec<u8>) -> (out: [u8; 32])
    requires
        bytes@.len() == 32,
    ensures
        out@ == bytes@,
{
    let mut out = [0u8; 32];
    let mut i: usize = 0;
    while i < 32
        invariant
            i <= 32,
            bytes@.len() == 32,
            forall|j: int| 0 <= j < i ==> out@[j] == bytes@[j],
        decreases 32 - i,
    {
        out[i] = bytes[i];
        i += 1;
    }
    proof {
        assert(out@ =~= bytes@);
    }
    out
}

/// The sixty-four bytes as an array.
fn signature_array(bytes: &Vec<u8>) -> (out: [u8; 64])
    requires
        bytes@.len() == 64,
    ensures
        out@ == bytes@,
{
    let mut out = [0u8; 64];
    let mut i: usize = 0;
    while i < 64
        invariant
            i <= 64,
            bytes@.len() == 64,
            forall|j: int| 0 <= j < i ==> out@[j] == bytes@[j],
        decreases 64 - i,
    {
        out[i] = bytes[i];
        i += 1;
    }
    proof {
        assert(out@ =~= bytes@);
    }
    out
}

/// Decides on a decoded public key: the text must have decoded, to exactly
/// thirty-two bytes. Each failure has an error of its own.
pub fn checked_key(decoded: Result<Vec<u8>, String>) -> (r: Result<Vec<u8>, String>)
    ensures
        decoded_view(r) == key_bytes_outcome(decoded_view(decoded)),
{
    match decoded {
        Err(why) => Err(joined("Invalid public key base64: ", why.as_str())),
        Ok(bytes) => {
            if bytes.len() != KEY_LENGTH {
                return Err(String::from_str("Public key must be 32 bytes"));
            }
            Ok(bytes)
        },
    }
}

/// Decides on the bytes of a public key, given what the key parser said of
/// them: bytes that it refused are an error that carries its words.
pub fn parsed_key(bytes: Vec<u8>, rejection: Option<String>) -> (r: Result<Vec<u8>, String>)
    ensures
        decoded_view(r) == key_parse_outcome(bytes@, optional_view(rejection)),
{
    match rejection {
        Some(why) => Err(joined("Invalid public key: ", why.as_str())),
        None => Ok(bytes),
    }
}

/// Decides on a decoded signature: the text must have decoded, to exactly
/// sixty-four bytes. Each failure has an error of its own.
pub fn checked_signature(decoded: Result<Vec<u8>, String>) -> (r: Result<Vec<u8>, String>)
    ensures
        decoded_view(r) == signature_outcome(decoded_view(decoded)),
{
    match decoded {
        Err(why) => Err(joined("Invalid signature base64: ", why.as_str())),
        Ok(bytes) => {
            if bytes.len() != SIGNATURE_LENGTH {
                return Err(String::from_str("Signature must be 64 bytes"));
            }
            Ok(bytes)
        },
    }
}

/// Verifies an Ed25519 signature over `content`. The public key and the
/// signature come as base64 text and must decode to thirty-two and to
/// sixty-four bytes. A text that does not decode, a wrong length and bytes
/// that are no key are errors, each of its own; they are not folded into a
/// failed verification.
pub fn verify_signature(public_key_b64: &str, content: &[u8], signature_b64: &str) -> (r: Result<
    bool,
    String,
>)
    ensures
        verdict_view(r) == verification(public_key_b64@, content@, signature_b64@),
{
    let key_bytes = match checked_key(decode_base64(public_key_b64)) {
        Ok(bytes) => bytes,
        Err(why) => {
            return Err(why);
        },
    };
    let key = key_array(&key_bytes);
    let key_bytes = match parsed_key(key_bytes, key_rejection(&key)) {
        Ok(bytes) => bytes,
        Err(why) => {
            return Err(why);
        },
    };
    let signature_bytes = match checked_signature(decode_base64(signature_b64)) {
        Ok(bytes) => bytes,
        Err(why) => {
            return Err(why);
        },
    };
    let signature = signature_array(&signature_bytes);
    Ok(signature_verifies(&key, content, &signature))
}

/// The content hash for a digest: `sha256:` and the digest in lower-case
/// hexadecimal.
pub fn labelled_hash(digest: &[u8]) -> (out: String)
    ensures
        out@ == hash_label(digest@),
{
    let mut out = String::from_str("sha256:");
    out.append(hex_encode(digest).as_str());
    out
}

/// The content hash of `content`: `sha256:` and its SHA-256 digest in
/// lower-case hexadecimal.
pub fn content_hash(content: &[u8]) -> (out: String)
    ensures
        out@ == hash_label(sha256(content@)),
{
    let digest = sha256_digest(content);
    labelled_hash(digest.as_slice())
}

/// Decides on the key to fingerprint: the bytes if the text decoded, else
/// the error.
pub fn fingerprint_input(decoded: Result<Vec<u8>, String>) -> (r: Result<Vec<u8>, String>)
    ensures
        decoded_view(r) == fingerprint_bytes(decoded_view(decoded)),
{
    match decoded {
        Ok(bytes) => Ok(bytes),
        Err(why) => Err(joined("Invalid base64: ", why.as_str())),
    }
}

/// The fingerprint for the base64 text of a digest: `SHA256:` and the
/// text.
pub fn labelled_fingerprint(encoded: &str) -> (out: String)
    ensures
        out@ == fingerprint_label(encoded@),
{
    joined("SHA256:", encoded)
}

/// The fingerprint of a public key given as base64 text: `SHA256:` and the
/// base64 text of the SHA-256 digest of the decoded key. A text that does
/// not decode is an error.
pub fn key_fingerprint(public_key_b64: &str) -> (r: Result<String, String>)
    ensures
        text_view(r) == fingerprint(public_key_b64@),
{
    let bytes = match fingerprint_input(decode_base64(public_key_b64)) {
        Ok(bytes) => bytes,
        Err(why) => {
            return Err(why);
        },
    };
    let digest = sha256_digest(bytes.as_slice());
    Ok(labelled_fingerprint(encode_base64(digest.as_slice()).as_str()))
}

} // verus!
