use base64::engine::general_purpose::STANDARD;
use base64::Engine;
use ed25519_dalek::{Signer, SigningKey, VerifyingKey};
use jadegate::crypto::{
    checked_key, checked_signature, content_hash, fingerprint_input, key_fingerprint,
    labelled_fingerprint, labelled_hash, parsed_key, verify_signature,
};

const PUBLIC_KEY: &str = "11qYAYKxCrfVS/7TyWQHOg7hcvPapiMlrwIaaPcHURo=";
const SIGNATURE_OF_NOTHING: &str =
    "5VZDAMNgrHKQhuLMgG6CioSHfx645dl02HPgZSJJAVVfuIIVkKM7rMYeOXAc+bRr0lv18FlbviRlUUFDjnoQCw==";
const SECOND_KEY: &str = "PUAXw+hDiVqStwqnTRt+vJyYLM8uxJaMwM1V8Sr0Zgw=";
const SECOND_SIGNATURE: &str =
    "kqAJqfDUyrhyDoILX2QlQKKye1QWUD+Ps3YiI+vbadoIWsHkPhWZbkWPNhPQ8R2MOHsurrQwKu6wDSkWErsMAA==";

#[test]
fn content_hash_of_known_inputs() {
    assert_eq!(
        content_hash(b""),
        "sha256:e3b0c44298fc1c149afbf4c8996fb92427ae41e4649b934ca495991b7852b855"
    );
    assert_eq!(
        content_hash(b"abc"),
        "sha256:ba7816bf8f01cfea414140de5dae2223b00361a396177a9cb410ff61f20015ad"
    );
}

#[test]
fn content_hash_is_the_same_for_the_same_bytes() {
    let content = b"{\"skill_id\":\"demo\"}";
    let first = content_hash(content);
    for _ in 0..10 {
        assert_eq!(content_hash(content), first);
    }
    assert_eq!(first.len(), 7 + 64);
    assert!(first.starts_with("sha256:"));
}

#[test]
fn content_hash_changes_with_one_byte() {
    let content = b"{\"skill_id\":\"demo\"}".to_vec();
    let hash = content_hash(&content);
    for at in 0..content.len() {
        let mut other = content.clone();
        other[at] ^= 1;
        assert_ne!(content_hash(&other), hash);
    }
}

#[test]
fn hash_label_is_lower_case_hexadecimal() {
    assert_eq!(labelled_hash(&[]), "sha256:");
    assert_eq!(labelled_hash(&[0, 1, 9, 10, 15, 16, 171, 255]), "sha256:0001090a0f10abff");
}

#[test]
fn fingerprint_of_known_keys() {
    assert_eq!(
        key_fingerprint("AAAAAAAAAAAAAAAAAAAAAAAAAAAAAAAAAAAAAAAAAAA="),
        Ok("SHA256:Zmh6rfhivXdsj8GLjp+OIAiXFIVu4jOzkCpZHQ1fKSU=".to_string())
    );
    assert_eq!(
        key_fingerprint(PUBLIC_KEY),
        Ok("SHA256:If4x36FUomFia/hUBG/SJxt77UtqvkWqWId+9H+XIbk=".to_string())
    );
}

#[test]
fn fingerprint_of_text_that_is_no_base64() {
    let why = STANDARD.decode("not base64!").unwrap_err();
    assert_eq!(key_fingerprint("not base64!"), Err(format!("Invalid base64: {}", why)));
    assert_eq!(
        fingerprint_input(Err("broken".to_string())),
        Err("Invalid base64: broken".to_string())
    );
    assert_eq!(fingerprint_input(Ok(vec![1, 2, 3])), Ok(vec![1, 2, 3]));
}

#[test]
fn signature_of_known_vectors_verifies() {
    assert_eq!(verify_signature(PUBLIC_KEY, b"", SIGNATURE_OF_NOTHING), Ok(true));
    assert_eq!(verify_signature(SECOND_KEY, &[0x72], SECOND_SIGNATURE), Ok(true));
}

#[test]
fn signature_over_other_content_or_key_does_not_verify() {
    assert_eq!(verify_signature(PUBLIC_KEY, b"x", SIGNATURE_OF_NOTHING), Ok(false));
    assert_eq!(verify_signature(SECOND_KEY, &[0x73], SECOND_SIGNATURE), Ok(false));
    assert_eq!(verify_signature(SECOND_KEY, b"", SIGNATURE_OF_NOTHING), Ok(false));
    assert_eq!(verify_signature(PUBLIC_KEY, &[0x72], SECOND_SIGNATURE), Ok(false));
}

#[test]
fn signature_made_here_verifies() {
    let signing = SigningKey::from_bytes(&[7u8; 32]);
    let content = b"canonical content";
    let key = STANDARD.encode(signing.verifying_key().to_bytes());
    let signature = STANDARD.encode(signing.sign(content).to_bytes());
    assert_eq!(verify_signature(&key, content, &signature), Ok(true));
    assert_eq!(verify_signature(&key, b"canonical contenT", &signature), Ok(false));
}

#[test]
fn key_that_is_no_base64_is_an_error() {
    let why = STANDARD.decode("***").unwrap_err();
    assert_eq!(
        verify_signature("***", b"", SIGNATURE_OF_NOTHING),
        Err(format!("Invalid public key base64: {}", why))
    );
}

#[test]
fn key_of_wrong_length_is_an_error() {
    let short = STANDARD.encode([0u8; 31]);
    let long = STANDARD.encode([0u8; 33]);
    assert_eq!(
        verify_signature(&short, b"", SIGNATURE_OF_NOTHING),
        Err("Public key must be 32 bytes".to_string())
    );
    assert_eq!(
        verify_signature(&long, b"", SIGNATURE_OF_NOTHING),
        Err("Public key must be 32 bytes".to_string())
    );
    assert_eq!(
        verify_signature("", b"", SIGNATURE_OF_NOTHING),
        Err("Public key must be 32 bytes".to_string())
    );
}

#[test]
fn key_that_is_no_curve_point_is_an_error() {
    let mut bytes = [0u8; 32];
    let mut found = false;
    for first in 0..=255u8 {
        bytes[0] = first;
        if VerifyingKey::from_bytes(&bytes).is_err() {
            found = true;
            break;
        }
    }
    assert!(found);
    let why = VerifyingKey::from_bytes(&bytes).unwrap_err();
    assert_eq!(
        verify_signature(&STANDARD.encode(bytes), b"", SIGNATURE_OF_NOTHING),
        Err(format!("Invalid public key: {}", why))
    );
    assert_eq!(checked_key(Ok(bytes.to_vec())), Ok(bytes.to_vec()));
}

#[test]
fn refused_key_carries_the_words_of_the_parser() {
    assert_eq!(
        parsed_key(vec![1; 32], Some("no point".to_string())),
        Err("Invalid public key: no point".to_string())
    );
    assert_eq!(parsed_key(vec![1; 32], None), Ok(vec![1; 32]));
}

#[test]
fn fingerprint_label_is_the_tag_and_the_text() {
    assert_eq!(labelled_fingerprint("abc="), "SHA256:abc=");
    assert_eq!(labelled_fingerprint(""), "SHA256:");
}

#[test]
fn signature_that_is_no_base64_is_an_error() {
    let why = STANDARD.decode("@@@@").unwrap_err();
    assert_eq!(
        verify_signature(PUBLIC_KEY, b"", "@@@@"),
        Err(format!("Invalid signature base64: {}", why))
    );
}

#[test]
fn signature_of_wrong_length_is_an_error() {
    let short = STANDARD.encode([0u8; 63]);
    assert_eq!(
        verify_signature(PUBLIC_KEY, b"", &short),
        Err("Signature must be 64 bytes".to_string())
    );
    assert_eq!(
        verify_signature(PUBLIC_KEY, b"", ""),
        Err("Signature must be 64 bytes".to_string())
    );
}

#[test]
fn key_is_judged_before_the_signature() {
    let short = STANDARD.encode([0u8; 31]);
    assert_eq!(
        verify_signature(&short, b"", "@@@@"),
        Err("Public key must be 32 bytes".to_string())
    );
}

#[test]
fn decoded_key_is_judged_by_its_length() {
    assert_eq!(
        checked_key(Err("bad".to_string())),
        Err("Invalid public key base64: bad".to_string())
    );
    assert_eq!(checked_key(Ok(vec![0; 31])), Err("Public key must be 32 bytes".to_string()));
    assert_eq!(checked_key(Ok(Vec::new())), Err("Public key must be 32 bytes".to_string()));
    let key = STANDARD.decode(PUBLIC_KEY).unwrap();
    assert_eq!(checked_key(Ok(key.clone())), Ok(key));
}

#[test]
fn decoded_signature_is_judged_by_its_length() {
    assert_eq!(
        checked_signature(Err("bad".to_string())),
        Err("Invalid signature base64: bad".to_string())
    );
    assert_eq!(
        checked_signature(Ok(vec![0; 65])),
        Err("Signature must be 64 bytes".to_string())
    );
    assert_eq!(checked_signature(Ok(vec![9; 64])), Ok(vec![9; 64]));
}
