use aegisr::{AegCrypto, AegFileSystem, CryptoError};
use base64::Engine as _;

fn test_key() -> Vec<u8> {
    (0u8..32).collect()
}

#[test]
fn encode_base64_known_value() {
    assert_eq!(AegCrypto::encode_base64(b"hello"), "aGVsbG8=");
    assert_eq!(AegCrypto::encode_base64(b""), "");
}

#[test]
fn derived_key_is_base64_of_blake3() {
    let material = [42u8; 32];
    let k = AegCrypto::derive_authorization_key(&material);
    let expected =
        base64::engine::general_purpose::STANDARD.encode(blake3::hash(&material).as_bytes());
    assert_eq!(k, expected);
    assert_eq!(AegCrypto::decode_authorization_key(&k).unwrap().len(), 32);
    assert_eq!(AegCrypto::derive_authorization_key(&material), k);
}

#[test]
fn created_keys_decode_to_32_bytes_and_differ() {
    let a = AegCrypto::create_authorization_key().expect("random source");
    let b = AegCrypto::create_authorization_key().expect("random source");
    assert_eq!(AegCrypto::decode_authorization_key(&a).unwrap().len(), 32);
    assert_ne!(a, b);
    let r = AegCrypto::generate_random_bytes().expect("random source");
    assert_eq!(r.len(), 32);
}

#[test]
fn decode_key_errors() {
    assert_eq!(
        AegCrypto::decode_authorization_key("not base64!"),
        Err(CryptoError::InvalidEncoding)
    );
    let short = base64::engine::general_purpose::STANDARD.encode([1u8; 16]);
    assert_eq!(AegCrypto::decode_authorization_key(&short), Err(CryptoError::InvalidKeyLength));
}

#[test]
fn encryption_is_deterministic_under_one_key() {
    let key = test_key();
    let a = AegCrypto::encrypt(b"same text", &key).unwrap();
    let b = AegCrypto::encrypt(b"same text", &key).unwrap();
    assert_eq!(a, b);
    let c = AegCrypto::encrypt(b"other text", &key).unwrap();
    assert_ne!(a, c);
    assert_ne!(a, AegCrypto::encode_base64(b"same text"));
}

#[test]
fn encrypt_decrypt_round_trip() {
    let key = test_key();
    let t = AegCrypto::encrypt(b"payload", &key).unwrap();
    assert_eq!(AegCrypto::decrypt(&t, &key).unwrap(), b"payload".to_vec());
    let e = AegCrypto::encrypt(b"", &key).unwrap();
    assert_eq!(AegCrypto::decrypt(&e, &key).unwrap(), Vec::<u8>::new());
}

#[test]
fn decrypt_rejects_tampering_and_wrong_key() {
    let key = test_key();
    let t = AegCrypto::encrypt(b"payload", &key).unwrap();
    let mut raw = base64::engine::general_purpose::STANDARD.decode(&t).unwrap();
    raw[0] ^= 1;
    let tampered = base64::engine::general_purpose::STANDARD.encode(&raw);
    assert_eq!(AegCrypto::decrypt(&tampered, &key), Err(CryptoError::AuthenticationFailed));
    let other: Vec<u8> = (1u8..33).collect();
    assert_eq!(AegCrypto::decrypt(&t, &other), Err(CryptoError::AuthenticationFailed));
    assert_eq!(AegCrypto::decrypt("%%%", &key), Err(CryptoError::InvalidEncoding));
}

#[test]
fn document_round_trip() {
    let key_text = AegCrypto::derive_authorization_key(&[3u8; 32]);
    let doc = "{\"active\":\"default\",\"collections\":[\"default\"]} é";
    let sealed = AegFileSystem::seal_document(doc, &key_text).unwrap();
    assert_ne!(sealed, doc);
    assert_eq!(AegFileSystem::open_document(&sealed, &key_text).unwrap(), doc);
    assert_eq!(AegFileSystem::seal_document(doc, &key_text).unwrap(), sealed);
}

#[test]
fn document_errors() {
    let key_text = AegCrypto::derive_authorization_key(&[3u8; 32]);
    assert_eq!(AegFileSystem::seal_document("x", "***"), Err(CryptoError::InvalidEncoding));
    let short = base64::engine::general_purpose::STANDARD.encode([1u8; 8]);
    assert_eq!(AegFileSystem::seal_document("x", &short), Err(CryptoError::InvalidKeyLength));
    assert_eq!(AegFileSystem::open_document("x", &short), Err(CryptoError::InvalidKeyLength));
    assert_eq!(AegFileSystem::open_document("###", &key_text), Err(CryptoError::InvalidEncoding));
    let key = AegCrypto::decode_authorization_key(&key_text).unwrap();
    let not_utf8 = AegCrypto::encrypt(&[0xff, 0xfe], &key).unwrap();
    assert_eq!(AegFileSystem::open_document(&not_utf8, &key_text), Err(CryptoError::InvalidUtf8));
    let other = AegCrypto::derive_authorization_key(&[4u8; 32]);
    let sealed = AegFileSystem::seal_document("x", &key_text).unwrap();
    assert_eq!(AegFileSystem::open_document(&sealed, &other), Err(CryptoError::AuthenticationFailed));
}

#[test]
fn engine_file_name_format() {
    assert_eq!(AegFileSystem::engine_file_name("work"), "collection_work.aekv");
    assert_eq!(AegFileSystem::engine_file_name(""), "collection_.aekv");
}

#[test]
fn lock_text_blank_gives_default() {
    let r = AegFileSystem::read_collection_lock_obj("  \n", None);
    assert_eq!(r.lock.active, "default");
    assert_eq!(r.lock.collections, vec!["default".to_string()]);
    assert!(!r.migrated);
    let d = AegFileSystem::default_lock();
    assert_eq!(d.active, "default");
}

#[test]
fn lock_text_parsed_is_kept() {
    let parsed = aegisr::CollectionLock {
        active: "b".to_string(),
        collections: vec!["a".to_string(), "b".to_string()],
    };
    let r = AegFileSystem::read_collection_lock_obj("{...}", Some(parsed));
    assert_eq!(r.lock.active, "b");
    assert_eq!(r.lock.collections, vec!["a".to_string(), "b".to_string()]);
    assert!(!r.migrated);
}

#[test]
fn legacy_lock_text_is_migrated() {
    let r = AegFileSystem::read_collection_lock_obj("  \"legacy\"\n", None);
    assert_eq!(r.lock.active, "legacy");
    assert_eq!(r.lock.collections, vec!["legacy".to_string()]);
    assert!(r.migrated);
    let bare = AegFileSystem::read_collection_lock_obj("plain", None);
    assert_eq!(bare.lock.active, "plain");
}

#[test]
fn strip_quotes_cases() {
    assert_eq!(AegFileSystem::strip_quotes("\"\"a\"b\"\""), "a\"b");
    assert_eq!(AegFileSystem::strip_quotes("\"\"\""), "");
    assert_eq!(AegFileSystem::strip_quotes("x"), "x");
    assert_eq!(AegFileSystem::strip_quotes(""), "");
}

#[test]
fn trim_whitespace_matches_str_trim() {
    for s in ["  a b \t\n", "\u{3000}\u{85}x\u{2028}", "   ", "", "\u{200b}y\u{200b}", "\u{a0}\"q\"\u{1680}"] {
        assert_eq!(AegFileSystem::trim_whitespace(s), s.trim());
    }
}

#[test]
fn initialization_plan_cases() {
    let fresh = AegFileSystem::initialization_plan(false, false, false, false);
    assert!(!fresh.remove_dir && fresh.generate_key && fresh.write_default_lock);
    let keep = AegFileSystem::initialization_plan(false, true, true, true);
    assert!(!keep.remove_dir && !keep.generate_key && !keep.write_default_lock);
    let reset = AegFileSystem::initialization_plan(true, true, true, true);
    assert!(reset.remove_dir && reset.generate_key && reset.write_default_lock);
    let lockless = AegFileSystem::initialization_plan(false, true, true, false);
    assert!(!lockless.generate_key && lockless.write_default_lock);
    assert!(AegFileSystem::needs_initialization(true, false, true));
    assert!(!AegFileSystem::needs_initialization(true, true, true));
}
