use carry_talk::secret_codec::{
    classify_legacy_secret, decode_secret_key, decrypt_secret, encrypt_secret, encrypt_with_nonce, new_secret_key,
    normalize_secret_value, split_fields, LegacySecret, SecretError, SecretErrorKind,
};
use carry_talk::secret_store::{
    next_secret_lookup, SecretLookup, SecretSource, SecretStore, SecretsDocument, SECRETS_DOC_VERSION,
};

const ZERO_KEY_TEXT: &str = "AAAAAAAAAAAAAAAAAAAAAAAAAAAAAAAAAAAAAAAAAAA=";

fn kind(r: Result<String, SecretError>) -> SecretErrorKind {
    r.err().unwrap().kind
}

#[test]
fn values_are_trimmed_and_blank_is_absent() {
    assert_eq!(normalize_secret_value("  sk-123 \n"), Some("sk-123".to_string()));
    assert_eq!(normalize_secret_value(" \t "), None);
}

#[test]
fn split_fields_matches_str_split() {
    assert_eq!(split_fields("enc:v1:a:b", ':'), vec!["enc", "v1", "a", "b"]);
    assert_eq!(split_fields("", ':'), vec![""]);
    assert_eq!(split_fields("a::", ':'), vec!["a", "", ""]);
}

#[test]
fn local_key_text_decodes_to_32_bytes() {
    let key = decode_secret_key(&format!("  {ZERO_KEY_TEXT}\n"), "/k").unwrap();
    assert_eq!(key, vec![0u8; 32]);
    let short = decode_secret_key("AAAA", "/k").err().unwrap();
    assert_eq!(short.kind, SecretErrorKind::KeyLength);
    assert_eq!(short.message(), "Local secret key /k has invalid length");
    let bad = decode_secret_key("!!!!", "/k").err().unwrap();
    assert_eq!(bad.kind, SecretErrorKind::KeyEncoding);
    assert!(bad.message().starts_with("Cannot decode local secret key /k: "));
}

#[test]
fn fresh_keys_read_back() {
    let (key, text) = new_secret_key();
    assert_eq!(key.len(), 32);
    assert_eq!(text.len(), 44);
    assert_eq!(decode_secret_key(&text, "/k").unwrap(), key);
}

#[test]
fn sealed_payload_has_the_stored_shape() {
    let key = vec![7u8; 32];
    let payload = encrypt_with_nonce(&key, &[0u8; 12], "secret").unwrap();
    assert!(payload.starts_with("enc:v1:AAAAAAAAAAAAAAAA:"));
    let ct = payload.rsplit(':').next().unwrap();
    assert_eq!(ct.len(), 32);
    assert!(ct.ends_with("=="));
}

#[test]
fn encrypted_secrets_decrypt_to_the_normalised_value() {
    let key = vec![1u8; 32];
    let payload = encrypt_secret(&key, "  sk-live-value  ").unwrap();
    assert_eq!(decrypt_secret(&key, &payload).unwrap(), "sk-live-value");
    assert_eq!(decrypt_secret(&key, &format!("  {payload}\n")).unwrap(), "sk-live-value");
    let blank = encrypt_secret(&key, "   ").unwrap();
    assert_eq!(kind(decrypt_secret(&key, &blank)), SecretErrorKind::NotConfigured);
    let other_key = vec![2u8; 32];
    assert_eq!(kind(decrypt_secret(&other_key, &payload)), SecretErrorKind::Decrypt);
}

#[test]
fn malformed_payloads_are_refused_step_by_step() {
    let key = vec![1u8; 32];
    assert_eq!(kind(decrypt_secret(&key, "enc:v2:a:b")), SecretErrorKind::InvalidPayload);
    assert_eq!(kind(decrypt_secret(&key, "plain")), SecretErrorKind::InvalidPayload);
    assert_eq!(kind(decrypt_secret(&key, "enc:v1:a:b:c")), SecretErrorKind::InvalidPayload);
    assert_eq!(kind(decrypt_secret(&key, "enc:v1")), SecretErrorKind::MissingNonce);
    assert_eq!(kind(decrypt_secret(&key, "enc:v1:@@")), SecretErrorKind::NonceEncoding);
    assert_eq!(kind(decrypt_secret(&key, "enc:v1:AAAA")), SecretErrorKind::NonceLength);
    assert_eq!(kind(decrypt_secret(&key, "enc:v1:AAAAAAAAAAAAAAAA")), SecretErrorKind::MissingCiphertext);
    assert_eq!(kind(decrypt_secret(&key, "enc:v1:AAAAAAAAAAAAAAAA:%%")), SecretErrorKind::CiphertextEncoding);
    assert_eq!(kind(decrypt_secret(&key, "enc:v1:AAAAAAAAAAAAAAAA:AAAA")), SecretErrorKind::Decrypt);
}

#[test]
fn error_messages() {
    let e = SecretError { kind: SecretErrorKind::InvalidPayload, detail: String::new() };
    assert_eq!(e.message(), "Invalid encrypted secret payload");
    let e = SecretError { kind: SecretErrorKind::Decrypt, detail: "aead::Error".to_string() };
    assert_eq!(e.message(), "Cannot decrypt secret: aead::Error");
    let e = SecretError { kind: SecretErrorKind::NotConfigured, detail: String::new() };
    assert!(e.is_auth());
    assert_eq!(e.message(), "Secret not configured");
}

#[test]
fn legacy_secrets_are_classified() {
    assert!(matches!(classify_legacy_secret("   ", false), LegacySecret::Absent));
    assert!(matches!(classify_legacy_secret("{\"version\":2}", true), LegacySecret::Absent));
    match classify_legacy_secret("  enc:v1:x:y \n", false) {
        LegacySecret::Encrypted(s) => assert_eq!(s, "enc:v1:x:y"),
        _ => panic!("expected encrypted"),
    }
    match classify_legacy_secret(" sk-old ", false) {
        LegacySecret::Plain(s) => assert_eq!(s, "sk-old"),
        _ => panic!("expected plain"),
    }
}

#[test]
fn store_knows_the_api_key_id() {
    let store = SecretStore::new();
    assert_eq!(store.api_key_secret_id(), "provider.soniox.api_key");
}

fn zero_key() -> Vec<u8> {
    decode_secret_key(ZERO_KEY_TEXT, "/k").unwrap()
}

#[test]
fn document_insert_get_remove() {
    let mut doc = SecretsDocument::new();
    assert!(doc.is_empty());
    assert_eq!(doc.version(), 2);
    doc.insert("a".to_string(), "1".to_string());
    doc.insert("b".to_string(), "2".to_string());
    doc.insert("a".to_string(), "3".to_string());
    assert_eq!(doc.get("a"), Some("3".to_string()));
    assert_eq!(doc.get("b"), Some("2".to_string()));
    assert_eq!(doc.get("c"), None);
    assert_eq!(doc.entries().len(), 2);
    doc.remove("a");
    assert_eq!(doc.get("a"), None);
    doc.remove("zz");
    assert_eq!(doc.get("b"), Some("2".to_string()));
    doc.remove("b");
    assert!(doc.is_empty());
}

#[test]
fn document_from_parts_later_pair_wins() {
    let doc = SecretsDocument::from_parts(
        1,
        vec![("x".to_string(), "old".to_string()), ("y".to_string(), "v".to_string()), ("x".to_string(), "new".to_string())],
    );
    assert_eq!(doc.version(), 1);
    assert_eq!(doc.get("x"), Some("new".to_string()));
    let mut entries = doc.entries();
    entries.sort();
    assert_eq!(entries, vec![("x".to_string(), "new".to_string()), ("y".to_string(), "v".to_string())]);
}

#[test]
fn upserted_secret_reads_back_trimmed() {
    let store = SecretStore::new();
    let key = zero_key();
    let mut doc = SecretsDocument::from_parts(1, vec![("other".to_string(), "enc:v1:x".to_string())]);
    store.upsert_secret(&mut doc, &key, "provider.soniox.api_key", "  sk-abc \n").unwrap();
    assert_eq!(doc.version(), SECRETS_DOC_VERSION);
    assert!(doc.get("provider.soniox.api_key").unwrap().starts_with("enc:v1:"));
    assert_eq!(store.get_secret(&doc, &key, "provider.soniox.api_key").unwrap().unwrap(), "sk-abc");
    assert_eq!(store.runtime_api_key(&doc, &key).unwrap().unwrap(), "sk-abc");
    assert_eq!(doc.get("other"), Some("enc:v1:x".to_string()));
    assert!(store.get_secret(&doc, &key, "missing").is_none());
    assert_eq!(
        store.get_secret(&doc, &key, "other").unwrap().unwrap_err().kind,
        SecretErrorKind::NonceEncoding
    );
}

#[test]
fn blank_secret_is_refused_and_document_kept() {
    let store = SecretStore::new();
    let key = zero_key();
    let mut doc = SecretsDocument::new();
    let err = store.upsert_secret(&mut doc, &key, "id", "   ").unwrap_err();
    assert_eq!(err.kind, SecretErrorKind::Missing);
    assert_eq!(err.message(), "API key not configured");
    assert!(err.is_auth());
    assert!(doc.is_empty());
}

#[test]
fn api_key_upsert_and_clear() {
    let mut store = SecretStore::new();
    let key = zero_key();
    let mut doc = SecretsDocument::from_parts(1, vec![]);
    store.upsert_api_key(&mut doc, &key, "sk-1").unwrap();
    store.upsert_secret(&mut doc, &key, "other", "v").unwrap();
    let cleared = store.clear_api_key(&mut doc);
    assert!(!cleared.remove_secrets_file);
    assert!(cleared.remove_legacy_key_file);
    assert!(store.runtime_api_key(&doc, &key).is_none());
    assert_eq!(store.get_secret(&doc, &key, "other").unwrap().unwrap(), "v");
    let cleared = store.clear_secret(&mut doc, "other");
    assert!(cleared.remove_secrets_file);
    assert!(!cleared.remove_legacy_key_file);
    assert!(doc.is_empty());
}

#[test]
fn secret_lookup_falls_back_in_order() {
    assert_eq!(next_secret_lookup(&[]), SecretLookup::Look(SecretSource::Document));
    assert_eq!(next_secret_lookup(&[Some("a".to_string())]), SecretLookup::Use("a".to_string()));
    assert_eq!(next_secret_lookup(&[None]), SecretLookup::Look(SecretSource::LegacySecretsFile));
    assert_eq!(next_secret_lookup(&[None, Some("b".to_string())]), SecretLookup::Migrate("b".to_string()));
    assert_eq!(next_secret_lookup(&[None, None]), SecretLookup::Look(SecretSource::LegacyKeyFile));
    assert_eq!(next_secret_lookup(&[None, None, Some("c".to_string())]), SecretLookup::Migrate("c".to_string()));
    assert_eq!(next_secret_lookup(&[None, None, None]), SecretLookup::NotConfigured);
}

#[test]
fn stored_entry_is_an_encrypted_payload() {
    let mut store = SecretStore::new();
    let key = zero_key();
    let mut doc = SecretsDocument::new();
    store.upsert_api_key(&mut doc, &key, " secret-value ").unwrap();
    let entry = doc.get(&store.api_key_secret_id()).unwrap();
    assert!(entry.starts_with("enc:v1:"));
    assert!(!entry.contains("secret-value"));
    assert_eq!(store.runtime_api_key(&doc, &key).unwrap().unwrap(), "secret-value");
}
