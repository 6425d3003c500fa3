use pdfx::crypto::{decrypt_action, DecryptAction};
use pdfx::{decrypt, encrypt, is_encrypted, Document, Error, Object};

fn encrypted_document() -> Document {
    let mut doc = Document::new();
    let mut enc = pdfx::Dictionary::new();
    enc.set(b"Filter".to_vec(), Object::Name(b"Standard".to_vec()));
    doc.trailer.set(b"Encrypt".to_vec(), Object::Dictionary(enc));
    doc.trailer.set(b"Other".to_vec(), Object::Integer(1));
    doc.encrypted = true;
    doc
}

#[test]
fn encrypt_is_always_rejected() {
    assert_eq!(
        encrypt("in.pdf", "out.pdf", "pw", None),
        Err(Error::EncryptUnsupported)
    );
    assert_eq!(
        encrypt("", "", "", Some("owner")),
        Err(Error::EncryptUnsupported)
    );
}

#[test]
fn decrypt_is_a_noop_on_plaintext() {
    let mut doc = Document::new();
    assert!(!is_encrypted(&doc));
    assert_eq!(decrypt(&mut doc, Some("any password"), true), Ok(()));
    assert!(!is_encrypted(&doc));
    assert_eq!(decrypt(&mut doc, None, false), Ok(()));
    assert!(!is_encrypted(&doc));
}

#[test]
fn accepted_password_clears_the_encryption_state() {
    let mut doc = encrypted_document();
    assert!(is_encrypted(&doc));
    assert_eq!(decrypt(&mut doc, Some("secret"), true), Ok(()));
    assert!(!is_encrypted(&doc));
    assert!(doc.trailer.get(b"Encrypt").is_none());
    assert!(matches!(
        doc.trailer.get(b"Other"),
        Some(Object::Integer(1))
    ));
}

#[test]
fn rejected_password_fails_and_keeps_the_state() {
    let mut doc = encrypted_document();
    assert_eq!(decrypt(&mut doc, Some("wrong"), false), Err(Error::Decrypt));
    assert!(is_encrypted(&doc));
    assert!(doc.trailer.get(b"Encrypt").is_some());
}

#[test]
fn decrypt_action_skips_plaintext() {
    let doc = Document::new();
    assert!(matches!(
        decrypt_action(&doc, Some("pw")),
        DecryptAction::AlreadyPlain
    ));
}

#[test]
fn decrypt_action_hands_the_password_to_the_cipher() {
    let doc = encrypted_document();
    match decrypt_action(&doc, Some("secret")) {
        DecryptAction::RunCipher(bytes) => assert_eq!(bytes, b"secret".to_vec()),
        DecryptAction::AlreadyPlain => panic!("an encrypted document needs the cipher"),
    }
    match decrypt_action(&doc, None) {
        DecryptAction::RunCipher(bytes) => assert!(bytes.is_empty()),
        DecryptAction::AlreadyPlain => panic!("an encrypted document needs the cipher"),
    }
}

#[test]
fn decrypt_without_password_uses_the_empty_one() {
    let mut doc = encrypted_document();
    decrypt(&mut doc, None, true).unwrap();
    assert!(doc.trailer.get(b"Encrypt").is_none());
    assert!(!is_encrypted(&doc));
}
