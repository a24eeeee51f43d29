use secure_backup::crypto::CryptoError;
use secure_backup::crypto::Encryptor;
use secure_backup::crypto::PasswordStrength;

#[test]
fn test_encrypt_decrypt() {
    let encryptor = Encryptor::new("test_password_123");
    let plaintext = b"Hello, World! This is a test message.";

    let encrypted = encryptor.encrypt(plaintext).unwrap();
    assert_ne!(&encrypted[..], &plaintext[..]);
    assert!(encrypted.len() > plaintext.len());

    let decrypted = encryptor.decrypt(&encrypted).unwrap();
    assert_eq!(&decrypted[..], &plaintext[..]);
}

#[test]
fn test_wrong_password() {
    let encryptor1 = Encryptor::new("password1");
    let encryptor2 = Encryptor::new("password2");

    let plaintext = b"Secret data";
    let encrypted = encryptor1.encrypt(plaintext).unwrap();

    let result = encryptor2.decrypt(&encrypted);
    assert!(result.is_err());
}

#[test]
fn test_password_strength() {
    assert_eq!(
        Encryptor::check_password_strength("abc"),
        PasswordStrength::Weak
    );
    assert_eq!(
        Encryptor::check_password_strength("Abc12345"),
        PasswordStrength::Medium
    );
    assert_eq!(
        Encryptor::check_password_strength("MyP@ssw0rd!123"),
        PasswordStrength::Strong
    );
}

#[test]
fn test_envelope_layout() {
    // salt (32) + nonce (12) + ciphertext + tag (16)
    let encryptor = Encryptor::new("layout_password");
    let plaintext = b"payload";
    let encrypted = encryptor.encrypt(plaintext).unwrap();
    assert_eq!(encrypted.len(), plaintext.len() + 60);
}

#[test]
fn test_fresh_salt_and_nonce_per_encryption() {
    let encryptor = Encryptor::new("repeat_password");
    let plaintext = b"same message";
    let first = encryptor.encrypt(plaintext).unwrap();
    let second = encryptor.encrypt(plaintext).unwrap();
    assert_ne!(first, second);
    assert_eq!(encryptor.decrypt(&first).unwrap(), plaintext.to_vec());
    assert_eq!(encryptor.decrypt(&second).unwrap(), plaintext.to_vec());
}

#[test]
fn test_tamper_detection() {
    let encryptor = Encryptor::new("tamper_password");
    let plaintext = b"abcd";
    let encrypted = encryptor.encrypt(plaintext).unwrap();
    for i in 0..encrypted.len() {
        let mut tampered = encrypted.clone();
        tampered[i] ^= 0x01;
        let result = encryptor.decrypt(&tampered);
        assert_eq!(result, Err(CryptoError::DecryptionFailed));
    }
}

#[test]
fn test_short_envelope_is_invalid_format() {
    let encryptor = Encryptor::new("short_password");
    let result = encryptor.decrypt(&[0u8; 43]);
    assert_eq!(result, Err(CryptoError::InvalidFormat));
    let empty = encryptor.decrypt(&[]);
    assert_eq!(empty, Err(CryptoError::InvalidFormat));
}
