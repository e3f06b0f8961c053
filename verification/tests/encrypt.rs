use pngme::{decrypt, encrypt};

#[test]
fn test_encrypt_decrypt_round_trip() {
    let message = String::from("This is where your secret message will be!");
    let ciphertext = encrypt(message.clone());
    assert_ne!(ciphertext, message);
    assert_eq!(decrypt(ciphertext), Some(message));
}

#[test]
fn test_encrypt_empty_message_round_trip() {
    let ciphertext = encrypt(String::new());
    assert_eq!(decrypt(ciphertext), Some(String::new()));
}

#[test]
fn test_decrypt_rejects_malformed_input() {
    assert_eq!(decrypt(String::from("not ciphertext!")), None);
}
