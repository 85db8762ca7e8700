use private_dao::crypto::{
    decrypt_vote, derive_keypair, derive_user_pubkey, encrypt_vote, read_message, CryptoError,
    CryptoFailure,
};

const MASTER_SECRET: &[u8] = b"test_secret_32_bytes_long_xxxx!!";

#[test]
fn test_keypair_derivation() {
    let master_secret = b"test_secret_32_bytes_long_xxxx!!";
    let dao = "dao.testnet";

    let (priv1, pub1) = derive_keypair(master_secret, dao, "alice.testnet").unwrap();
    let (priv2, pub2) = derive_keypair(master_secret, dao, "bob.testnet").unwrap();

    assert_ne!(priv1, priv2);
    assert_ne!(pub1, pub2);

    assert_eq!(priv1.len(), 32);
    assert_eq!(pub1.len(), 33);
}

#[test]
fn test_deterministic_keys() {
    let master_secret = b"test_secret_32_bytes_long_xxxx!!";
    let dao = "dao.testnet";
    let user = "alice.testnet";

    let (priv1, pub1) = derive_keypair(master_secret, dao, user).unwrap();
    let (priv2, pub2) = derive_keypair(master_secret, dao, user).unwrap();

    assert_eq!(priv1, priv2);
    assert_eq!(pub1, pub2);
}

#[test]
fn test_encrypt_decrypt() {
    let master_secret = b"test_secret_32_bytes_long_xxxx!!";
    let dao = "dao.testnet";
    let user = "alice.testnet";

    let (_privkey, pubkey) = derive_keypair(master_secret, dao, user).unwrap();

    let plaintext = "yes";
    let ciphertext = encrypt_vote(&pubkey, plaintext.as_bytes()).unwrap();

    let decrypted = decrypt_vote(master_secret, dao, user, &ciphertext).unwrap();

    assert_eq!(decrypted, plaintext);
}

#[test]
fn test_decrypt_wrong_user_fails() {
    let master_secret = b"test_secret_32_bytes_long_xxxx!!";
    let dao = "dao.testnet";

    let (_priv_alice, pub_alice) = derive_keypair(master_secret, dao, "alice.testnet").unwrap();
    let ciphertext = encrypt_vote(&pub_alice, b"yes").unwrap();

    let result = decrypt_vote(master_secret, dao, "bob.testnet", &ciphertext);

    assert!(result.is_err());
}

#[test]
fn test_pubkey_derivation() {
    let master_secret = b"test_secret_32_bytes_long_xxxx!!";
    let dao = "dao.testnet";
    let user = "alice.testnet";

    let pubkey = derive_user_pubkey(master_secret, dao, user).unwrap();

    assert_eq!(pubkey.len(), 33);
    assert!(pubkey[0] == 0x02 || pubkey[0] == 0x03);
}

#[test]
fn derived_private_key_is_the_hkdf_seed() {
    // HKDF-SHA256 without salt over the secret, with the label as info.
    let hk = hkdf::Hkdf::<sha2::Sha256>::new(None, MASTER_SECRET);
    let mut seed = [0u8; 32];
    hk.expand(b"ecies:dao.testnet:alice.testnet", &mut seed).unwrap();
    let (private, public) = derive_keypair(MASTER_SECRET, "dao.testnet", "alice.testnet").unwrap();
    assert_eq!(private, seed.to_vec());
    let key = libsecp256k1::SecretKey::parse_slice(&seed).unwrap();
    let point = libsecp256k1::PublicKey::from_secret_key(&key);
    assert_eq!(public, point.serialize_compressed().to_vec());
    assert_ne!(public, private);
}

#[test]
fn public_key_is_the_second_half_of_the_keypair() {
    let (_, public) = derive_keypair(MASTER_SECRET, "dao.testnet", "carol.testnet").unwrap();
    let alone = derive_user_pubkey(MASTER_SECRET, "dao.testnet", "carol.testnet").unwrap();
    assert_eq!(public, alone);
}

#[test]
fn distinct_domains_give_distinct_keys() {
    let a = derive_keypair(MASTER_SECRET, "dao.testnet", "alice.testnet").unwrap();
    let b = derive_keypair(MASTER_SECRET, "other.testnet", "alice.testnet").unwrap();
    assert_ne!(a.0, b.0);
    assert_ne!(a.1, b.1);
}

#[test]
fn encrypt_rejects_a_key_that_is_no_point() {
    let error = encrypt_vote(&[0u8; 33], b"yes").unwrap_err();
    assert_eq!(error.failure, CryptoFailure::EncryptionFailed);
    assert_eq!(error.message(), "ECIES encryption failed: Invalid public key");
    // A key of a length that is none of a public key's is refused.
    for length in [0usize, 5, 32, 34, 63, 66] {
        let error = encrypt_vote(&vec![2u8; length], b"yes").unwrap_err();
        assert_eq!(error.failure, CryptoFailure::EncryptionFailed);
        assert_eq!(error.message(), "ECIES encryption failed: Invalid input length");
    }
}

#[test]
fn encryption_is_randomised_and_changes_the_message() {
    let public = derive_user_pubkey(MASTER_SECRET, "dao.testnet", "alice.testnet").unwrap();
    let first = encrypt_vote(&public, b"yes").unwrap();
    let second = encrypt_vote(&public, b"yes").unwrap();
    assert_ne!(first, second);
    assert_ne!(first, b"yes".to_vec());
    assert_eq!(
        decrypt_vote(MASTER_SECRET, "dao.testnet", "alice.testnet", &second).unwrap(),
        "yes"
    );
}

#[test]
fn round_trip_keeps_any_text() {
    let public = derive_user_pubkey(MASTER_SECRET, "dao.testnet", "alice.testnet").unwrap();
    for text in ["", "no", "noise", "yes ", "h\u{e9}llo \u{1f30d}"] {
        let sealed = encrypt_vote(&public, text.as_bytes()).unwrap();
        let opened = decrypt_vote(MASTER_SECRET, "dao.testnet", "alice.testnet", &sealed).unwrap();
        assert_eq!(opened, text);
    }
}

#[test]
fn decrypt_reports_what_went_wrong() {
    let public = derive_user_pubkey(MASTER_SECRET, "dao.testnet", "alice.testnet").unwrap();
    // Too short to hold an ephemeral key.
    let error = decrypt_vote(MASTER_SECRET, "dao.testnet", "alice.testnet", &[1, 2, 3]).unwrap_err();
    assert_eq!(error.failure, CryptoFailure::DecryptionFailed);
    assert_eq!(error.message(), "ECIES decryption failed: Invalid message");
    // Too short to hold an ephemeral key, a nonce and a tag.
    let whole = encrypt_vote(&public, b"").unwrap();
    assert_eq!(whole.len(), 97);
    assert_eq!(decrypt_vote(MASTER_SECRET, "dao.testnet", "alice.testnet", &whole).unwrap(), "");
    let error =
        decrypt_vote(MASTER_SECRET, "dao.testnet", "alice.testnet", &whole[..96]).unwrap_err();
    assert_eq!(error.failure, CryptoFailure::DecryptionFailed);
    // A flipped byte breaks the authentication tag.
    let mut sealed = encrypt_vote(&public, b"yes").unwrap();
    let last = sealed.len() - 1;
    sealed[last] ^= 1;
    let error = decrypt_vote(MASTER_SECRET, "dao.testnet", "alice.testnet", &sealed).unwrap_err();
    assert_eq!(error.failure, CryptoFailure::DecryptionFailed);
    assert_eq!(error.cause, "Invalid message");
    // Bytes that are no UTF-8 text open, but are no text.
    let sealed = encrypt_vote(&public, &[0xff, 0xfe]).unwrap();
    let error = decrypt_vote(MASTER_SECRET, "dao.testnet", "alice.testnet", &sealed).unwrap_err();
    assert_eq!(error.failure, CryptoFailure::InvalidUtf8);
    assert_eq!(error.message(), "Invalid UTF-8: invalid utf-8 sequence of 1 bytes from index 0");
}

#[test]
fn read_message_tells_the_three_cases_apart() {
    assert_eq!(read_message(b"yes".to_vec()).unwrap(), "yes");
    assert_eq!(read_message(Vec::new()).unwrap(), "");
    assert_eq!(read_message(vec![0xc3, 0x28]).unwrap_err().failure, CryptoFailure::InvalidUtf8);
    assert_eq!(read_message(vec![0xc3, 0xa9]).unwrap(), "\u{e9}");
}

#[test]
fn key_derivation_errors_are_told_from_the_others() {
    assert!(CryptoFailure::InvalidSecretKey.is_key_derivation());
    assert!(!CryptoFailure::EncryptionFailed.is_key_derivation());
    assert!(!CryptoFailure::DecryptionFailed.is_key_derivation());
    assert!(!CryptoFailure::InvalidUtf8.is_key_derivation());
    let error =
        CryptoError { failure: CryptoFailure::InvalidSecretKey, cause: "InvalidSecretKey".to_string() };
    assert_eq!(error.message(), "Invalid secret key: InvalidSecretKey");
}

#[test]
fn a_colon_in_the_domain_blurs_the_label() {
    // Both pairs are derived under the label `ecies:a:b:c`.
    let first = derive_keypair(MASTER_SECRET, "a:b", "c").unwrap();
    let second = derive_keypair(MASTER_SECRET, "a", "b:c").unwrap();
    assert_eq!(first, second);
    let third = derive_keypair(MASTER_SECRET, "a", "b.c").unwrap();
    assert_ne!(first, third);
}

#[test]
fn another_secret_gives_other_keys() {
    let first = derive_keypair(MASTER_SECRET, "dao.testnet", "alice.testnet").unwrap();
    let second =
        derive_keypair(b"another_secret_32_bytes_long!!!!", "dao.testnet", "alice.testnet").unwrap();
    assert_ne!(first.0, second.0);
    assert_ne!(first.1, second.1);
    let empty = derive_keypair(b"", "", "").unwrap();
    assert_eq!(empty.0.len(), 32);
    assert_eq!(empty.1.len(), 33);
}

#[test]
fn sealing_to_a_derived_key_succeeds() {
    for voter in ["alice.testnet", "bob.testnet", "", "a:b"] {
        let public = derive_user_pubkey(MASTER_SECRET, "dao.testnet", voter).unwrap();
        for message in [&b""[..], &b"yes"[..], &[0u8; 4096][..]] {
            let sealed = encrypt_vote(&public, message).unwrap();
            // An ephemeral key, a nonce and a tag go before the message.
            assert_eq!(sealed.len(), 97 + message.len());
        }
    }
}
