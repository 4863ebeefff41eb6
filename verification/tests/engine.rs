use bxenc::crypto::engine::{
    decrypt, encrypt, encrypt_with, Credential, NONCE_LEN, HEADER_LEN, MAGIC, MODE_KEYFILE, MODE_PASSWORD, SALT_LEN,
    TAG_LEN, VERSION,
};
use bxenc::crypto::kdf;
use bxenc::{BxError, BxResult};

const PASSWORD: &[u8] = b"still not a cli argument";
const WRONG_PASSWORD: &[u8] = b"different password";
const PLAINTEXT: &[u8] = b"vault material";
const ENTRY_AAD: &[u8] = b"entry_a";
const OTHER_ENTRY_AAD: &[u8] = b"entry_b";
const KEYFILE_A: [u8; kdf::KEY_LEN] = [7u8; kdf::KEY_LEN];
const KEYFILE_B: [u8; kdf::KEY_LEN] = [9u8; kdf::KEY_LEN];

fn assert_decrypt_error(result: BxResult<Vec<u8>>) {
    assert!(matches!(result, Err(BxError::Decrypt)));
}

#[test]
fn password_mode_roundtrip() -> BxResult<()> {
    let blob = encrypt(Credential::Password(PASSWORD), PLAINTEXT, b"")?;
    let plaintext = decrypt(Credential::Password(PASSWORD), &blob, b"")?;

    assert_eq!(blob.len(), HEADER_LEN + PLAINTEXT.len() + TAG_LEN);
    assert_eq!(&blob[0..5], MAGIC);
    assert_eq!(blob[5], VERSION);
    assert_eq!(blob[6], MODE_PASSWORD);
    assert_eq!(plaintext, PLAINTEXT);
    Ok(())
}

#[test]
fn keyfile_mode_roundtrip() -> BxResult<()> {
    let blob = encrypt(Credential::Keyfile(&KEYFILE_A), PLAINTEXT, b"")?;
    let plaintext = decrypt(Credential::Keyfile(&KEYFILE_A), &blob, b"")?;

    assert_eq!(blob.len(), HEADER_LEN + PLAINTEXT.len() + TAG_LEN);
    assert_eq!(&blob[0..5], MAGIC);
    assert_eq!(blob[5], VERSION);
    assert_eq!(blob[6], MODE_KEYFILE);
    assert_eq!(&blob[7..23], &[0u8; SALT_LEN]);
    assert_eq!(plaintext, PLAINTEXT);
    Ok(())
}

#[test]
fn engine_wrong_password_returns_decrypt_error() -> BxResult<()> {
    let blob = encrypt(Credential::Password(PASSWORD), PLAINTEXT, b"")?;

    assert_decrypt_error(decrypt(Credential::Password(WRONG_PASSWORD), &blob, b""));
    Ok(())
}

#[test]
fn wrong_keyfile_returns_decrypt_error() -> BxResult<()> {
    let blob = encrypt(Credential::Keyfile(&KEYFILE_A), PLAINTEXT, b"")?;

    assert_decrypt_error(decrypt(Credential::Keyfile(&KEYFILE_B), &blob, b""));
    Ok(())
}

#[test]
fn corrupted_ciphertext_fails_authentication() -> BxResult<()> {
    let mut blob = encrypt(Credential::Keyfile(&KEYFILE_A), PLAINTEXT, b"")?;
    let last_index = blob.len() - 1;
    blob[last_index] ^= 0x01;

    assert_decrypt_error(decrypt(Credential::Keyfile(&KEYFILE_A), &blob, b""));
    Ok(())
}

#[test]
fn bad_magic_rejected_before_decryption() {
    let blob = vec![0u8; HEADER_LEN + TAG_LEN];

    assert_decrypt_error(decrypt(Credential::Keyfile(&KEYFILE_A), &blob, b""));
}

#[test]
fn two_encryptions_produce_different_blobs() -> BxResult<()> {
    let first = encrypt(Credential::Keyfile(&KEYFILE_A), PLAINTEXT, b"")?;
    let second = encrypt(Credential::Keyfile(&KEYFILE_A), PLAINTEXT, b"")?;

    assert_ne!(first, second);
    Ok(())
}

#[test]
fn header_tampering_fails_authentication() -> BxResult<()> {
    let mut blob = encrypt(Credential::Keyfile(&KEYFILE_A), PLAINTEXT, b"")?;
    blob[23] ^= 0x01;

    assert_decrypt_error(decrypt(Credential::Keyfile(&KEYFILE_A), &blob, b""));
    Ok(())
}

#[test]
fn entry_aad_mismatch_fails() -> BxResult<()> {
    let blob = encrypt(Credential::Keyfile(&KEYFILE_A), PLAINTEXT, ENTRY_AAD)?;

    assert_decrypt_error(decrypt(
        Credential::Keyfile(&KEYFILE_A),
        &blob,
        OTHER_ENTRY_AAD,
    ));
    Ok(())
}

#[test]
fn mode_byte_mismatch_fails() -> BxResult<()> {
    let blob = encrypt(Credential::Password(PASSWORD), PLAINTEXT, b"")?;

    assert_decrypt_error(decrypt(Credential::Keyfile(&KEYFILE_A), &blob, b""));
    Ok(())
}

#[test]
fn entry_aad_roundtrip_and_empty_plaintext() -> BxResult<()> {
    let blob = encrypt(Credential::Keyfile(&KEYFILE_A), b"", ENTRY_AAD)?;
    assert_eq!(blob.len(), HEADER_LEN + TAG_LEN);
    assert_eq!(decrypt(Credential::Keyfile(&KEYFILE_A), &blob, ENTRY_AAD)?, b"");
    Ok(())
}

#[test]
fn short_blob_is_rejected() {
    let mut blob = MAGIC.to_vec();
    blob.extend_from_slice(&[VERSION, MODE_KEYFILE]);
    blob.resize(HEADER_LEN + TAG_LEN - 1, 0);
    assert_decrypt_error(decrypt(Credential::Keyfile(&KEYFILE_A), &blob, b""));
}

#[test]
fn bad_version_and_bad_mode_are_rejected() -> BxResult<()> {
    let blob = encrypt(Credential::Keyfile(&KEYFILE_A), PLAINTEXT, b"")?;
    let mut wrong_version = blob.clone();
    wrong_version[5] = 2;
    assert_decrypt_error(decrypt(Credential::Keyfile(&KEYFILE_A), &wrong_version, b""));
    let mut wrong_mode = blob;
    wrong_mode[6] = 7;
    assert_decrypt_error(decrypt(Credential::Keyfile(&KEYFILE_A), &wrong_mode, b""));
    Ok(())
}

#[test]
fn keyfile_blob_decrypted_with_password_is_rejected() -> BxResult<()> {
    let blob = encrypt(Credential::Keyfile(&KEYFILE_A), PLAINTEXT, b"")?;
    assert_decrypt_error(decrypt(Credential::Password(PASSWORD), &blob, b""));
    Ok(())
}

#[test]
fn encrypt_with_lays_out_the_given_salt_and_nonce() -> BxResult<()> {
    let salt = [3u8; SALT_LEN];
    let nonce: [u8; NONCE_LEN] = core::array::from_fn(|i| i as u8);
    let blob = encrypt_with(Credential::Password(PASSWORD), PLAINTEXT, ENTRY_AAD, &salt, &nonce)?;

    assert_eq!(blob.len(), HEADER_LEN + PLAINTEXT.len() + TAG_LEN);
    assert_eq!(&blob[0..5], MAGIC);
    assert_eq!(blob[5], VERSION);
    assert_eq!(blob[6], MODE_PASSWORD);
    assert_eq!(&blob[7..23], &salt);
    assert_eq!(&blob[23..47], &nonce);
    assert_eq!(decrypt(Credential::Password(PASSWORD), &blob, ENTRY_AAD)?, PLAINTEXT);
    assert_decrypt_error(decrypt(Credential::Password(PASSWORD), &blob, OTHER_ENTRY_AAD));
    Ok(())
}

#[test]
fn encrypt_with_is_a_function_of_its_inputs() -> BxResult<()> {
    let salt = [0u8; SALT_LEN];
    let nonce = [5u8; NONCE_LEN];
    let other_nonce = [6u8; NONCE_LEN];
    let credential = Credential::Keyfile(&KEYFILE_A);
    let first = encrypt_with(credential, PLAINTEXT, b"", &salt, &nonce)?;
    let second = encrypt_with(credential, PLAINTEXT, b"", &salt, &nonce)?;
    let third = encrypt_with(credential, PLAINTEXT, b"", &salt, &other_nonce)?;

    assert_eq!(first, second);
    assert_ne!(first[HEADER_LEN..], third[HEADER_LEN..]);
    assert_eq!(first[6], MODE_KEYFILE);
    assert_ne!(&first[HEADER_LEN..HEADER_LEN + PLAINTEXT.len()], PLAINTEXT);
    assert_eq!(decrypt(credential, &third, b"")?, PLAINTEXT);
    Ok(())
}
