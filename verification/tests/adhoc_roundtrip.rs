use bxenc::adhoc::decrypt::decrypt_bytes;
use bxenc::adhoc::encrypt::encrypt_bytes;
use bxenc::crypto::engine::{Credential, MAGIC, MODE_KEYFILE, MODE_PASSWORD};
use bxenc::{BxError, BxResult};

const PASSWORD: &[u8] = b"ad hoc test password";
const WRONG_PASSWORD: &[u8] = b"wrong ad hoc test password";
const KEYFILE: [u8; 32] = [42u8; 32];
const PLAINTEXT: &[u8] = b"plain bytes with \0 and\nnewlines\n";

#[test]
fn password_bytes_roundtrip() -> BxResult<()> {
    let blob = encrypt_bytes(Credential::Password(PASSWORD), PLAINTEXT)?;
    let plaintext = decrypt_bytes(Credential::Password(PASSWORD), &blob)?;

    assert_eq!(&blob[0..5], MAGIC);
    assert_eq!(blob[6], MODE_PASSWORD);
    assert_eq!(plaintext.as_slice(), PLAINTEXT);

    Ok(())
}

#[test]
fn keyfile_bytes_roundtrip() -> BxResult<()> {
    let blob = encrypt_bytes(Credential::Keyfile(&KEYFILE), PLAINTEXT)?;
    let plaintext = decrypt_bytes(Credential::Keyfile(&KEYFILE), &blob)?;

    assert_eq!(&blob[0..5], MAGIC);
    assert_eq!(blob[6], MODE_KEYFILE);
    assert_eq!(plaintext.as_slice(), PLAINTEXT);

    Ok(())
}

#[test]
fn adhoc_roundtrip_wrong_password_returns_decrypt_error() -> BxResult<()> {
    let blob = encrypt_bytes(Credential::Password(PASSWORD), PLAINTEXT)?;
    let result = decrypt_bytes(Credential::Password(WRONG_PASSWORD), &blob);

    assert!(matches!(result, Err(BxError::Decrypt)));

    Ok(())
}

#[test]
fn bad_magic_returns_decrypt_error() {
    let result = decrypt_bytes(Credential::Keyfile(&KEYFILE), b"not a bxenc blob");

    assert!(matches!(result, Err(BxError::Decrypt)));
}

#[test]
fn blob_shorter_than_magic_returns_decrypt_error() {
    let result = decrypt_bytes(Credential::Keyfile(&KEYFILE), b"BXE");

    assert!(matches!(result, Err(BxError::Decrypt)));
}
