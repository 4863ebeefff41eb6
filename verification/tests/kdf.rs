use bxenc::crypto::kdf::{derive_key, KEY_LEN};
use bxenc::BxResult;

const PASSWORD: &[u8] = b"correct horse battery staple";
const SALT_A: [u8; 16] = *b"0123456789abcdef";
const SALT_B: [u8; 16] = *b"fedcba9876543210";

#[test]
fn same_password_same_salt_yields_same_key() -> BxResult<()> {
    let first = derive_key(PASSWORD, &SALT_A)?;
    let second = derive_key(PASSWORD, &SALT_A)?;

    assert_eq!(first.as_ref(), second.as_ref());
    Ok(())
}

#[test]
fn same_password_different_salt_yields_different_key() -> BxResult<()> {
    let first = derive_key(PASSWORD, &SALT_A)?;
    let second = derive_key(PASSWORD, &SALT_B)?;

    assert_ne!(first.as_ref(), second.as_ref());
    Ok(())
}

#[test]
fn output_is_32_bytes() -> BxResult<()> {
    let key = derive_key(PASSWORD, &SALT_A)?;

    assert_eq!(key.as_ref().len(), KEY_LEN);
    Ok(())
}

#[test]
fn derived_key_is_not_the_password() -> BxResult<()> {
    let key = derive_key(&[0u8; 32], &SALT_A)?;
    assert_ne!(key, [0u8; 32]);
    Ok(())
}
