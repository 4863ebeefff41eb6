//! Ad-hoc encryption.
use vstd::prelude::*;
use crate::crypto::engine::{
    self, credential_usable, decrypt_spec, is_encryption_of, is_random_failure, plaintext_accepted,
    Credential,
    DecryptFailure, HEADER_LEN, TAG_LEN,
};
use crate::adhoc::decrypt::decrypt_bytes_spec;
use crate::error::{BxError, BxResult};

verus! {

/// Encrypts `plaintext` with no entry AAD, as [`engine::encrypt`] does: a blob
/// comes back only where the credential yields a key and the plaintext is shorter
/// than `64 * u32::MAX` bytes, and then `decrypt_bytes` with the same credential
/// gives the plaintext back. Where both hold, the only failure is an encryption
/// error for want of random bytes, whose text says so.
pub fn encrypt_bytes(credential: Credential<'_>, plaintext: &[u8]) -> (r: BxResult<Vec<u8>>)
    ensures
        r matches Ok(blob) ==> is_encryption_of(credential, plaintext@, Seq::empty(), blob@)
            && blob@.len() == HEADER_LEN + plaintext@.len() + TAG_LEN && decrypt_bytes_spec(
            credential,
            blob@,
        ) == Ok::<Seq<u8>, DecryptFailure>(plaintext@),
        r is Ok ==> credential_usable(credential) && plaintext_accepted(plaintext@),
        credential_usable(credential) && plaintext_accepted(plaintext@) ==> r is Ok || r matches Err(
            BxError::Encrypt(_),
        ),
        credential_usable(credential) && plaintext_accepted(plaintext@) ==> r is Ok || (r matches Err(
            BxError::Encrypt(m),
        ) && is_random_failure(m@)),
        !credential_usable(credential) ==> r matches Err(BxError::Kdf(_)) || r matches Err(
            BxError::Encrypt(_),
        ),
        credential_usable(credential) && !plaintext_accepted(plaintext@) ==> r matches Err(
            BxError::Encrypt(_),
        ),
{
    let no_aad: Vec<u8> = Vec::new();
    let r = engine::encrypt(credential, plaintext, no_aad.as_slice());
    proof {
        assert(no_aad@ =~= Seq::<u8>::empty());
        if r is Ok {
            let blob = r->Ok_0@;
            assert(decrypt_spec(credential, blob, Seq::empty()) == Ok::<Seq<u8>, DecryptFailure>(
                plaintext@,
            ));
            assert(blob.len() >= 5);
        }
    }
    r
}

} // verus!
