//! Ad-hoc decryption.
use vstd::prelude::*;
use crate::crypto::engine::{self, decrypt_spec, reports_decryption, Credential, DecryptFailure, MAGIC};
use crate::error::{BxError, BxResult};

verus! {

/// What `decrypt_bytes` gives: a decryption error where the blob does not start
/// with the magic bytes, otherwise the decryption of the blob with no entry AAD.
pub open spec fn decrypt_bytes_spec(c: Credential, blob: Seq<u8>) -> Result<Seq<u8>, DecryptFailure> {
    if blob.len() < 5 || blob.subrange(0, 5) != MAGIC@ {
        Err(DecryptFailure::Decrypt)
    } else {
        decrypt_spec(c, blob, Seq::empty())
    }
}

/// Decrypts a blob produced by `encrypt_bytes`, checking the magic bytes first.
pub fn decrypt_bytes(credential: Credential<'_>, blob: &[u8]) -> (r: BxResult<Vec<u8>>)
    ensures
        reports_decryption(r, decrypt_bytes_spec(credential, blob@)),
{
    if blob.len() < MAGIC.len() {
        return Err(BxError::Decrypt);
    }
    let magic = MAGIC;
    for i in 0..5
        invariant
            blob@.len() >= 5,
            magic == MAGIC,
            forall|k: int| 0 <= k < i ==> blob@[k] == MAGIC@[k],
    {
        if blob[i] != magic[i] {
            assert(blob@.subrange(0, 5)[i as int] != MAGIC@[i as int]);
            return Err(BxError::Decrypt);
        }
    }
    assert(blob@.subrange(0, 5) =~= MAGIC@);
    let no_aad: Vec<u8> = Vec::new();
    assert(no_aad@ =~= Seq::<u8>::empty());
    engine::decrypt(credential, blob, no_aad.as_slice())
}

} // verus!
