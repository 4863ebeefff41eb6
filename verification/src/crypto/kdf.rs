//! Password key derivation with Argon2id.
use vstd::prelude::*;
use argon2::{Algorithm, Argon2, Params, Version};
use crate::error::{BxError, BxResult};

verus! {

/// Argon2id memory cost in kibibytes.
pub const ARGON2_MEM_COST: u32 = 64 * 1024;
/// Argon2id iteration count.
pub const ARGON2_TIME_COST: u32 = 3;
/// Argon2id lane count.
pub const ARGON2_PARALLELISM: u32 = 1;
/// Symmetric key length for XChaCha20-Poly1305.
pub const KEY_LEN: usize = 32;

/// The 32-byte Argon2id (version 0x13) hash of `password` under `salt`, with the
/// given memory, time and lane costs.
pub uninterp spec fn argon2id_v13(
    m_cost: u32,
    t_cost: u32,
    p_cost: u32,
    password: Seq<u8>,
    salt: Seq<u8>,
) -> Seq<u8>;

/// Calls argon2's `Params::new(m_cost, t_cost, p_cost, Some(32))`, then
/// `Argon2::new(Algorithm::Argon2id, Version::V0x13, params).hash_password_into`
/// on `password` and `salt` into a 32-byte buffer. As argon2's source shows, this
/// succeeds exactly when the parameters are valid (memory at least 8 and at least
/// 8 per lane, at least one pass, 1 to 0xFFFFFF lanes), the password is at most
/// 0xFFFFFFFF bytes and the salt between 8 and 0xFFFFFFFF bytes; the key is then
/// the Argon2id hash. The text of a failure is argon2's error message, which is
/// not stated.
#[verifier::external_body]
fn argon2id_hash(
    m_cost: u32,
    t_cost: u32,
    p_cost: u32,
    password: &[u8],
    salt: &[u8],
) -> (r: Result<[u8; 32], String>)
    requires
        p_cost <= 0xFF_FFFF,
    ensures
        r is Ok <==> (8 <= m_cost && 8 * p_cost <= m_cost && 1 <= t_cost && 1 <= p_cost
            && password@.len() <= 0xFFFF_FFFF && 8 <= salt@.len() <= 0xFFFF_FFFF),
        r matches Ok(key) ==> key@ == argon2id_v13(m_cost, t_cost, p_cost, password@, salt@),
{
    let params = Params::new(m_cost, t_cost, p_cost, Some(32)).map_err(|err| err.to_string())?;
    let mut key = [0u8; 32];
    Argon2::new(Algorithm::Argon2id, Version::V0x13, params).hash_password_into(
        password,
        salt,
        &mut key,
    ).map_err(|err| err.to_string())?;
    Ok(key)
}

/// The key that [`derive_key`] derives from `password` and `salt`.
pub open spec fn derived_key(password: Seq<u8>, salt: Seq<u8>) -> Seq<u8> {
    argon2id_v13(ARGON2_MEM_COST, ARGON2_TIME_COST, ARGON2_PARALLELISM, password, salt)
}

/// Whether Argon2id accepts `password`: it takes at most 0xFFFFFFFF bytes.
pub open spec fn password_accepted(password: Seq<u8>) -> bool {
    password.len() <= 0xFFFF_FFFF
}

/// Derives a 32-byte key from a password and a 16-byte salt with Argon2id
/// (64 MiB, 3 passes, 1 lane). The same password and salt always give the same
/// key. Fails, with a key-derivation error, only for a password longer than
/// 0xFFFFFFFF bytes.
pub fn derive_key(password: &[u8], salt: &[u8; 16]) -> (r: BxResult<[u8; KEY_LEN]>)
    ensures
        password_accepted(password@) ==> (r matches Ok(key) && key@ == derived_key(
            password@,
            salt@,
        )),
        !password_accepted(password@) ==> r matches Err(BxError::Kdf(_)),
{
    match argon2id_hash(ARGON2_MEM_COST, ARGON2_TIME_COST, ARGON2_PARALLELISM, password, salt) {
        Ok(key) => Ok(key),
        Err(message) => Err(BxError::Kdf(message)),
    }
}

} // verus!
