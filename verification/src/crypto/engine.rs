//! Authenticated encryption engine: XChaCha20-Poly1305 under a 47-byte header
//! that is itself authenticated.
//!
//! A blob is `MAGIC || VERSION || mode || salt (16) || nonce (24) || ciphertext`,
//! where the ciphertext carries a 16-byte tag and is authenticated together with
//! the header and the caller's entry AAD.
use vstd::prelude::*;
use chacha20poly1305::aead::{Aead, KeyInit, Payload};
use chacha20poly1305::{Key, XChaCha20Poly1305, XNonce};
use rand::RngCore;
use crate::crypto::kdf::{self, derive_key, derived_key, password_accepted};
use crate::error::{BxError, BxResult};
use crate::text::{push_str, string_of};

verus! {

pub const MAGIC: [u8; 5] = [0x42, 0x58, 0x45, 0x4E, 0x43];
pub const VERSION: u8 = 0x01;
pub const MODE_PASSWORD: u8 = 0x00;
pub const MODE_KEYFILE: u8 = 0x01;
pub const SALT_LEN: usize = 16;
pub const NONCE_LEN: usize = 24;
pub const HEADER_LEN: usize = 47;
pub const TAG_LEN: usize = 16;

/// What unlocks a blob: a password, or the 32 bytes of a keyfile.
#[derive(Clone, Copy, Debug)]
pub enum Credential<'a> {
    Password(&'a [u8]),
    Keyfile(&'a [u8; kdf::KEY_LEN]),
}

/// A parsed header.
struct Header {
    mode: u8,
    salt: [u8; SALT_LEN],
    nonce: [u8; NONCE_LEN],
    bytes: [u8; HEADER_LEN],
}

/// The XChaCha20-Poly1305 ciphertext (with its 16-byte tag appended) of `msg`
/// under `key`, `nonce` and associated data `aad`.
pub uninterp spec fn xchacha20poly1305_seal(
    key: Seq<u8>,
    nonce: Seq<u8>,
    aad: Seq<u8>,
    ct_source: Seq<u8>,
) -> Seq<u8>;

/// The plaintext of an XChaCha20-Poly1305 ciphertext, or `None` where the tag
/// does not authenticate it under `key`, `nonce` and `aad`.
pub uninterp spec fn xchacha20poly1305_open(
    key: Seq<u8>,
    nonce: Seq<u8>,
    aad: Seq<u8>,
    ciphertext: Seq<u8>,
) -> Option<Seq<u8>>;

/// Calls chacha20poly1305's `Aead::encrypt` of `XChaCha20Poly1305::new(key)` on
/// `Payload { msg, aad }` with `nonce`. As its source shows, it fails exactly when
/// the message has `64 * u32::MAX` bytes or more; otherwise the ciphertext is the
/// message's length plus the 16-byte tag, and decrypting it with the same key,
/// nonce and AAD gives back the message (the AEAD's correctness). The text of a
/// failure is the crate's error message, which is not stated.
#[verifier::external_body]
fn aead_seal(key: &[u8; 32], nonce: &[u8; 24], msg: &[u8], aad: &[u8]) -> (r: Result<Vec<u8>, String>)
    ensures
        r is Ok <==> msg@.len() / 64 < 0xffff_ffff,
        r matches Ok(ct) ==> ct@ == xchacha20poly1305_seal(key@, nonce@, aad@, msg@),
        r matches Ok(ct) ==> ct@.len() == msg@.len() + 16,
        r matches Ok(ct) ==> xchacha20poly1305_open(key@, nonce@, aad@, ct@) == Some(msg@),
{
    XChaCha20Poly1305::new(Key::from_slice(key)).encrypt(XNonce::from_slice(nonce), Payload { msg, aad }).map_err(
        |err| err.to_string(),
    )
}

/// Calls chacha20poly1305's `Aead::decrypt` of `XChaCha20Poly1305::new(key)` on
/// `Payload { msg: ciphertext, aad }` with `nonce`; `None` stands for its error.
/// A ciphertext shorter than the 16-byte tag never opens, and an opened plaintext
/// is 16 bytes shorter than the ciphertext.
#[verifier::external_body]
fn aead_open(key: &[u8; 32], nonce: &[u8; 24], ciphertext: &[u8], aad: &[u8]) -> (r: Option<Vec<u8>>)
    ensures
        match r {
            Some(p) => xchacha20poly1305_open(key@, nonce@, aad@, ciphertext@) == Some(p@),
            None => xchacha20poly1305_open(key@, nonce@, aad@, ciphertext@) is None,
        },
        ciphertext@.len() < 16 ==> r is None,
        r matches Some(p) ==> p@.len() + 16 == ciphertext@.len(),
{
    XChaCha20Poly1305::new(Key::from_slice(key)).decrypt(
        XNonce::from_slice(nonce),
        Payload { msg: ciphertext, aad },
    ).ok()
}

/// Fills an array with bytes from rand's `OsRng` through `RngCore::try_fill_bytes`,
/// which asks the operating system's generator and hands its failure back rather
/// than panicking. Nothing is stated of the bytes, nor of when the call fails: both
/// rest on the operating system. A failure is given as the text of rand's error.
#[verifier::external_body]
pub(crate) fn os_random_bytes<const N: usize>() -> (r: Result<[u8; N], String>) {
    let mut out = [0u8; N];
    match rand::rngs::OsRng.try_fill_bytes(&mut out) {
        Ok(()) => Ok(out),
        Err(err) => Err(err.to_string()),
    }
}

/// The text of every error that reports a failed random draw begins with this.
pub open spec fn random_failure_prefix() -> Seq<char> {
    "no random bytes from the operating system"@
}

/// `m` reports a failed random draw. No other error of the library has such a text.
pub open spec fn is_random_failure(m: Seq<char>) -> bool {
    random_failure_prefix().is_prefix_of(m)
}

/// The text that reports a failed random draw: the prefix, then the system's reason.
fn random_failure_text(reason: &str) -> (m: String)
    ensures
        is_random_failure(m@),
{
    let mut m = string_of("no random bytes from the operating system: ");
    push_str(&mut m, reason);
    proof {
        reveal_strlit("no random bytes from the operating system");
        reveal_strlit("no random bytes from the operating system: ");
        assert(random_failure_prefix() =~= m@.subrange(0, random_failure_prefix().len() as int));
    }
    m
}

/// Random bytes from the operating system, or the error text that reports a
/// failed draw.
pub(crate) fn draw_random<const N: usize>() -> (r: Result<[u8; N], String>)
    ensures
        r matches Err(m) ==> is_random_failure(m@),
{
    match os_random_bytes() {
        Ok(bytes) => Ok(bytes),
        Err(reason) => Err(random_failure_text(reason.as_str())),
    }
}

/// Calls zeroize's `Zeroize::zeroize` on a key: for an array of bytes it writes
/// zero over each byte, by a volatile write that the compiler does not remove.
#[verifier::external_body]
fn wipe(key: &mut [u8; 32])
    ensures
        final(key)@ == Seq::new(32, |i: int| 0u8),
{
    zeroize::Zeroize::zeroize(key);
}

/// The mode byte that a credential writes: 0 for a password, 1 for a keyfile.
pub open spec fn mode_of(c: Credential) -> u8 {
    match c {
        Credential::Password(_) => MODE_PASSWORD,
        Credential::Keyfile(_) => MODE_KEYFILE,
    }
}

/// The key a credential gives under `salt`: the Argon2id key of a password (none
/// for a password that Argon2id refuses), the keyfile's bytes as they are.
pub open spec fn credential_key(c: Credential, salt: Seq<u8>) -> Option<Seq<u8>> {
    match c {
        Credential::Password(p) => if password_accepted(p@) {
            Some(derived_key(p@, salt))
        } else {
            None
        },
        Credential::Keyfile(k) => Some(k@),
    }
}

/// The 47 header bytes.
pub open spec fn header_spec(mode: u8, salt: Seq<u8>, nonce: Seq<u8>) -> Seq<u8> {
    MAGIC@ + seq![VERSION, mode] + salt + nonce
}

/// The mode, salt and nonce of a blob's header, or `None` where the blob is too
/// short to hold a header and a tag, or the magic, version or mode is wrong.
pub open spec fn parse_header_spec(blob: Seq<u8>) -> Option<(u8, Seq<u8>, Seq<u8>)> {
    if blob.len() < HEADER_LEN + TAG_LEN || blob.subrange(0, 5) != MAGIC@ || blob[5] != VERSION
        || !(blob[6] == MODE_PASSWORD || blob[6] == MODE_KEYFILE) {
        None
    } else {
        Some((blob[6], blob.subrange(7, 23), blob.subrange(23, 47)))
    }
}

/// Why a blob does not decrypt.
pub enum DecryptFailure {
    /// Malformed header, credential of the wrong kind, or failed authentication.
    Decrypt,
    /// Argon2id refused the password.
    Kdf,
}

/// What decrypting `blob` with `c` and `entry_aad` gives.
pub open spec fn decrypt_spec(c: Credential, blob: Seq<u8>, entry_aad: Seq<u8>) -> Result<
    Seq<u8>,
    DecryptFailure,
> {
    match parse_header_spec(blob) {
        None => Err(DecryptFailure::Decrypt),
        Some((mode, salt, nonce)) => if mode != mode_of(c) {
            Err(DecryptFailure::Decrypt)
        } else {
            match credential_key(c, salt) {
                None => Err(DecryptFailure::Kdf),
                Some(key) => match xchacha20poly1305_open(
                    key,
                    nonce,
                    blob.subrange(0, HEADER_LEN as int) + entry_aad,
                    blob.subrange(HEADER_LEN as int, blob.len() as int),
                ) {
                    None => Err(DecryptFailure::Decrypt),
                    Some(p) => Ok(p),
                },
            }
        },
    }
}

/// `r` is the result that `s` describes.
pub open spec fn reports_decryption(r: BxResult<Vec<u8>>, s: Result<Seq<u8>, DecryptFailure>) -> bool {
    match s {
        Ok(p) => r matches Ok(v) && v@ == p,
        Err(DecryptFailure::Decrypt) => r matches Err(BxError::Decrypt),
        Err(DecryptFailure::Kdf) => r matches Err(BxError::Kdf(_)),
    }
}

/// The blob that encrypting `plaintext` with `c` and `entry_aad` under `salt` and
/// `nonce` gives: the header with the credential's mode, the salt and the nonce,
/// followed by the XChaCha20-Poly1305 ciphertext of the plaintext under the
/// credential's key, that nonce, and the header followed by the entry AAD.
pub open spec fn sealed_blob(
    c: Credential,
    plaintext: Seq<u8>,
    entry_aad: Seq<u8>,
    salt: Seq<u8>,
    nonce: Seq<u8>,
) -> Seq<u8> {
    header_spec(mode_of(c), salt, nonce) + xchacha20poly1305_seal(
        credential_key(c, salt)->0,
        nonce,
        header_spec(mode_of(c), salt, nonce) + entry_aad,
        plaintext,
    )
}

/// `blob` is an encryption of `plaintext` with `c` and `entry_aad`: the sealed
/// blob under some 16-byte salt (all zero for a keyfile) and some 24-byte nonce.
pub open spec fn is_encryption_of(
    c: Credential,
    plaintext: Seq<u8>,
    entry_aad: Seq<u8>,
    blob: Seq<u8>,
) -> bool {
    exists|salt: Seq<u8>, nonce: Seq<u8>|
        #![trigger sealed_blob(c, plaintext, entry_aad, salt, nonce)]
        salt.len() == SALT_LEN && nonce.len() == NONCE_LEN && (c is Keyfile ==> salt == Seq::new(
            SALT_LEN as nat,
            |i: int| 0u8,
        )) && credential_key(c, salt) is Some && blob == sealed_blob(c, plaintext, entry_aad, salt, nonce)
}

/// Whether the credential yields a key: always for a keyfile, for a password
/// that Argon2id accepts.
pub open spec fn credential_usable(c: Credential) -> bool {
    match c {
        Credential::Password(p) => password_accepted(p@),
        Credential::Keyfile(_) => true,
    }
}

/// Whether XChaCha20-Poly1305 accepts a plaintext of this length.
pub open spec fn plaintext_accepted(plaintext: Seq<u8>) -> bool {
    plaintext.len() / 64 < 0xffff_ffff
}

/// A blob made with a password never opens with a keyfile, and one made with a
/// keyfile never opens with a password: the mode byte of the header refuses the
/// other kind of credential.
pub proof fn lemma_other_kind_refused(
    made_with: Credential,
    opened_with: Credential,
    plaintext: Seq<u8>,
    entry_aad: Seq<u8>,
    blob: Seq<u8>,
)
    requires
        is_encryption_of(made_with, plaintext, entry_aad, blob),
        mode_of(made_with) != mode_of(opened_with),
    ensures
        decrypt_spec(opened_with, blob, entry_aad) == Err::<Seq<u8>, DecryptFailure>(
            DecryptFailure::Decrypt,
        ),
{
    let (salt, nonce) = choose|salt: Seq<u8>, nonce: Seq<u8>|
        #![trigger sealed_blob(made_with, plaintext, entry_aad, salt, nonce)]
        salt.len() == SALT_LEN && nonce.len() == NONCE_LEN && (made_with is Keyfile ==> salt
            == Seq::new(SALT_LEN as nat, |i: int| 0u8)) && credential_key(made_with, salt) is Some
            && blob == sealed_blob(made_with, plaintext, entry_aad, salt, nonce);
    assert(blob[6] == mode_of(made_with));
}

fn build_header(mode: u8, salt: &[u8; SALT_LEN], nonce: &[u8; NONCE_LEN]) -> (h: [u8; HEADER_LEN])
    ensures
        h@ == header_spec(mode, salt@, nonce@),
{
    let mut header = [0u8; HEADER_LEN];
    let magic = MAGIC;
    for i in 0..5
        invariant
            header@.len() == HEADER_LEN,
            magic == MAGIC,
            forall|k: int| 0 <= k < i ==> header@[k] == MAGIC@[k],
    {
        header[i] = magic[i];
    }
    header[5] = VERSION;
    header[6] = mode;
    for i in 0..SALT_LEN
        invariant
            header@.len() == HEADER_LEN,
            forall|k: int| 0 <= k < 5 ==> header@[k] == MAGIC@[k],
            header@[5] == VERSION,
            header@[6] == mode,
            forall|k: int| 0 <= k < i ==> header@[7 + k] == salt@[k],
    {
        header[7 + i] = salt[i];
    }
    for i in 0..NONCE_LEN
        invariant
            header@.len() == HEADER_LEN,
            forall|k: int| 0 <= k < 5 ==> header@[k] == MAGIC@[k],
            header@[5] == VERSION,
            header@[6] == mode,
            forall|k: int| 0 <= k < SALT_LEN ==> header@[7 + k] == salt@[k],
            forall|k: int| 0 <= k < i ==> header@[23 + k] == nonce@[k],
    {
        header[23 + i] = nonce[i];
    }
    assert(header@ =~= header_spec(mode, salt@, nonce@));
    header
}

fn parse_header(blob: &[u8]) -> (r: BxResult<Header>)
    ensures
        match parse_header_spec(blob@) {
            None => r matches Err(BxError::Decrypt),
            Some((mode, salt, nonce)) => r matches Ok(h) && h.mode == mode && h.salt@ == salt
                && h.nonce@ == nonce && h.bytes@ == blob@.subrange(0, HEADER_LEN as int),
        },
{
    if blob.len() < HEADER_LEN + TAG_LEN {
        return Err(BxError::Decrypt);
    }
    let magic = MAGIC;
    for i in 0..5
        invariant
            blob@.len() >= HEADER_LEN + TAG_LEN,
            magic == MAGIC,
            forall|k: int| 0 <= k < i ==> blob@[k] == MAGIC@[k],
    {
        if blob[i] != magic[i] {
            assert(blob@.subrange(0, 5)[i as int] != MAGIC@[i as int]);
            return Err(BxError::Decrypt);
        }
    }
    assert(blob@.subrange(0, 5) =~= MAGIC@);
    if blob[5] != VERSION {
        return Err(BxError::Decrypt);
    }
    let mode = blob[6];
    if !(mode == MODE_PASSWORD || mode == MODE_KEYFILE) {
        return Err(BxError::Decrypt);
    }
    let mut bytes = [0u8; HEADER_LEN];
    for i in 0..HEADER_LEN
        invariant
            blob@.len() >= HEADER_LEN + TAG_LEN,
            bytes@.len() == HEADER_LEN,
            forall|k: int| 0 <= k < i ==> bytes@[k] == blob@[k],
    {
        bytes[i] = blob[i];
    }
    let mut salt = [0u8; SALT_LEN];
    for i in 0..SALT_LEN
        invariant
            blob@.len() >= HEADER_LEN + TAG_LEN,
            salt@.len() == SALT_LEN,
            forall|k: int| 0 <= k < i ==> salt@[k] == blob@[7 + k],
    {
        salt[i] = blob[7 + i];
    }
    let mut nonce = [0u8; NONCE_LEN];
    for i in 0..NONCE_LEN
        invariant
            blob@.len() >= HEADER_LEN + TAG_LEN,
            nonce@.len() == NONCE_LEN,
            forall|k: int| 0 <= k < i ==> nonce@[k] == blob@[23 + k],
    {
        nonce[i] = blob[23 + i];
    }
    assert(bytes@ =~= blob@.subrange(0, HEADER_LEN as int));
    assert(salt@ =~= blob@.subrange(7, 23));
    assert(nonce@ =~= blob@.subrange(23, 47));
    Ok(Header { mode, salt, nonce, bytes })
}

/// The associated data: the header bytes followed by the entry AAD.
fn aad_from_header(header: &[u8; HEADER_LEN], entry_aad: &[u8]) -> (aad: Vec<u8>)
    ensures
        aad@ == header@ + entry_aad@,
{
    let mut aad: Vec<u8> = Vec::new();
    aad.extend_from_slice(header.as_slice());
    aad.extend_from_slice(entry_aad);
    assert(aad@ =~= header@ + entry_aad@);
    aad
}

/// The mode byte and key of a credential under `salt`.
fn key_from_credential(credential: Credential<'_>, salt: &[u8; SALT_LEN]) -> (r: BxResult<(u8, [u8; kdf::KEY_LEN])>)
    ensures
        credential_usable(credential) ==> (r matches Ok((mode, key)) && mode == mode_of(credential)
            && key@ == credential_key(credential, salt@)->0),
        !credential_usable(credential) ==> r matches Err(BxError::Kdf(_)),
{
    match credential {
        Credential::Password(password) => {
            let key = derive_key(password, salt)?;
            Ok((MODE_PASSWORD, key))
        },
        Credential::Keyfile(keyfile) => {
            let key: [u8; kdf::KEY_LEN] = *keyfile;
            Ok((MODE_KEYFILE, key))
        },
    }
}

/// Encrypts `plaintext` with XChaCha20-Poly1305 under the given salt and nonce,
/// binding the header and `entry_aad` to the ciphertext.
///
/// Succeeds exactly when the credential yields a key under `salt` and the plaintext
/// is shorter than `64 * u32::MAX` bytes; the blob is then the sealed blob, and
/// [`decrypt`] with the same credential and `entry_aad` gives the plaintext back.
/// The key is wiped once the ciphertext is made.
pub fn encrypt_with(
    credential: Credential<'_>,
    plaintext: &[u8],
    entry_aad: &[u8],
    salt: &[u8; SALT_LEN],
    nonce: &[u8; NONCE_LEN],
) -> (r: BxResult<Vec<u8>>)
    ensures
        credential_usable(credential) && plaintext_accepted(plaintext@) ==> (r matches Ok(blob)
            && blob@ == sealed_blob(credential, plaintext@, entry_aad@, salt@, nonce@)
            && blob@.len() == HEADER_LEN + plaintext@.len() + TAG_LEN && decrypt_spec(
            credential,
            blob@,
            entry_aad@,
        ) == Ok::<Seq<u8>, DecryptFailure>(plaintext@)),
        !credential_usable(credential) ==> r matches Err(BxError::Kdf(_)),
        credential_usable(credential) && !plaintext_accepted(plaintext@) ==> r matches Err(
            BxError::Encrypt(_),
        ),
{
    let (mode, mut key) = key_from_credential(credential, salt)?;
    let header = build_header(mode, salt, nonce);
    let aad = aad_from_header(&header, entry_aad);
    let sealed = aead_seal(&key, nonce, plaintext, aad.as_slice());
    wipe(&mut key);
    let ciphertext = match sealed {
        Ok(ciphertext) => ciphertext,
        Err(message) => return Err(BxError::Encrypt(message)),
    };
    let mut out: Vec<u8> = Vec::new();
    out.extend_from_slice(header.as_slice());
    out.extend_from_slice(ciphertext.as_slice());
    proof {
        let h = header_spec(mode, salt@, nonce@);
        assert(out@ =~= h + ciphertext@);
        assert(out@.subrange(0, 5) =~= MAGIC@);
        assert(out@.subrange(7, 23) =~= salt@);
        assert(out@.subrange(23, 47) =~= nonce@);
        assert(out@.subrange(0, HEADER_LEN as int) =~= h);
        assert(out@.subrange(HEADER_LEN as int, out@.len() as int) =~= ciphertext@);
        assert(parse_header_spec(out@) == Some((mode, salt@, nonce@)));
    }
    Ok(out)
}

/// Encrypts `plaintext` with XChaCha20-Poly1305 under a fresh random nonce (and,
/// for a password, a fresh random salt for Argon2id; for a keyfile, a zero salt),
/// binding the header and `entry_aad` to the ciphertext.
///
/// `entry_aad` binds a vault entry ID, the vault metadata label, or nothing for
/// ad-hoc files. A blob that comes back is an encryption of the plaintext, and
/// [`decrypt`] with the same credential and `entry_aad` gives the plaintext back.
/// It fails with a key-derivation error where Argon2id refuses the password, with
/// an encryption error where the plaintext is `64 * u32::MAX` bytes or longer, and
/// with an encryption error where the operating system supplies no random bytes;
/// in no other case.
pub fn encrypt(credential: Credential<'_>, plaintext: &[u8], entry_aad: &[u8]) -> (r: BxResult<Vec<u8>>)
    ensures
        r matches Ok(blob) ==> is_encryption_of(credential, plaintext@, entry_aad@, blob@)
            && blob@.len() == HEADER_LEN + plaintext@.len() + TAG_LEN && decrypt_spec(
            credential,
            blob@,
            entry_aad@,
        ) == Ok::<Seq<u8>, DecryptFailure>(plaintext@),
        r is Ok ==> credential_usable(credential) && plaintext_accepted(plaintext@),
        credential_usable(credential) && plaintext_accepted(plaintext@) ==> r is Ok || r matches Err(
            BxError::Encrypt(_),
        ),
        credential_usable(credential) && plaintext_accepted(plaintext@) ==> r is Ok || (r matches Err(
            BxError::Encrypt(m),
        ) && is_random_failure(m@)),
        !credential_usable(credential) ==> r matches Err(BxError::Kdf(_)) || r matches Err(
            BxError::Encrypt(_),
        ),
        !credential_usable(credential) ==> r matches Err(BxError::Kdf(_)) || (r matches Err(
            BxError::Encrypt(m),
        ) && is_random_failure(m@)),
        credential_usable(credential) && !plaintext_accepted(plaintext@) ==> r matches Err(
            BxError::Encrypt(_),
        ),
{
    let nonce: [u8; NONCE_LEN] = match draw_random() {
        Ok(bytes) => bytes,
        Err(message) => return Err(BxError::Encrypt(message)),
    };
    let salt: [u8; SALT_LEN] = match credential {
        Credential::Password(_) => match draw_random() {
            Ok(bytes) => bytes,
            Err(message) => return Err(BxError::Encrypt(message)),
        },
        Credential::Keyfile(_) => [0u8; SALT_LEN],
    };
    let r = encrypt_with(credential, plaintext, entry_aad, &salt, &nonce);
    proof {
        assert(credential is Keyfile ==> salt@ =~= Seq::new(SALT_LEN as nat, |i: int| 0u8));
        if r is Ok {
            assert(r->Ok_0@ == sealed_blob(credential, plaintext@, entry_aad@, salt@, nonce@));
        }
    }
    r
}

/// Decrypts a blob produced by [`encrypt`].
///
/// Fails with [`BxError::Decrypt`] where the header is malformed, where the
/// credential is of the other kind than the blob's mode, or where authentication
/// fails (wrong key, tampering, other entry AAD); with a key-derivation error where
/// Argon2id refuses the password. The key is wiped once it has been used.
pub fn decrypt(credential: Credential<'_>, blob: &[u8], entry_aad: &[u8]) -> (r: BxResult<Vec<u8>>)
    ensures
        reports_decryption(r, decrypt_spec(credential, blob@, entry_aad@)),
{
    let header = parse_header(blob)?;
    let mut key: [u8; kdf::KEY_LEN] = match (header.mode, credential) {
        (MODE_PASSWORD, Credential::Password(password)) => derive_key(password, &header.salt)?,
        (MODE_KEYFILE, Credential::Keyfile(keyfile)) => *keyfile,
        _ => return Err(BxError::Decrypt),
    };
    let aad = aad_from_header(&header.bytes, entry_aad);
    let ciphertext = slice_from(blob, HEADER_LEN);
    let opened = aead_open(&key, &header.nonce, ciphertext, aad.as_slice());
    wipe(&mut key);
    match opened {
        Some(plaintext) => Ok(plaintext),
        None => Err(BxError::Decrypt),
    }
}

/// `s[from..]`.
fn slice_from(s: &[u8], from: usize) -> (t: &[u8])
    requires
        from <= s@.len(),
    ensures
        t@ == s@.subrange(from as int, s@.len() as int),
{
    vstd::slice::slice_subrange(s, from, s.len())
}

} // verus!
