//! What the command handlers decide between reading their inputs and writing
//! their results.
use vstd::prelude::*;
use crate::cli::args::StegoMode;
use crate::crypto::kdf::KEY_LEN;
use crate::error::{io_error_invalid_input, BxError, BxResult};
use crate::stego::{acrostic, frame_len, reports_bytes, whitespace};
use crate::text::chars_of;

verus! {

/// An I/O error of kind `InvalidInput` carrying `message`.
pub fn invalid_input(message: &str) -> (e: BxError)
    ensures
        e is Io,
{
    BxError::Io(io_error_invalid_input(message))
}

/// Hides `input` by the chosen method: as whitespace, or in the letter case of the
/// carrier text's words; an invalid-input error for the acrostic method without a
/// carrier.
pub fn wrap(mode: StegoMode, input: &[u8], carrier: Option<&str>) -> (r: BxResult<String>)
    requires
        8 * frame_len(input@.len()) <= usize::MAX,
    ensures
        mode == StegoMode::Whitespace ==> (r matches Ok(text) && text@ == whitespace::encode_spec(
            input@,
        )),
        mode == StegoMode::Acrostic && carrier is None ==> r matches Err(BxError::Io(_)),
        mode == StegoMode::Acrostic && carrier is Some ==> acrostic::reports_encoding(
            r,
            acrostic::encode_spec(input@, carrier->0@),
        ),
{
    match mode {
        StegoMode::Whitespace => whitespace::encode(input),
        StegoMode::Acrostic => match carrier {
            Some(text) => acrostic::encode(input, text),
            None => Err(invalid_input("--carrier is required for acrostic mode")),
        },
    }
}

/// Recovers a hidden payload by the chosen method.
pub fn unwrap(mode: StegoMode, input: &str) -> (r: BxResult<Vec<u8>>)
    ensures
        mode == StegoMode::Whitespace ==> reports_bytes(
            r,
            whitespace::decode_spec(vstd::utf8::encode_utf8(input@)),
        ),
        mode == StegoMode::Acrostic ==> reports_bytes(r, acrostic::decode_spec(input@)),
{
    match mode {
        StegoMode::Whitespace => whitespace::decode(input),
        StegoMode::Acrostic => acrostic::decode(input),
    }
}

/// What `vault add` adds: a file, or text read from standard input under a name.
#[derive(Debug)]
pub enum AddSource {
    File(String),
    Text(String),
}

/// Chooses what `vault add` adds: `--file <path>` alone, or `--text <name>` with
/// `--stdin`; an invalid-input error for any other combination.
pub fn add_source(file: Option<String>, text: Option<String>, stdin: bool) -> (r: BxResult<AddSource>)
    ensures
        file is Some && text is None && !stdin ==> r == Ok::<AddSource, BxError>(
            AddSource::File(file->0),
        ),
        file is None && text is Some && stdin ==> r == Ok::<AddSource, BxError>(
            AddSource::Text(text->0),
        ),
        !((file is Some && text is None && !stdin) || (file is None && text is Some && stdin))
            ==> r matches Err(BxError::Io(_)),
{
    match (file, text, stdin) {
        (Some(path), None, false) => Ok(AddSource::File(path)),
        (None, Some(name), true) => Ok(AddSource::Text(name)),
        _ => Err(invalid_input("vault add requires either --file <path> or --text <name> --stdin")),
    }
}

/// The key held by a keyfile's bytes; an invalid-keyfile error, with the length,
/// unless there are exactly 32 of them.
pub fn keyfile_from_bytes(bytes: &[u8]) -> (r: BxResult<[u8; KEY_LEN]>)
    ensures
        bytes@.len() == KEY_LEN ==> (r matches Ok(key) && key@ == bytes@),
        bytes@.len() != KEY_LEN ==> (r matches Err(BxError::InvalidKeyfile(n)) && n
            == bytes@.len()),
{
    if bytes.len() != KEY_LEN {
        return Err(BxError::InvalidKeyfile(bytes.len()));
    }
    let mut key = [0u8; KEY_LEN];
    for i in 0..KEY_LEN
        invariant
            bytes@.len() == KEY_LEN,
            key@.len() == KEY_LEN,
            forall|k: int| 0 <= k < i ==> key@[k] == bytes@[k],
    {
        key[i] = bytes[i];
    }
    assert(key@ =~= bytes@);
    Ok(key)
}

/// Accepts a new password only when its confirmation is the same text; an
/// invalid-input error otherwise.
pub fn confirm_password(password: String, confirmation: &str) -> (r: BxResult<String>)
    ensures
        password@ == confirmation@ ==> r == Ok::<String, BxError>(password),
        password@ != confirmation@ ==> r matches Err(BxError::Io(_)),
{
    let a = chars_of(password.as_str());
    let b = chars_of(confirmation);
    match crate::vault::names::compare_names(&a, &b) {
        crate::vault::names::NameOrder::Equal => Ok(password),
        _ => Err(invalid_input("passwords do not match")),
    }
}

} // verus!
