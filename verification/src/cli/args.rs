//! The command line, as parsed: paths are kept as the text the user gave.
use vstd::prelude::*;
use crate::text::chars_of;

verus! {

/// The parsed command line.
#[derive(Debug)]
pub struct Cli {
    pub quiet: bool,
    pub command: Command,
}

#[derive(Debug)]
pub enum Command {
    Encrypt(EncryptArgs),
    Decrypt(DecryptArgs),
    Vault(VaultArgs),
    Stego(StegoArgs),
    Keygen(KeygenArgs),
}

#[derive(Debug)]
pub struct EncryptArgs {
    pub input: String,
    pub output: String,
    pub keyfile: Option<String>,
    /// Write the blob as Base64 text.
    pub base64: bool,
}

#[derive(Debug)]
pub struct DecryptArgs {
    pub input: String,
    pub output: String,
    pub keyfile: Option<String>,
    /// Read the blob as Base64 text.
    pub base64: bool,
}

#[derive(Debug)]
pub struct VaultArgs {
    pub command: VaultCommand,
}

#[derive(Debug)]
pub enum VaultCommand {
    Init(VaultInitArgs),
    Add(VaultAddArgs),
    Get(VaultGetArgs),
    Remove(VaultRemoveArgs),
    List(VaultListArgs),
}

#[derive(Debug)]
pub struct VaultInitArgs {
    pub path: String,
    pub name: String,
    pub keyfile: Option<String>,
}

#[derive(Debug)]
pub struct VaultAddArgs {
    pub path: String,
    pub file: Option<String>,
    pub text: Option<String>,
    pub stdin: bool,
    pub keyfile: Option<String>,
}

#[derive(Debug)]
pub struct VaultGetArgs {
    pub path: String,
    pub name: String,
    pub output: String,
    pub keyfile: Option<String>,
}

#[derive(Debug)]
pub struct VaultRemoveArgs {
    pub path: String,
    pub name: String,
    pub keyfile: Option<String>,
}

#[derive(Debug)]
pub struct VaultListArgs {
    pub path: String,
    pub keyfile: Option<String>,
}

#[derive(Debug)]
pub struct StegoArgs {
    pub command: StegoCommand,
}

#[derive(Debug)]
pub enum StegoCommand {
    Wrap(StegoWrapArgs),
    Unwrap(StegoUnwrapArgs),
}

#[derive(Clone, Copy, Debug, PartialEq, Eq, Structural)]
pub enum StegoMode {
    Whitespace,
    Acrostic,
}

#[derive(Debug)]
pub struct StegoWrapArgs {
    pub mode: StegoMode,
    pub input: String,
    pub carrier: Option<String>,
    pub output: String,
}

#[derive(Debug)]
pub struct StegoUnwrapArgs {
    pub mode: StegoMode,
    pub input: String,
    pub output: String,
}

#[derive(Debug)]
pub struct KeygenArgs {
    pub output: String,
}

/// The path `-`, which stands for standard input or output.
pub open spec fn is_dash_spec(path: Seq<char>) -> bool {
    path == seq!['-']
}

/// Whether `path` is `-`.
pub fn path_is_dash(path: &str) -> (b: bool)
    ensures
        b == is_dash_spec(path@),
{
    let chars = chars_of(path);
    if chars.len() != 1 {
        return false;
    }
    let dash = chars[0] == '-';
    assert(dash ==> chars@ =~= seq!['-']);
    dash
}

/// Whether a command writes its result to standard output.
pub open spec fn writes_stdout_spec(c: Command) -> bool {
    match c {
        Command::Decrypt(args) => is_dash_spec(args.output@),
        Command::Vault(VaultArgs { command: VaultCommand::List(_) }) => true,
        Command::Stego(StegoArgs { command: StegoCommand::Unwrap(args) }) => is_dash_spec(args.output@),
        _ => false,
    }
}

impl Command {
    /// Whether the command writes its result to standard output: `decrypt` and
    /// `stego unwrap` with the output `-`, and `vault list`. (The banner is not
    /// printed for these.)
    pub fn writes_stdout(&self) -> (b: bool)
        ensures
            b == writes_stdout_spec(*self),
    {
        match self {
            Command::Decrypt(args) => path_is_dash(args.output.as_str()),
            Command::Vault(VaultArgs { command: VaultCommand::List(_) }) => true,
            Command::Stego(StegoArgs { command: StegoCommand::Unwrap(args) }) => path_is_dash(
                args.output.as_str(),
            ),
            _ => false,
        }
    }
}

} // verus!
