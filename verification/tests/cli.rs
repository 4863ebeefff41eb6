use bxenc::cli::args::{
    path_is_dash, Command, DecryptArgs, EncryptArgs, KeygenArgs, StegoArgs, StegoCommand,
    StegoMode, StegoUnwrapArgs, StegoWrapArgs, VaultArgs, VaultCommand, VaultListArgs,
};
use bxenc::cli::banner::{loading_line, loading_line_at};
use bxenc::cli::commands::{
    add_source, confirm_password, invalid_input, keyfile_from_bytes, unwrap, wrap, AddSource,
};
use bxenc::{BxError, BxResult};

#[test]
fn dash_means_standard_stream() {
    assert!(path_is_dash("-"));
    assert!(!path_is_dash("--"));
    assert!(!path_is_dash(""));
    assert!(!path_is_dash("./-"));
}

#[test]
fn commands_that_write_stdout() {
    let decrypt_to = |out: &str| {
        Command::Decrypt(DecryptArgs {
            input: "in".to_string(),
            output: out.to_string(),
            keyfile: None,
            base64: false,
        })
    };
    assert!(decrypt_to("-").writes_stdout());
    assert!(!decrypt_to("file").writes_stdout());
    let list = Command::Vault(VaultArgs {
        command: VaultCommand::List(VaultListArgs {
            path: "v".to_string(),
            keyfile: None,
        }),
    });
    assert!(list.writes_stdout());
    let unwrap_to = |out: &str| {
        Command::Stego(StegoArgs {
            command: StegoCommand::Unwrap(StegoUnwrapArgs {
                mode: StegoMode::Whitespace,
                input: "in".to_string(),
                output: out.to_string(),
            }),
        })
    };
    assert!(unwrap_to("-").writes_stdout());
    assert!(!unwrap_to("x").writes_stdout());
    let wrap_to_dash = Command::Stego(StegoArgs {
        command: StegoCommand::Wrap(StegoWrapArgs {
            mode: StegoMode::Whitespace,
            input: "in".to_string(),
            carrier: None,
            output: "-".to_string(),
        }),
    });
    assert!(!wrap_to_dash.writes_stdout());
    let encrypt_to_dash = Command::Encrypt(EncryptArgs {
        input: "-".to_string(),
        output: "-".to_string(),
        keyfile: None,
        base64: true,
    });
    assert!(!encrypt_to_dash.writes_stdout());
    assert!(!Command::Keygen(KeygenArgs { output: "-".to_string() }).writes_stdout());
}

#[test]
fn banner_lines() {
    assert_eq!(loading_line_at(0), "loading egirl...");
    assert_eq!(loading_line_at(17), "isreal.exe finished");
    assert_eq!(loading_line_at(18), "loading egirl...");
    assert_eq!(loading_line_at(19 + 18 * 1000), "loading femboy.exe...");
    assert!(!loading_line().is_empty());
}

#[test]
fn wrap_and_unwrap_by_mode() -> BxResult<()> {
    let text = wrap(StegoMode::Whitespace, b"hi", None)?;
    assert_eq!(unwrap(StegoMode::Whitespace, &text)?, b"hi");
    let carrier = (0..48).map(|i| format!("w{i}")).collect::<Vec<_>>().join(" ");
    let text = wrap(StegoMode::Acrostic, b"h", Some(&carrier))?;
    assert_eq!(unwrap(StegoMode::Acrostic, &text)?, b"h");
    assert!(matches!(wrap(StegoMode::Acrostic, b"h", None), Err(BxError::Io(e)) if e.kind() == std::io::ErrorKind::InvalidInput));
    Ok(())
}

#[test]
fn vault_add_sources() {
    assert!(matches!(add_source(Some("f".into()), None, false), Ok(AddSource::File(p)) if p == "f"));
    assert!(matches!(add_source(None, Some("n".into()), true), Ok(AddSource::Text(n)) if n == "n"));
    assert!(matches!(add_source(None, Some("n".into()), false), Err(BxError::Io(_))));
    assert!(matches!(add_source(Some("f".into()), Some("n".into()), true), Err(BxError::Io(_))));
    assert!(matches!(add_source(None, None, false), Err(BxError::Io(_))));
}

#[test]
fn keyfiles_must_hold_32_bytes() {
    assert_eq!(keyfile_from_bytes(&[7u8; 32]).unwrap(), [7u8; 32]);
    assert!(matches!(keyfile_from_bytes(&[7u8; 31]), Err(BxError::InvalidKeyfile(31))));
    assert!(matches!(keyfile_from_bytes(&[]), Err(BxError::InvalidKeyfile(0))));
}

#[test]
fn passwords_must_match_their_confirmation() {
    assert_eq!(confirm_password("secret".to_string(), "secret").unwrap(), "secret");
    assert!(matches!(confirm_password("secret".to_string(), "secreT"), Err(BxError::Io(_))));
}

#[test]
fn invalid_input_is_an_io_error() {
    match invalid_input("bad") {
        BxError::Io(e) => {
            assert_eq!(e.kind(), std::io::ErrorKind::InvalidInput);
            assert_eq!(e.to_string(), "bad");
        }
        _ => panic!("expected an I/O error"),
    }
}
