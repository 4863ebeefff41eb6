use bxenc::adhoc::base64::{decode_base64, encode_base64};
use bxenc::adhoc::{decrypt::decrypt_bytes, encrypt::encrypt_bytes};
use bxenc::crypto::engine::Credential;
use bxenc::{BxError, BxResult};

const VECTORS: [(&str, &str); 7] = [
    ("", ""),
    ("f", "Zg=="),
    ("fo", "Zm8="),
    ("foo", "Zm9v"),
    ("foob", "Zm9vYg=="),
    ("fooba", "Zm9vYmE="),
    ("foobar", "Zm9vYmFy"),
];

#[test]
fn encodes_the_standard_vectors() {
    for (plain, text) in VECTORS {
        assert_eq!(encode_base64(plain.as_bytes()), text.as_bytes());
    }
}

#[test]
fn decodes_the_standard_vectors() -> BxResult<()> {
    for (plain, text) in VECTORS {
        assert_eq!(decode_base64(text.as_bytes())?, plain.as_bytes());
    }
    Ok(())
}

#[test]
fn uses_the_whole_alphabet() -> BxResult<()> {
    let bytes = [0x00, 0x10, 0x83, 0x10, 0x51, 0x87, 0x20, 0x92, 0x8b, 0xfb, 0xef, 0xff];
    let text = encode_base64(&bytes);
    assert_eq!(text, b"ABCDEFGHIJKL++//");
    assert_eq!(decode_base64(&text)?, bytes);
    Ok(())
}

#[test]
fn decode_ignores_trailing_blanks() -> BxResult<()> {
    assert_eq!(decode_base64(b"Zm9vYg==\r\n")?, b"foob");
    assert_eq!(decode_base64(b"Zm8= \t\n")?, b"fo");
    assert_eq!(decode_base64(b"\n")?, b"");
    Ok(())
}

#[test]
fn decode_refuses_what_is_not_base64() {
    for text in [
        &b"Zm9"[..],
        b"Zm9v!A==",
        b"Z===",
        b"====",
        b"Zm=v",
        b" Zm9v",
        b"Zm9v\nYmFy",
    ] {
        assert!(matches!(decode_base64(text), Err(BxError::Decrypt)), "{text:?}");
    }
}

#[test]
fn roundtrip_of_every_length() -> BxResult<()> {
    let data: Vec<u8> = (0..=255u8).collect();
    for len in 0..data.len() {
        let text = encode_base64(&data[..len]);
        assert_eq!(text.len(), 4 * ((len + 2) / 3));
        assert_eq!(decode_base64(&text)?, &data[..len]);
    }
    Ok(())
}

#[test]
fn encrypted_blob_travels_as_base64() -> BxResult<()> {
    let key = [42u8; 32];
    let blob = encrypt_bytes(Credential::Keyfile(&key), b"secret message")?;
    let mut text = encode_base64(&blob);
    assert!(text.iter().all(|c| c.is_ascii_alphanumeric() || b"+/=".contains(c)));
    text.push(b'\n');
    let back = decode_base64(&text)?;
    assert_eq!(back, blob);
    assert_eq!(decrypt_bytes(Credential::Keyfile(&key), &back)?, b"secret message");
    Ok(())
}
