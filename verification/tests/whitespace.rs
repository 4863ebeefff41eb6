use bxenc::stego::fits_frame;
use bxenc::stego::whitespace::{decode, encode};
use bxenc::{BxError, BxResult};

#[test]
fn roundtrip_empty() -> BxResult<()> {
    let encoded = encode(b"")?;
    let decoded = decode(&encoded)?;

    assert!(decoded.is_empty());
    Ok(())
}

#[test]
fn roundtrip_arbitrary_bytes() -> BxResult<()> {
    let input = [0, 1, 2, 3, 127, 128, 254, 255];
    let encoded = encode(&input)?;
    let decoded = decode(&encoded)?;

    assert_eq!(decoded, input);
    Ok(())
}

#[test]
fn roundtrip_large_input() -> BxResult<()> {
    let input = (0..10_240)
        .map(|index| (index % 251) as u8)
        .collect::<Vec<_>>();
    let encoded = encode(&input)?;
    let decoded = decode(&encoded)?;

    assert_eq!(decoded, input);
    Ok(())
}

#[test]
fn whitespace_non_wrapped_input_returns_error() {
    let result = decode("plain text");

    assert!(matches!(result, Err(BxError::StegoExtract(_))));
}

#[test]
fn encoding_is_one_character_per_framed_bit() -> BxResult<()> {
    let encoded = encode(&[0x80])?;
    // length 1 as little-endian u32, then the byte 0x80, most significant bit first
    let expected = format!("{}{}{}{}{}", "       \t", " ".repeat(24), "\t", " ".repeat(7), "");
    assert_eq!(encoded, expected);
    assert_eq!(encoded.len(), (1 + 4) * 8);
    Ok(())
}

#[test]
fn decode_reports_truncated_stream() {
    // header announces one byte, no payload bits follow
    let text = format!("{}{}", "       \t", " ".repeat(24));
    match decode(&text) {
        Err(BxError::StegoExtract(message)) => {
            assert_eq!(message, "stego input is truncated: need 40 bits, have 32")
        }
        other => panic!("unexpected result {other:?}"),
    }
}

#[test]
fn decode_reports_short_stream() {
    match decode("\t\t ") {
        Err(BxError::StegoExtract(message)) => {
            assert_eq!(message, "stego input is too short to contain a length header")
        }
        other => panic!("unexpected result {other:?}"),
    }
}

#[test]
fn decode_reports_foreign_byte() {
    match decode(" \t x") {
        Err(BxError::StegoExtract(message)) => {
            assert_eq!(message, "whitespace input contains non-stego bytes")
        }
        other => panic!("unexpected result {other:?}"),
    }
}

#[test]
fn decode_ignores_bits_after_the_payload() -> BxResult<()> {
    let mut encoded = encode(b"ok")?;
    encoded.push_str("\t \t");
    assert_eq!(decode(&encoded)?, b"ok");
    Ok(())
}

fn whitespace_of(bytes: &[u8]) -> String {
    let mut text = String::new();
    for byte in bytes {
        for offset in 0..8 {
            text.push(if byte & (0x80 >> offset) != 0 { '\t' } else { ' ' });
        }
    }
    text
}

#[test]
fn decode_reads_a_long_length_header() -> BxResult<()> {
    let text = whitespace_of(&[0xff, 0xff, 0xff, 0xff, 2, 0, 0, 0, 0, 0, 0, 0, b'h', b'i']);
    assert_eq!(decode(&text)?, b"hi");
    Ok(())
}

#[test]
fn decode_reports_a_cut_long_header() {
    let text = whitespace_of(&[0xff, 0xff, 0xff, 0xff, 2, 0, 0]);
    match decode(&text) {
        Err(BxError::StegoExtract(message)) => {
            assert_eq!(message, "stego input is too short to contain a length header")
        }
        other => panic!("unexpected result {other:?}"),
    }
}

#[test]
fn decode_reports_an_overflowing_long_header() {
    let text = whitespace_of(&[0xff; 12]);
    match decode(&text) {
        Err(BxError::StegoExtract(message)) => {
            assert_eq!(message, "stego length header overflows")
        }
        other => panic!("unexpected result {other:?}"),
    }
}

#[test]
fn frame_size_check_counts_the_header() {
    assert!(fits_frame(0));
    assert!(fits_frame(1 << 20));
    assert!(fits_frame(usize::MAX / 8 - 12));
    assert!(!fits_frame(usize::MAX / 8 - 11));
    assert!(!fits_frame(usize::MAX));
}
