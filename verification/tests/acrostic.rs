use bxenc::stego::acrostic::{decode, encode, MAX_INPUT_BYTES};
use bxenc::{BxError, BxResult};

fn carrier(word_count: usize) -> String {
    (0..word_count)
        .map(|index| format!("word{index}"))
        .collect::<Vec<_>>()
        .join(" ")
}

#[test]
fn roundtrip_within_limit() -> BxResult<()> {
    let input = b"tiny encrypted blob";
    let encoded = encode(input, &carrier((input.len() + 4) * 8))?;
    let decoded = decode(&encoded)?;

    assert_eq!(decoded, input);
    Ok(())
}

#[test]
fn exactly_256_bytes_succeeds() -> BxResult<()> {
    let input = [3u8; MAX_INPUT_BYTES];
    let encoded = encode(&input, &carrier((input.len() + 4) * 8))?;
    let decoded = decode(&encoded)?;

    assert_eq!(decoded, input);
    Ok(())
}

#[test]
fn two_hundred_fifty_seven_bytes_returns_error() {
    let input = [3u8; MAX_INPUT_BYTES + 1];
    let result = encode(&input, &carrier((input.len() + 4) * 8));

    assert!(matches!(result, Err(BxError::AcrosticInputTooLarge(257))));
}

#[test]
fn carrier_too_short_returns_error() {
    let result = encode(b"abc", &carrier(3));

    assert!(matches!(
        result,
        Err(BxError::CarrierTooShort { need: 56, have: 3 })
    ));
}

#[test]
fn acrostic_non_wrapped_input_returns_error() {
    let result = decode("plain carrier text only");

    assert!(matches!(result, Err(BxError::StegoExtract(_))));
}

#[test]
fn encoding_sets_first_letter_case_and_joins_with_single_spaces() -> BxResult<()> {
    // 40 words: 32 header bits for length 1, then the bits of 0x81
    let words: Vec<String> = (0..41).map(|i| format!("1a{i}")).collect();
    let carrier = words.join(" \t\n ");
    let encoded = encode(&[0x81], &carrier)?;
    let out: Vec<&str> = encoded.split(' ').collect();
    assert_eq!(out.len(), 41);
    // the length header 1: bit 7 of the first byte is set
    assert_eq!(out[7], "1A7");
    assert_eq!(out[0], "1a0");
    // payload byte 0x81 = 1000_0001
    assert_eq!(out[32], "1A32");
    assert_eq!(out[33], "1a33");
    assert_eq!(out[39], "1A39");
    // words beyond the bits are kept as they were
    assert_eq!(out[40], "1a40");
    assert_eq!(decode(&encoded)?, vec![0x81]);
    Ok(())
}

#[test]
fn unicode_whitespace_separates_words() -> BxResult<()> {
    let words: Vec<String> = (0..48).map(|i| format!("w{i}")).collect();
    let carrier = words.join("\u{3000}");
    let encoded = encode(b"x", &carrier)?;
    assert_eq!(decode(&encoded)?, b"x");
    Ok(())
}

#[test]
fn word_without_letter_is_reported() {
    match decode("abc 123") {
        Err(BxError::StegoExtract(message)) => {
            assert_eq!(message, "acrostic carrier word has no ASCII letter")
        }
        other => panic!("unexpected result {other:?}"),
    }
}
