//! Whitespace steganography: each bit of the framed payload becomes a tab (1)
//! or a space (0). The overhead is eight characters per byte.
use vstd::prelude::*;
use crate::error::{BxError, BxResult};
use crate::text::{push_char, string_of};
use crate::stego::{
    decode_framed_bits, frame_len, framed_bits, framed_payload_bits, lemma_unframe_framed,
    reports_bytes, unframe_text,
};

verus! {

/// The character that carries one bit: a tab for 1, a space for 0.
pub open spec fn bit_char(bit: bool) -> char {
    if bit {
        '\t'
    } else {
        ' '
    }
}

/// The whitespace text that hides `payload`.
pub open spec fn encode_spec(payload: Seq<u8>) -> Seq<char> {
    let bits = framed_bits(payload);
    Seq::new(bits.len(), |i: int| bit_char(bits[i]))
}

/// The bits carried by the bytes of a whitespace text, or `None` where a byte is
/// neither a space nor a tab.
pub open spec fn bits_of_text(bytes: Seq<u8>) -> Option<Seq<bool>> {
    if forall|i: int| 0 <= i < bytes.len() ==> #[trigger] bytes[i] == 0x20u8 || bytes[i] == 0x09u8 {
        Some(Seq::new(bytes.len(), |i: int| bytes[i] == 0x09u8))
    } else {
        None
    }
}

pub open spec fn non_stego_message() -> Seq<char> {
    "whitespace input contains non-stego bytes"@
}

/// The payload hidden in a text whose UTF-8 bytes are `bytes`, or the text of the error.
pub open spec fn decode_spec(bytes: Seq<u8>) -> Result<Seq<u8>, Seq<char>> {
    match bits_of_text(bytes) {
        None => Err(non_stego_message()),
        Some(bits) => unframe_text(bits),
    }
}

/// Hides `input` as a run of spaces and tabs, one per bit of its frame. It
/// succeeds on a payload of any size whose frame's bits can be counted in a
/// `usize` (see [`crate::stego::fits_frame`]).
pub fn encode(input: &[u8]) -> (r: BxResult<String>)
    requires
        8 * frame_len(input@.len()) <= usize::MAX,
    ensures
        r matches Ok(text) && text@ == encode_spec(input@),
        r matches Ok(text) && text@.len() == 8 * frame_len(input@.len()),
{
    let mut output = String::new();
    let bits = framed_payload_bits(input);
    let n = bits.len();
    for i in 0..n
        invariant
            n == bits@.len(),
            output@ == Seq::new(i as nat, |k: int| bit_char(bits@[k])),
    {
        push_char(&mut output, if bits[i] { '\t' } else { ' ' });
        assert(output@ =~= Seq::new((i + 1) as nat, |k: int| bit_char(bits@[k])));
    }
    assert(output@ =~= encode_spec(input@));
    Ok(output)
}

/// Recovers the payload hidden by [`encode`]. Fails where a byte of `input` is
/// neither a space nor a tab, or where the bits do not hold a complete frame.
pub fn decode(input: &str) -> (r: BxResult<Vec<u8>>)
    ensures
        reports_bytes(r, decode_spec(vstd::utf8::encode_utf8(input@))),
{
    let bytes = input.as_bytes();
    let n = bytes.len();
    let mut bits: Vec<bool> = Vec::new();
    for i in 0..n
        invariant
            n == bytes@.len(),
            bytes@ == vstd::utf8::encode_utf8(input@),
            bits@.len() == i,
            forall|k: int| 0 <= k < i ==> #[trigger] bytes@[k] == 0x20u8 || bytes@[k] == 0x09u8,
            forall|k: int| 0 <= k < i ==> #[trigger] bits@[k] == (bytes@[k] == 0x09u8),
    {
        let byte = bytes[i];
        if byte == 0x20u8 {
            bits.push(false);
        } else if byte == 0x09u8 {
            bits.push(true);
        } else {
            assert(bits_of_text(bytes@) is None);
            return Err(BxError::StegoExtract(string_of("whitespace input contains non-stego bytes")));
        }
    }
    assert(bits@ =~= Seq::new(bytes@.len(), |k: int| bytes@[k] == 0x09u8));
    decode_framed_bits(bits.as_slice())
}

/// Decoding the text that [`encode`] produces gives back the payload.
pub proof fn lemma_whitespace_roundtrip(payload: Seq<u8>)
    requires
        8 * frame_len(payload.len()) <= usize::MAX,
    ensures
        decode_spec(vstd::utf8::encode_utf8(encode_spec(payload))) == Ok::<Seq<u8>, Seq<char>>(
            payload,
        ),
{
    let text = encode_spec(payload);
    let bits = framed_bits(payload);
    assert(vstd::utf8::is_ascii_chars(text));
    vstd::utf8::is_ascii_chars_encode_utf8(text);
    let bytes = vstd::utf8::encode_utf8(text);
    assert forall|i: int| 0 <= i < bytes.len() implies #[trigger] bytes[i] == 0x20u8 || bytes[i]
        == 0x09u8 by {
        assert(text[i] as u8 == bytes[i]);
    }
    assert(bits_of_text(bytes) == Some(bits)) by {
        assert forall|i: int| 0 <= i < bytes.len() implies (bytes[i] == 0x09u8) == bits[i] by {
            assert(text[i] as u8 == bytes[i]);
        }
        assert(Seq::new(bytes.len(), |i: int| bytes[i] == 0x09u8) =~= bits);
    }
    lemma_unframe_framed(payload, Seq::empty());
    assert(bits + Seq::<bool>::empty() =~= bits);
}

} // verus!
