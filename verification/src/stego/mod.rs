//! Steganographic layers that hide a byte payload, and the length-framed bit
//! stream they share.
//!
//! A payload is framed as its length followed by its bytes, and the frame is
//! turned into bits, most significant bit of each byte first. A length below
//! `0xFFFF_FFFF` is written as four little-endian bytes; a longer one as the
//! four bytes `FF FF FF FF` followed by eight little-endian bytes, so that a
//! payload of any size can be framed.
pub mod acrostic;
pub mod whitespace;

use vstd::prelude::*;
use crate::error::{BxError, BxResult};
use crate::text::{decimal, push_decimal, push_str, string_of};

verus! {

/// Bit `i` (0 = most significant) of the byte `b`.
pub open spec fn byte_bit(b: u8, i: int) -> bool {
    b & (0x80u8 >> (i as u8)) != 0
}

/// The bits of `bytes`, eight per byte, most significant first.
pub open spec fn bits_of_bytes(bytes: Seq<u8>) -> Seq<bool> {
    Seq::new(bytes.len() * 8, |k: int| byte_bit(bytes[k / 8], k % 8))
}

/// The byte whose bits, most significant first, are `s[start..start + 8]`.
pub open spec fn byte_of_bits(s: Seq<bool>, start: int) -> u8 {
    (if s[start] { 0x80u8 } else { 0u8 }) | (if s[start + 1] { 0x40u8 } else { 0u8 }) | (if s[
        start + 2
    ] {
        0x20u8
    } else {
        0u8
    }) | (if s[start + 3] { 0x10u8 } else { 0u8 }) | (if s[start + 4] { 0x08u8 } else { 0u8 }) | (
    if s[start + 5] {
        0x04u8
    } else {
        0u8
    }) | (if s[start + 6] { 0x02u8 } else { 0u8 }) | (if s[start + 7] { 0x01u8 } else { 0u8 })
}

/// The bytes whose bits are `bits` (of a length divisible by 8).
pub open spec fn bytes_of_bits(bits: Seq<bool>) -> Seq<u8> {
    Seq::new(bits.len() / 8, |j: int| byte_of_bits(bits, 8 * j))
}

/// The four little-endian bytes of `n < 2^32`.
pub open spec fn le_u32_bytes(n: nat) -> Seq<u8> {
    seq![
        (n % 256) as u8,
        ((n / 256) % 256) as u8,
        ((n / 65536) % 256) as u8,
        ((n / 16777216) % 256) as u8,
    ]
}

/// The number whose little-endian bytes are `b[0..4]`.
pub open spec fn le_u32_value(b: Seq<u8>) -> nat {
    (b[0] + 256 * b[1] + 65536 * b[2] + 16777216 * b[3]) as nat
}

/// The eight little-endian bytes of `n < 2^64`.
pub open spec fn le_u64_bytes(n: nat) -> Seq<u8> {
    le_u32_bytes(n % 0x1_0000_0000) + le_u32_bytes(n / 0x1_0000_0000)
}

/// The number whose little-endian bytes are `b[0..8]`.
pub open spec fn le_u64_value(b: Seq<u8>) -> nat {
    le_u32_value(b) + 0x1_0000_0000 * le_u32_value(b.subrange(4, 8))
}

/// The value of a short length header that announces a long one instead.
pub open spec fn long_marker() -> nat {
    0xFFFF_FFFF
}

/// The length header of a payload of `n` bytes: four little-endian bytes where
/// `n` is below the marker, else the marker followed by eight little-endian bytes.
pub open spec fn frame_header(n: nat) -> Seq<u8> {
    if n < long_marker() {
        le_u32_bytes(n)
    } else {
        le_u32_bytes(long_marker()) + le_u64_bytes(n)
    }
}

/// The number of bytes in the frame of a payload of `n` bytes.
pub open spec fn frame_len(n: nat) -> nat {
    if n < long_marker() {
        n + 4
    } else {
        n + 12
    }
}

/// The frame of a payload: its length header, then the payload.
pub open spec fn frame(payload: Seq<u8>) -> Seq<u8> {
    frame_header(payload.len()) + payload
}

/// The bits that a steganographic layer hides for `payload`.
pub open spec fn framed_bits(payload: Seq<u8>) -> Seq<bool> {
    bits_of_bytes(frame(payload))
}

/// Why a bit stream does not hold a framed payload.
pub enum FrameFailure {
    /// No room for the length header.
    TooShort,
    /// The number of bits the header asks for does not fit in a `usize`.
    Overflow,
    /// Fewer bits than the header asks for.
    Truncated { need: nat, have: nat },
}

/// The length that the short header of `bits` (at least 32 of them) announces.
pub open spec fn header_length(bits: Seq<bool>) -> nat {
    le_u32_value(bytes_of_bits(bits.subrange(0, 32)))
}

/// The short header of `bits` announces a long one.
pub open spec fn has_long_header(bits: Seq<bool>) -> bool {
    header_length(bits) == long_marker()
}

/// The length that the long header of `bits` (at least 96 of them) announces.
pub open spec fn long_header_length(bits: Seq<bool>) -> nat {
    le_u64_value(bytes_of_bits(bits.subrange(32, 96)))
}

/// The number of header bits at the start of `bits`.
pub open spec fn header_bits(bits: Seq<bool>) -> nat {
    if has_long_header(bits) {
        96
    } else {
        32
    }
}

/// The payload length that the header of `bits` announces.
pub open spec fn announced_length(bits: Seq<bool>) -> nat {
    if has_long_header(bits) {
        long_header_length(bits)
    } else {
        header_length(bits)
    }
}

/// What a framed bit stream holds: the payload, or why there is none.
/// Bits beyond the announced payload are ignored.
pub open spec fn unframe(bits: Seq<bool>) -> Result<Seq<u8>, FrameFailure> {
    if bits.len() < 32 || (has_long_header(bits) && bits.len() < 96) {
        Err(FrameFailure::TooShort)
    } else {
        let start = header_bits(bits);
        let need = start + 8 * announced_length(bits);
        if need > usize::MAX {
            Err(FrameFailure::Overflow)
        } else if bits.len() < need {
            Err(FrameFailure::Truncated { need: need as nat, have: bits.len() })
        } else {
            Ok(bytes_of_bits(bits.subrange(start as int, need as int)))
        }
    }
}

pub open spec fn too_short_message() -> Seq<char> {
    "stego input is too short to contain a length header"@
}

pub open spec fn overflow_message() -> Seq<char> {
    "stego length header overflows"@
}

pub open spec fn truncated_message(need: nat, have: nat) -> Seq<char> {
    "stego input is truncated: need "@ + decimal(need) + " bits, have "@ + decimal(have)
}

pub open spec fn unaligned_message() -> Seq<char> {
    "stego bit stream is not byte-aligned"@
}

/// The message of the extraction error that reports `f`.
pub open spec fn frame_failure_message(f: FrameFailure) -> Seq<char> {
    match f {
        FrameFailure::TooShort => too_short_message(),
        FrameFailure::Overflow => overflow_message(),
        FrameFailure::Truncated { need, have } => truncated_message(need, have),
    }
}

/// `r` is the extraction error whose message is `m`.
pub open spec fn is_extract_error<T>(r: BxResult<T>, m: Seq<char>) -> bool {
    r matches Err(BxError::StegoExtract(msg)) && msg@ == m
}

/// What a framed bit stream holds, with a failure given as the text of the
/// extraction error that reports it.
pub open spec fn unframe_text(bits: Seq<bool>) -> Result<Seq<u8>, Seq<char>> {
    match unframe(bits) {
        Ok(bytes) => Ok(bytes),
        Err(f) => Err(frame_failure_message(f)),
    }
}

/// `r` is the byte result `s` describes: the same bytes, or the extraction error
/// with the same text.
pub open spec fn reports_bytes(r: BxResult<Vec<u8>>, s: Result<Seq<u8>, Seq<char>>) -> bool {
    match s {
        Ok(bytes) => r matches Ok(v) && v@ == bytes,
        Err(m) => is_extract_error(r, m),
    }
}

/// `r` reports what `unframe` gives: the same bytes, or the matching error.
pub open spec fn matches_unframe(r: BxResult<Vec<u8>>, u: Result<Seq<u8>, FrameFailure>) -> bool {
    match u {
        Ok(bytes) => r matches Ok(v) && v@ == bytes,
        Err(f) => is_extract_error(r, frame_failure_message(f)),
    }
}

proof fn lemma_byte_roundtrip(b: u8)
    ensures
        ((if b & 0x80u8 != 0 { 0x80u8 } else { 0u8 }) | (if b & 0x40u8 != 0 { 0x40u8 } else { 0u8 })
            | (if b & 0x20u8 != 0 { 0x20u8 } else { 0u8 }) | (if b & 0x10u8 != 0 { 0x10u8 } else {
            0u8
        }) | (if b & 0x08u8 != 0 { 0x08u8 } else { 0u8 }) | (if b & 0x04u8 != 0 { 0x04u8 } else {
            0u8
        }) | (if b & 0x02u8 != 0 { 0x02u8 } else { 0u8 }) | (if b & 0x01u8 != 0 { 0x01u8 } else {
            0u8
        })) == b,
{
    assert(((if b & 0x80u8 != 0 { 0x80u8 } else { 0u8 }) | (if b & 0x40u8 != 0 { 0x40u8 } else {
        0u8
    }) | (if b & 0x20u8 != 0 { 0x20u8 } else { 0u8 }) | (if b & 0x10u8 != 0 { 0x10u8 } else { 0u8 })
        | (if b & 0x08u8 != 0 { 0x08u8 } else { 0u8 }) | (if b & 0x04u8 != 0 { 0x04u8 } else { 0u8 })
        | (if b & 0x02u8 != 0 { 0x02u8 } else { 0u8 }) | (if b & 0x01u8 != 0 { 0x01u8 } else { 0u8 }))
        == b) by (bit_vector);
}

proof fn lemma_masks()
    ensures
        0x80u8 >> 0u8 == 0x80u8,
        0x80u8 >> 1u8 == 0x40u8,
        0x80u8 >> 2u8 == 0x20u8,
        0x80u8 >> 3u8 == 0x10u8,
        0x80u8 >> 4u8 == 0x08u8,
        0x80u8 >> 5u8 == 0x04u8,
        0x80u8 >> 6u8 == 0x02u8,
        0x80u8 >> 7u8 == 0x01u8,
{
    assert(0x80u8 >> 0u8 == 0x80u8) by (bit_vector);
    assert(0x80u8 >> 1u8 == 0x40u8) by (bit_vector);
    assert(0x80u8 >> 2u8 == 0x20u8) by (bit_vector);
    assert(0x80u8 >> 3u8 == 0x10u8) by (bit_vector);
    assert(0x80u8 >> 4u8 == 0x08u8) by (bit_vector);
    assert(0x80u8 >> 5u8 == 0x04u8) by (bit_vector);
    assert(0x80u8 >> 6u8 == 0x02u8) by (bit_vector);
    assert(0x80u8 >> 7u8 == 0x01u8) by (bit_vector);
}

/// Reading the bits of one byte back gives the byte.
proof fn lemma_byte_of_byte_bits(s: Seq<bool>, start: int, b: u8)
    requires
        0 <= start,
        start + 8 <= s.len(),
        forall|k: int| 0 <= k < 8 ==> s[start + k] == byte_bit(b, k),
    ensures
        byte_of_bits(s, start) == b,
{
    lemma_masks();
    assert(s[start] == byte_bit(b, 0));
    assert(s[start + 1] == byte_bit(b, 1));
    assert(s[start + 2] == byte_bit(b, 2));
    assert(s[start + 3] == byte_bit(b, 3));
    assert(s[start + 4] == byte_bit(b, 4));
    assert(s[start + 5] == byte_bit(b, 5));
    assert(s[start + 6] == byte_bit(b, 6));
    assert(s[start + 7] == byte_bit(b, 7));
    lemma_byte_roundtrip(b);
}

proof fn lemma_div_mod_8(j: int, k: int)
    requires
        0 <= j,
        0 <= k < 8,
    ensures
        (8 * j + k) / 8 == j,
        (8 * j + k) % 8 == k,
{
    vstd::arithmetic::div_mod::lemma_fundamental_div_mod_converse(8 * j + k, 8, j, k);
}

/// Turning bytes into bits and back gives the bytes.
pub proof fn lemma_bytes_bits_roundtrip(bytes: Seq<u8>)
    ensures
        bytes_of_bits(bits_of_bytes(bytes)) == bytes,
{
    let bits = bits_of_bytes(bytes);
    assert(bits.len() / 8 == bytes.len()) by {
        lemma_div_mod_8(bytes.len() as int, 0);
    }
    assert forall|j: int| 0 <= j < bytes.len() implies #[trigger] byte_of_bits(bits, 8 * j)
        == bytes[j] by {
        assert forall|k: int| 0 <= k < 8 implies bits[8 * j + k] == byte_bit(bytes[j], k) by {
            lemma_div_mod_8(j, k);
        }
        lemma_byte_of_byte_bits(bits, 8 * j, bytes[j]);
    }
    assert(bytes_of_bits(bits) =~= bytes);
}

/// Bits taken from `bits_of_bytes` at a byte boundary are the bits of the bytes there.
proof fn lemma_bits_of_bytes_subrange(bytes: Seq<u8>, from: int, to: int)
    requires
        0 <= from <= to <= bytes.len(),
    ensures
        bits_of_bytes(bytes).subrange(8 * from, 8 * to) == bits_of_bytes(bytes.subrange(from, to)),
{
    let lhs = bits_of_bytes(bytes).subrange(8 * from, 8 * to);
    let rhs = bits_of_bytes(bytes.subrange(from, to));
    assert forall|i: int| 0 <= i < rhs.len() implies lhs[i] == rhs[i] by {
        let j = i / 8;
        let k = i % 8;
        vstd::arithmetic::div_mod::lemma_fundamental_div_mod(i, 8);
        lemma_div_mod_8(from + j, k);
    }
    assert(lhs =~= rhs);
}

proof fn lemma_le_u32_roundtrip(n: nat)
    requires
        n < 0x1_0000_0000,
    ensures
        le_u32_value(le_u32_bytes(n)) == n,
        le_u32_bytes(n).len() == 4,
{
    let b = le_u32_bytes(n);
    assert(b[0] == n % 256);
    assert(b[1] == (n / 256) % 256);
    assert(b[2] == (n / 65536) % 256);
    assert(b[3] == (n / 16777216) % 256);
    assert(le_u32_value(b) == n) by (nonlinear_arith)
        requires
            n < 0x1_0000_0000,
            b[0] == n % 256,
            b[1] == (n / 256) % 256,
            b[2] == (n / 65536) % 256,
            b[3] == (n / 16777216) % 256,
            le_u32_value(b) == (b[0] + 256 * b[1] + 65536 * b[2] + 16777216 * b[3]) as nat,
    ;
}

pub(crate) proof fn lemma_le_u64_roundtrip(n: nat)
    requires
        n < 0x1_0000_0000_0000_0000,
    ensures
        le_u64_value(le_u64_bytes(n)) == n,
        le_u64_bytes(n).len() == 8,
{
    let lo = n % 0x1_0000_0000;
    let hi = n / 0x1_0000_0000;
    vstd::arithmetic::div_mod::lemma_fundamental_div_mod(n as int, 0x1_0000_0000);
    assert(hi < 0x1_0000_0000) by {
        vstd::arithmetic::div_mod::lemma_div_by_multiple_is_strongly_ordered(
            n as int,
            0x1_0000_0000_0000_0000,
            0x1_0000_0000,
            0x1_0000_0000,
        );
    }
    lemma_le_u32_roundtrip(lo);
    lemma_le_u32_roundtrip(hi);
    let b = le_u64_bytes(n);
    assert(b.subrange(4, 8) =~= le_u32_bytes(hi));
    assert(le_u32_value(b) == le_u32_value(le_u32_bytes(lo)));
}

/// The bytes `f[from..to]`, read back from the bits of `f` and then the bits of
/// `f` followed by `extra`.
proof fn lemma_framed_bytes(f: Seq<u8>, extra: Seq<bool>, from: int, to: int)
    requires
        0 <= from <= to <= f.len(),
    ensures
        bytes_of_bits((bits_of_bytes(f) + extra).subrange(8 * from, 8 * to)) == f.subrange(
            from,
            to,
        ),
{
    let bits = bits_of_bytes(f) + extra;
    assert(bits.subrange(8 * from, 8 * to) =~= bits_of_bytes(f).subrange(8 * from, 8 * to));
    lemma_bits_of_bytes_subrange(f, from, to);
    lemma_bytes_bits_roundtrip(f.subrange(from, to));
}

/// Where the stream starts with the frame of a short payload, the header reads back.
proof fn lemma_short_header(payload: Seq<u8>, extra: Seq<bool>)
    requires
        payload.len() < long_marker(),
    ensures
        !has_long_header(framed_bits(payload) + extra),
        header_length(framed_bits(payload) + extra) == payload.len(),
{
    let f = frame(payload);
    lemma_le_u32_roundtrip(payload.len());
    lemma_framed_bytes(f, extra, 0, 4);
    assert(f.subrange(0, 4) =~= le_u32_bytes(payload.len()));
}

/// Where the stream starts with the frame of a long payload, the headers read back.
proof fn lemma_long_header(payload: Seq<u8>, extra: Seq<bool>)
    requires
        long_marker() <= payload.len() < 0x1_0000_0000_0000_0000,
    ensures
        has_long_header(framed_bits(payload) + extra),
        long_header_length(framed_bits(payload) + extra) == payload.len(),
{
    let f = frame(payload);
    lemma_le_u32_roundtrip(long_marker());
    lemma_framed_bytes(f, extra, 0, 4);
    assert(f.subrange(0, 4) =~= le_u32_bytes(long_marker()));
    lemma_le_u64_roundtrip(payload.len());
    lemma_framed_bytes(f, extra, 4, 12);
    assert(f.subrange(4, 12) =~= le_u64_bytes(payload.len()));
}

/// The frame of a payload, followed by any further bits, unframes to the payload.
#[verifier::rlimit(60)]
pub proof fn lemma_unframe_framed(payload: Seq<u8>, extra: Seq<bool>)
    requires
        8 * frame_len(payload.len()) <= usize::MAX,
    ensures
        unframe(framed_bits(payload) + extra) == Ok::<Seq<u8>, FrameFailure>(payload),
{
    let n = payload.len() as int;
    let f = frame(payload);
    let bits = framed_bits(payload) + extra;
    let h: int = if n < long_marker() {
        4
    } else {
        12
    };
    if n < long_marker() {
        lemma_short_header(payload, extra);
    } else {
        lemma_long_header(payload, extra);
    }
    assert(f.len() == h + n);
    assert(bits.len() == 8 * (h + n) + extra.len());
    assert(header_bits(bits) == 8 * h);
    assert(announced_length(bits) == n);
    lemma_framed_bytes(f, extra, h, h + n);
    assert(f.subrange(h, h + n) =~= payload);
    assert(bits.subrange(8 * h, 8 * (h + n)) == bits.subrange(
        header_bits(bits) as int,
        (header_bits(bits) + 8 * announced_length(bits)) as int,
    ));
}

/// The bits of `bytes`, most significant bit of each byte first.
pub(crate) fn bytes_to_bits(bytes: &[u8]) -> (bits: Vec<bool>)
    requires
        bytes@.len() * 8 <= usize::MAX,
    ensures
        bits@ == bits_of_bytes(bytes@),
{
    let mut bits: Vec<bool> = Vec::new();
    let n = bytes.len();
    for i in 0..n
        invariant
            n == bytes@.len(),
            n * 8 <= usize::MAX,
            bits@.len() == 8 * i,
            forall|k: int| 0 <= k < 8 * i ==> #[trigger] bits@[k] == byte_bit(bytes@[k / 8], k % 8),
    {
        let byte = bytes[i];
        for offset in 0..8u8
            invariant
                bits@.len() == 8 * i + offset,
                i < n,
                byte == bytes@[i as int],
                forall|k: int|
                    0 <= k < 8 * i + offset ==> #[trigger] bits@[k] == byte_bit(
                        bytes@[k / 8],
                        k % 8,
                    ),
        {
            proof {
                lemma_div_mod_8(i as int, offset as int);
            }
            bits.push(byte & (0x80u8 >> offset) != 0);
        }
    }
    assert(bits@ =~= bits_of_bytes(bytes@));
    bits
}

/// The bytes whose bits are `bits[start..end]`, for a range of a length divisible by 8.
fn bits_range_to_bytes(bits: &[bool], start: usize, end: usize) -> (bytes: Vec<u8>)
    requires
        start <= end <= bits@.len(),
        (end - start) % 8 == 0,
    ensures
        bytes@ == bytes_of_bits(bits@.subrange(start as int, end as int)),
{
    let ghost s = bits@.subrange(start as int, end as int);
    let count = (end - start) / 8;
    let mut bytes: Vec<u8> = Vec::new();
    for j in 0..count
        invariant
            start <= end <= bits@.len(),
            count == (end - start) / 8,
            s == bits@.subrange(start as int, end as int),
            bytes@.len() == j,
            forall|i: int| 0 <= i < j ==> #[trigger] bytes@[i] == byte_of_bits(s, 8 * i),
    {
        assert(8 * j + 8 <= end - start) by (nonlinear_arith)
            requires
                j < count,
                count == (end - start) / 8,
                end >= start,
        ;
        let base = start + 8 * j;
        let b = (if bits[base] { 0x80u8 } else { 0u8 }) | (if bits[base + 1] { 0x40u8 } else { 0u8 })
            | (if bits[base + 2] { 0x20u8 } else { 0u8 }) | (if bits[base + 3] { 0x10u8 } else { 0u8 })
            | (if bits[base + 4] { 0x08u8 } else { 0u8 }) | (if bits[base + 5] { 0x04u8 } else { 0u8 })
            | (if bits[base + 6] { 0x02u8 } else { 0u8 }) | (if bits[base + 7] { 0x01u8 } else {
            0u8
        });
        assert(b == byte_of_bits(s, 8 * j));
        bytes.push(b);
    }
    assert(bytes@ =~= bytes_of_bits(s));
    bytes
}

/// The bytes whose bits are `bits`; an extraction error where the number of bits
/// is not a multiple of 8.
pub(crate) fn bits_to_bytes(bits: &[bool]) -> (r: BxResult<Vec<u8>>)
    ensures
        bits@.len() % 8 == 0 ==> (r matches Ok(v) && v@ == bytes_of_bits(bits@)),
        bits@.len() % 8 != 0 ==> is_extract_error(r, unaligned_message()),
{
    if bits.len() % 8 != 0 {
        return Err(BxError::StegoExtract(string_of("stego bit stream is not byte-aligned")));
    }
    let v = bits_range_to_bytes(bits, 0, bits.len());
    assert(bits@.subrange(0, bits@.len() as int) =~= bits@);
    Ok(v)
}

/// Appends the four little-endian bytes of `n`.
fn push_le_u32(out: &mut Vec<u8>, n: u32)
    ensures
        final(out)@ == old(out)@ + le_u32_bytes(n as nat),
{
    out.push((n % 256) as u8);
    out.push(((n / 256) % 256) as u8);
    out.push(((n / 65536) % 256) as u8);
    out.push(((n / 16777216) % 256) as u8);
    assert(final(out)@ =~= old(out)@ + le_u32_bytes(n as nat));
}

/// The number whose little-endian bytes are `b[at..at + 4]`.
fn le_u32_at(b: &Vec<u8>, at: usize) -> (v: u64)
    requires
        at <= 4,
        at + 4 <= b@.len(),
    ensures
        v == le_u32_value(b@.subrange(at as int, at + 4)),
        v < 0x1_0000_0000,
{
    let b0: u64 = b[at] as u64;
    let b1: u64 = b[at + 1] as u64;
    let b2: u64 = b[at + 2] as u64;
    let b3: u64 = b[at + 3] as u64;
    b0 + 256 * b1 + 65536 * b2 + 16777216 * b3
}

/// The length that the long header of `bits` announces.
fn long_length(bits: &[bool]) -> (v: u64)
    requires
        96 <= bits@.len(),
    ensures
        v == long_header_length(bits@),
{
    let wide = bits_range_to_bytes(bits, 32, 96);
    let low = le_u32_at(&wide, 0);
    let high = le_u32_at(&wide, 4);
    assert(le_u32_value(wide@.subrange(0, 4)) == le_u32_value(wide@));
    assert(high * 0x1_0000_0000 <= 0xffff_ffff_0000_0000) by (nonlinear_arith)
        requires
            high < 0x1_0000_0000,
    ;
    low + high * 0x1_0000_0000
}

/// Whether a payload of `len` bytes can be framed and turned into bits whose
/// number fits in a `usize`.
pub fn fits_frame(len: usize) -> (r: bool)
    ensures
        r == (8 * frame_len(len as nat) <= usize::MAX),
{
    let header: usize = if len < 0xffff_ffffusize {
        4
    } else {
        12
    };
    match len.checked_add(header) {
        Some(total) => total.checked_mul(8).is_some(),
        None => false,
    }
}

/// The bits of the frame of `input`: its length header, then its bytes.
pub(crate) fn framed_payload_bits(input: &[u8]) -> (bits: Vec<bool>)
    requires
        8 * frame_len(input@.len()) <= usize::MAX,
    ensures
        bits@ == framed_bits(input@),
{
    let len = input.len();
    let mut framed: Vec<u8> = Vec::new();
    if len < 0xffff_ffffusize {
        push_le_u32(&mut framed, len as u32);
    } else {
        let wide = len as u64;
        push_le_u32(&mut framed, 0xffff_ffffu32);
        push_le_u32(&mut framed, (wide % 0x1_0000_0000) as u32);
        push_le_u32(&mut framed, (wide / 0x1_0000_0000) as u32);
        assert(framed@ =~= frame_header(input@.len()));
    }
    framed.extend_from_slice(input);
    assert(framed@ =~= frame(input@));
    bytes_to_bits(framed.as_slice())
}

/// The payload held by a framed bit stream; an extraction error where the stream
/// is too short for the header, where the header's bit count overflows, or where
/// the stream holds fewer bits than the header announces.
#[verifier::rlimit(40)]
pub(crate) fn decode_framed_bits(bits: &[bool]) -> (r: BxResult<Vec<u8>>)
    ensures
        matches_unframe(r, unframe(bits@)),
{
    if bits.len() < 32 {
        return Err(
            BxError::StegoExtract(
                string_of("stego input is too short to contain a length header"),
            ),
        );
    }
    let head = bits_range_to_bytes(bits, 0, 32);
    let short = le_u32_at(&head, 0);
    assert(head@.subrange(0, 4) =~= head@);
    let start: usize;
    let length: u64;
    if short < 0xffff_ffffu64 {
        start = 32;
        length = short;
    } else {
        if bits.len() < 96 {
            return Err(
                BxError::StegoExtract(
                    string_of("stego input is too short to contain a length header"),
                ),
            );
        }
        start = 96;
        length = long_length(bits);
    }
    assert(start == header_bits(bits@) && length == announced_length(bits@));
    let overflow = BxError::StegoExtract(string_of("stego length header overflows"));
    if length > usize::MAX as u64 {
        return Err(overflow);
    }
    let needed_bits = match (length as usize).checked_mul(8) {
        Some(scaled) => match start.checked_add(scaled) {
            Some(total) => total,
            None => {
                return Err(overflow);
            },
        },
        None => {
            return Err(overflow);
        },
    };
    if bits.len() < needed_bits {
        let mut message = string_of("stego input is truncated: need ");
        push_decimal(&mut message, needed_bits as u64);
        push_str(&mut message, " bits, have ");
        push_decimal(&mut message, bits.len() as u64);
        assert(message@ =~= truncated_message(needed_bits as nat, bits@.len()));
        return Err(BxError::StegoExtract(message));
    }
    let payload_bits = vstd::slice::slice_subrange(bits, start, needed_bits);
    assert(payload_bits@ =~= bits@.subrange(start as int, needed_bits as int));
    bits_to_bytes(payload_bits)
}

} // verus!
