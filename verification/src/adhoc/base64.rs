//! Base64 text for a blob, for carrying it through channels that take text: the
//! standard alphabet (`A`-`Z`, `a`-`z`, `0`-`9`, `+`, `/`) with `=` padding.
use vstd::prelude::*;
use crate::error::{BxError, BxResult};

verus! {

/// The padding character `=`.
pub const PAD: u8 = 0x3D;

/// The character that carries the 6-bit value `v`.
pub open spec fn sextet_char(v: int) -> u8 {
    if v < 26 {
        (v + 65) as u8
    } else if v < 52 {
        (v + 71) as u8
    } else if v < 62 {
        (v - 4) as u8
    } else if v == 62 {
        0x2Bu8
    } else {
        0x2Fu8
    }
}

/// The 6-bit value that the character `c` carries, where it is one of the alphabet.
pub open spec fn sextet_value(c: u8) -> Option<int> {
    if 0x41 <= c <= 0x5A {
        Some(c - 65)
    } else if 0x61 <= c <= 0x7A {
        Some(c - 71)
    } else if 0x30 <= c <= 0x39 {
        Some(c + 4)
    } else if c == 0x2B {
        Some(62)
    } else if c == 0x2F {
        Some(63)
    } else {
        None
    }
}

/// Byte `k` of `data`, or 0 past its end.
pub open spec fn byte_or_zero(data: Seq<u8>, k: int) -> int {
    if k < data.len() {
        data[k] as int
    } else {
        0
    }
}

/// The 24-bit number made by the bytes `3g`, `3g + 1` and `3g + 2` of `data`
/// (zero past its end), the first of them most significant.
pub open spec fn group_number(data: Seq<u8>, g: int) -> int {
    byte_or_zero(data, 3 * g) * 65536 + byte_or_zero(data, 3 * g + 1) * 256 + byte_or_zero(
        data,
        3 * g + 2,
    )
}

/// Sextet `k` (0 the most significant) of the 24-bit number `n`.
pub open spec fn sextet(n: int, k: int) -> int {
    if k == 0 {
        n / 262144
    } else if k == 1 {
        (n / 4096) % 64
    } else if k == 2 {
        (n / 64) % 64
    } else {
        n % 64
    }
}

/// The Base64 text of `data`: four characters for each group of three bytes, those
/// of the last group that stand for missing bytes written as `=`.
pub open spec fn base64_spec(data: Seq<u8>) -> Seq<u8> {
    Seq::new(
        4 * ((data.len() + 2) / 3),
        |i: int|
            if 3 * (i / 4) + i % 4 > data.len() {
                PAD
            } else {
                sextet_char(sextet(group_number(data, i / 4), i % 4))
            },
    )
}

/// A space, tab, line feed or carriage return.
pub open spec fn is_blank(c: u8) -> bool {
    c == 0x20 || c == 0x09 || c == 0x0A || c == 0x0D
}

/// `text` without the blanks at its end.
pub open spec fn trim_end(text: Seq<u8>) -> Seq<u8>
    decreases text.len(),
{
    if text.len() > 0 && is_blank(text.last()) {
        trim_end(text.drop_last())
    } else {
        text
    }
}

/// The number of `=` at the end of `t`, up to two.
pub open spec fn pad_count(t: Seq<u8>) -> int {
    if t.len() >= 2 && t[t.len() - 1] == PAD && t[t.len() - 2] == PAD {
        2
    } else if t.len() >= 1 && t[t.len() - 1] == PAD {
        1
    } else {
        0
    }
}

/// `t` is Base64 text: a multiple of four characters, all of the alphabet but for
/// at most two `=` at the end.
pub open spec fn well_formed(t: Seq<u8>) -> bool {
    t.len() % 4 == 0 && forall|i: int|
        0 <= i < t.len() - pad_count(t) ==> (#[trigger] sextet_value(t[i])) is Some
}

/// The value of character `i` of `t`: its sextet, 0 for padding.
pub open spec fn char_value(t: Seq<u8>, i: int) -> int {
    match sextet_value(t[i]) {
        Some(v) => v,
        None => 0,
    }
}

/// The 24-bit number carried by the four characters of group `g`.
pub open spec fn quad_number(t: Seq<u8>, g: int) -> int {
    char_value(t, 4 * g) * 262144 + char_value(t, 4 * g + 1) * 4096 + char_value(t, 4 * g + 2)
        * 64 + char_value(t, 4 * g + 3)
}

/// Byte `m` (0 the most significant) of the 24-bit number `n`.
pub open spec fn number_byte(n: int, m: int) -> int {
    if m == 0 {
        n / 65536
    } else if m == 1 {
        (n / 256) % 256
    } else {
        n % 256
    }
}

/// The bytes that Base64 `text` carries, blanks at its end ignored; `None` where
/// it is not Base64 text. Bits that padding leaves over are ignored.
pub open spec fn unbase64_spec(text: Seq<u8>) -> Option<Seq<u8>> {
    let t = trim_end(text);
    if !well_formed(t) {
        None
    } else {
        Some(
            Seq::new(
                (3 * (t.len() / 4) - pad_count(t)) as nat,
                |j: int| number_byte(quad_number(t, j / 3), j % 3) as u8,
            ),
        )
    }
}

/// The sextets of a 24-bit number put it back together, and its bytes are the
/// ones it was made of.
proof fn lemma_group_arith(b0: u32, b1: u32, b2: u32)
    requires
        b0 < 256,
        b1 < 256,
        b2 < 256,
    ensures
        ({
            let n = b0 * 65536 + b1 * 256 + b2;
            &&& (n / 262144) * 262144 + ((n / 4096) % 64) * 4096 + ((n / 64) % 64) * 64 + n % 64 == n
            &&& n / 262144 < 64
            &&& n / 65536 == b0
            &&& (n / 256) % 256 == b1
            &&& n % 256 == b2
            &&& (b2 == 0 ==> n % 64 == 0)
            &&& (b1 == 0 && b2 == 0 ==> (n / 64) % 64 == 0)
        }),
{
    assert({
        let n = b0 * 65536 + b1 * 256 + b2;
        &&& (n / 262144) * 262144 + ((n / 4096) % 64) * 4096 + ((n / 64) % 64) * 64 + n % 64 == n
        &&& n / 262144 < 64
        &&& n / 65536 == b0
        &&& (n / 256) % 256 == b1
        &&& n % 256 == b2
        &&& (b2 == 0 ==> n % 64 == 0)
        &&& (b1 == 0 && b2 == 0 ==> (n / 64) % 64 == 0)
    }) by (bit_vector)
        requires
            b0 < 256,
            b1 < 256,
            b2 < 256,
    ;
}

/// Each character carries the value it was chosen for.
proof fn lemma_sextet_char(v: int)
    requires
        0 <= v < 64,
    ensures
        sextet_value(sextet_char(v)) == Some(v),
        !is_blank(sextet_char(v)),
        sextet_char(v) != PAD,
{
}

/// Trailing blanks aside, a text that does not end in a blank is left as it is.
proof fn lemma_trim_end_unblank(t: Seq<u8>)
    requires
        t.len() == 0 || !is_blank(t.last()),
    ensures
        trim_end(t) == t,
{
}

/// What the arithmetic of group `g` of `data` gives: its sextets put its number back
/// together, those that stand for missing bytes are zero, and its bytes are those
/// of `data`.
spec fn group_facts(data: Seq<u8>, g: int) -> bool {
    let n = group_number(data, g);
    let len = data.len() as int;
    &&& (n / 262144) * 262144 + ((n / 4096) % 64) * 4096 + ((n / 64) % 64) * 64 + n % 64 == n
    &&& 0 <= n / 262144 < 64
    &&& 0 <= n
    &&& (3 * g + 2 > len ==> (n / 64) % 64 == 0)
    &&& (3 * g + 3 > len ==> n % 64 == 0)
    &&& forall|m: int| 0 <= m < 3 && 3 * g + m < len ==> number_byte(n, m) == data[3 * g + m]
}

/// Character `i` of the Base64 text of `data`: `=` where it stands for a missing
/// byte, otherwise a character of the alphabet that carries its sextet.
proof fn lemma_base64_char(data: Seq<u8>, i: int)
    requires
        0 <= i < base64_spec(data).len(),
    ensures
        ({
            let t = base64_spec(data);
            let n = group_number(data, i / 4);
            if 3 * (i / 4) + i % 4 > data.len() {
                t[i] == PAD
            } else {
                &&& t[i] != PAD
                &&& !is_blank(t[i])
                &&& sextet_value(t[i]) == Some(sextet(n, i % 4))
            }
        }),
{
    let g = i / 4;
    if 3 * g + i % 4 <= data.len() {
        assert(3 * g < data.len());
        lemma_group_arith(
            byte_or_zero(data, 3 * g) as u32,
            byte_or_zero(data, 3 * g + 1) as u32,
            byte_or_zero(data, 3 * g + 2) as u32,
        );
        assert(group_facts(data, g));
        lemma_sextet_char(sextet(group_number(data, g), i % 4));
    }
}

/// The group arithmetic of every group of `data`.
proof fn lemma_all_groups(data: Seq<u8>)
    ensures
        forall|g: int| 0 <= g && 3 * g < data.len() ==> #[trigger] group_facts(data, g),
{
    assert forall|g: int| 0 <= g && 3 * g < data.len() implies #[trigger] group_facts(data, g) by {
        lemma_group_arith(
            byte_or_zero(data, 3 * g) as u32,
            byte_or_zero(data, 3 * g + 1) as u32,
            byte_or_zero(data, 3 * g + 2) as u32,
        );
    }
}

/// The Base64 text of `data` ends in no blank and has as many `=` as its last group
/// misses bytes.
proof fn lemma_base64_end(data: Seq<u8>)
    ensures
        trim_end(base64_spec(data)) == base64_spec(data),
        pad_count(base64_spec(data)) == 3 * ((data.len() + 2) / 3) - data.len(),
        base64_spec(data).len() % 4 == 0,
{
    let t = base64_spec(data);
    let len = data.len() as int;
    let groups = (len + 2) / 3;
    if groups > 0 {
        let last = t.len() - 1;
        lemma_base64_char(data, last);
        lemma_base64_char(data, last - 1);
        assert(last / 4 == groups - 1 && last % 4 == 3);
        assert((last - 1) / 4 == groups - 1 && (last - 1) % 4 == 2);
    }
    lemma_trim_end_unblank(t);
}

/// Reading back the Base64 text of `data` gives `data`.
pub proof fn lemma_base64_roundtrip(data: Seq<u8>)
    ensures
        unbase64_spec(base64_spec(data)) == Some(data),
{
    let t = base64_spec(data);
    let len = data.len() as int;
    lemma_base64_end(data);
    lemma_all_groups(data);
    let pad = pad_count(t);
    assert forall|i: int| 0 <= i < t.len() - pad implies (#[trigger] sextet_value(t[i])) is Some by {
        lemma_base64_char(data, i);
    }
    assert(well_formed(t));
    let out = Seq::new(
        (3 * (t.len() / 4) - pad_count(t)) as nat,
        |j: int| number_byte(quad_number(t, j / 3), j % 3) as u8,
    );
    assert forall|j: int| 0 <= j < len implies out[j] == data[j] by {
        let g = j / 3;
        let n = group_number(data, g);
        assert(group_facts(data, g));
        assert forall|k: int| 0 <= k < 4 implies char_value(t, 4 * g + k) == sextet(n, k) by {
            let i = 4 * g + k;
            assert(i / 4 == g && i % 4 == k);
            lemma_base64_char(data, i);
        }
        assert(quad_number(t, g) == n);
    }
    assert(out =~= data);
}

/// The character that carries `v`.
fn sextet_byte(v: u32) -> (c: u8)
    requires
        v < 64,
    ensures
        c == sextet_char(v as int),
{
    if v < 26 {
        (v + 65) as u8
    } else if v < 52 {
        (v + 71) as u8
    } else if v < 62 {
        (v - 4) as u8
    } else if v == 62 {
        0x2B
    } else {
        0x2F
    }
}

/// The value that `c` carries in Base64 text, 0 where it is not of the alphabet.
fn char_number(c: u8) -> (v: u32)
    ensures
        v < 64,
        v == (match sextet_value(c) {
            Some(x) => x,
            None => 0,
        }),
{
    if 0x41 <= c && c <= 0x5A {
        (c - 65) as u32
    } else if 0x61 <= c && c <= 0x7A {
        (c - 71) as u32
    } else if 0x30 <= c && c <= 0x39 {
        (c + 4) as u32
    } else if c == 0x2B {
        62
    } else if c == 0x2F {
        63
    } else {
        0
    }
}

/// Whether `c` is of the Base64 alphabet.
fn in_alphabet(c: u8) -> (b: bool)
    ensures
        b == (sextet_value(c) is Some),
{
    (0x41 <= c && c <= 0x5A) || (0x61 <= c && c <= 0x7A) || (0x30 <= c && c <= 0x39) || c == 0x2B
        || c == 0x2F
}

/// The Base64 text of `data`.
pub fn encode_base64(data: &[u8]) -> (text: Vec<u8>)
    requires
        data@.len() <= isize::MAX,
    ensures
        text@ == base64_spec(data@),
{
    let ghost spec = base64_spec(data@);
    let len = data.len();
    let groups = (len + 2) / 3;
    let mut out: Vec<u8> = Vec::new();
    for g in 0..groups
        invariant
            len == data@.len(),
            len <= isize::MAX,
            groups == (len + 2) / 3,
            out@.len() == 4 * g,
            spec == base64_spec(data@),
            forall|k: int| 0 <= k < out@.len() ==> #[trigger] out@[k] == spec[k],
    {
        let i = 3 * g;
        let b0 = data[i] as u32;
        let b1: u32 = if i + 1 < len {
            data[i + 1] as u32
        } else {
            0
        };
        let b2: u32 = if i + 2 < len {
            data[i + 2] as u32
        } else {
            0
        };
        proof {
            lemma_group_arith(b0, b1, b2);
            assert(b0 * 65536 + b1 * 256 + b2 == group_number(data@, g as int));
        }
        let n: u32 = b0 * 65536 + b1 * 256 + b2;
        let c0 = sextet_byte(n / 262144);
        let c1 = sextet_byte((n / 4096) % 64);
        let c2 = if i + 1 < len {
            sextet_byte((n / 64) % 64)
        } else {
            PAD
        };
        let c3 = if i + 2 < len {
            sextet_byte(n % 64)
        } else {
            PAD
        };
        proof {
            let gi = g as int;
            assert(spec.len() == 4 * groups);
            assert((4 * gi) / 4 == gi && (4 * gi) % 4 == 0);
            assert((4 * gi + 1) / 4 == gi && (4 * gi + 1) % 4 == 1);
            assert((4 * gi + 2) / 4 == gi && (4 * gi + 2) % 4 == 2);
            assert((4 * gi + 3) / 4 == gi && (4 * gi + 3) % 4 == 3);
        }
        out.push(c0);
        out.push(c1);
        out.push(c2);
        out.push(c3);
    }
    assert(out@ =~= spec);
    out
}

/// The length of `text` without the blanks at its end.
fn trimmed_len(text: &[u8]) -> (end: usize)
    ensures
        end <= text@.len(),
        trim_end(text@) == text@.subrange(0, end as int),
{
    let mut end = text.len();
    assert(text@.subrange(0, end as int) =~= text@);
    loop
        invariant
            end <= text@.len(),
            trim_end(text@) == trim_end(text@.subrange(0, end as int)),
        ensures
            end <= text@.len(),
            trim_end(text@) == text@.subrange(0, end as int),
        decreases end,
    {
        let ghost prefix = text@.subrange(0, end as int);
        if end == 0 {
            assert(trim_end(prefix) == prefix);
            break;
        }
        let c = text[end - 1];
        if !(c == 0x20 || c == 0x09 || c == 0x0A || c == 0x0D) {
            assert(prefix.last() == c);
            assert(trim_end(prefix) == prefix);
            break;
        }
        assert(prefix.last() == c);
        assert(prefix.drop_last() =~= text@.subrange(0, end - 1));
        assert(trim_end(prefix) == trim_end(prefix.drop_last()));
        end = end - 1;
    }
    end
}

/// The bytes that Base64 `text` carries, blanks at its end ignored; a decryption
/// error where it is not Base64 text, as for any other damaged blob.
pub fn decode_base64(text: &[u8]) -> (r: BxResult<Vec<u8>>)
    ensures
        match unbase64_spec(text@) {
            Some(data) => r matches Ok(v) && v@ == data,
            None => r matches Err(BxError::Decrypt),
        },
{
    let end = trimmed_len(text);
    let t = vstd::slice::slice_subrange(text, 0, end);
    assert(t@ == trim_end(text@));
    if end % 4 != 0 {
        return Err(BxError::Decrypt);
    }
    let pad: usize = if end >= 2 && t[end - 1] == PAD && t[end - 2] == PAD {
        2
    } else if end >= 1 && t[end - 1] == PAD {
        1
    } else {
        0
    };
    assert(pad == pad_count(t@));
    let data_end = end - pad;
    for i in 0..data_end
        invariant
            data_end == end - pad,
            end == t@.len(),
            t@ == trim_end(text@),
            pad == pad_count(t@),
            forall|k: int| 0 <= k < i ==> (#[trigger] sextet_value(t@[k])) is Some,
    {
        if !in_alphabet(t[i]) {
            assert(!well_formed(t@));
            return Err(BxError::Decrypt);
        }
    }
    let out_len = 3 * (end / 4) - pad;
    let groups = end / 4;
    let ghost bytes = Seq::new(
        out_len as nat,
        |j: int| number_byte(quad_number(t@, j / 3), j % 3) as u8,
    );
    let mut out: Vec<u8> = Vec::new();
    for g in 0..groups
        invariant
            end == t@.len(),
            t@ == trim_end(text@),
            pad == pad_count(t@),
            forall|k: int| 0 <= k < end - pad ==> (#[trigger] sextet_value(t@[k])) is Some,
            groups == end / 4,
            end % 4 == 0,
            pad <= 2,
            out_len == 3 * groups - pad,
            bytes == Seq::new(
                out_len as nat,
                |j: int| number_byte(quad_number(t@, j / 3), j % 3) as u8,
            ),
            out@.len() == if 3 * g <= out_len {
                3 * g
            } else {
                out_len as int
            },
            forall|j: int| 0 <= j < out@.len() ==> #[trigger] out@[j] == bytes[j],
    {
        let v0 = char_number(t[4 * g]);
        let v1 = char_number(t[4 * g + 1]);
        let v2 = char_number(t[4 * g + 2]);
        let v3 = char_number(t[4 * g + 3]);
        let n: u32 = v0 * 262144 + v1 * 4096 + v2 * 64 + v3;
        assert(n == quad_number(t@, g as int));
        let ghost before = out@.len();
        let b0 = (n / 65536) as u8;
        let b1 = ((n / 256) % 256) as u8;
        let b2 = (n % 256) as u8;
        assert(n / 65536 < 256);
        if out.len() < out_len {
            out.push(b0);
        }
        if out.len() < out_len {
            out.push(b1);
        }
        if out.len() < out_len {
            out.push(b2);
        }
        assert forall|j: int| before <= j < out@.len() implies #[trigger] out@[j] == bytes[j] by {
            assert(j / 3 == g && j % 3 == j - 3 * g);
        }
    }
    assert(out@ =~= bytes);
    Ok(out)
}

} // verus!
