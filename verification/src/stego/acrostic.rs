//! Acrostic steganography: each bit of the framed payload sets the case of the
//! first ASCII letter of one word of a carrier text (upper case for 1, lower case
//! for 0). The payload is limited to 256 bytes.
use vstd::prelude::*;
use crate::error::{BxError, BxResult};
use crate::text::{chars_of, push_char, push_chars, string_of};
use crate::stego::{
    decode_framed_bits, framed_bits, framed_payload_bits, lemma_unframe_framed, reports_bytes,
    unframe_text,
};

verus! {

/// The largest payload, in bytes, that the acrostic layer hides.
pub const MAX_INPUT_BYTES: usize = 256;

/// Unicode `White_Space`, the property that `char::is_whitespace` tests and
/// `str::split_whitespace` splits on.
pub open spec fn is_whitespace(c: char) -> bool {
    let u = c as u32;
    (0x09 <= u && u <= 0x0D) || u == 0x20 || u == 0x85 || u == 0xA0 || u == 0x1680 || (0x2000 <= u
        && u <= 0x200A) || u == 0x2028 || u == 0x2029 || u == 0x202F || u == 0x205F || u == 0x3000
}

pub open spec fn is_ascii_upper(c: char) -> bool {
    'A' <= c && c <= 'Z'
}

pub open spec fn is_ascii_lower(c: char) -> bool {
    'a' <= c && c <= 'z'
}

pub open spec fn is_ascii_letter(c: char) -> bool {
    is_ascii_upper(c) || is_ascii_lower(c)
}

/// The character with the case that `bit` selects: upper case for 1, lower case
/// for 0 (for an ASCII letter `c`).
pub open spec fn cased(c: char, bit: bool) -> char {
    if bit {
        if is_ascii_lower(c) {
            ((c as u32) - 32) as char
        } else {
            c
        }
    } else {
        if is_ascii_upper(c) {
            ((c as u32) + 32) as char
        } else {
            c
        }
    }
}

/// The words of a text: its maximal runs of non-whitespace characters, in order,
/// as `str::split_whitespace` yields them.
pub open spec fn words(cs: Seq<char>) -> Seq<Seq<char>>
    decreases cs.len(),
{
    if cs.len() == 0 {
        seq![]
    } else {
        let prev = words(cs.drop_last());
        let c = cs.last();
        if is_whitespace(c) {
            prev
        } else if cs.len() >= 2 && !is_whitespace(cs[cs.len() - 2]) {
            prev.update(prev.len() - 1, prev.last().push(c))
        } else {
            prev.push(seq![c])
        }
    }
}

/// The words joined with single spaces.
pub open spec fn join(ws: Seq<Seq<char>>) -> Seq<char>
    decreases ws.len(),
{
    if ws.len() == 0 {
        seq![]
    } else if ws.len() == 1 {
        ws[0]
    } else {
        join(ws.drop_last()).push(' ') + ws.last()
    }
}

/// The index of the first ASCII letter of `w`, or `w.len()` where it has none.
pub open spec fn first_letter(w: Seq<char>) -> nat
    decreases w.len(),
{
    if w.len() == 0 {
        0
    } else if is_ascii_letter(w[0]) {
        0
    } else {
        1 + first_letter(w.drop_first())
    }
}

pub open spec fn has_letter(w: Seq<char>) -> bool {
    first_letter(w) < w.len()
}

/// `w` with the case of its first ASCII letter set by `bit`.
pub open spec fn word_with_bit(w: Seq<char>, bit: bool) -> Seq<char> {
    Seq::new(w.len(), |k: int| if k == first_letter(w) { cased(w[k], bit) } else { w[k] })
}

/// The bit a word carries: whether its first ASCII letter is upper case; `None`
/// for a word without an ASCII letter.
pub open spec fn bit_of_word(w: Seq<char>) -> Option<bool> {
    if has_letter(w) {
        Some(is_ascii_upper(w[first_letter(w) as int]))
    } else {
        None
    }
}

/// The words of the carrier with the first `bits.len()` of them marked with the bits.
pub open spec fn marked_words(ws: Seq<Seq<char>>, bits: Seq<bool>) -> Seq<Seq<char>> {
    Seq::new(ws.len(), |i: int| if i < bits.len() { word_with_bit(ws[i], bits[i]) } else { ws[i] })
}

/// Why the acrostic layer cannot hide a payload.
pub enum AcrosticFailure {
    /// The payload is longer than 256 bytes; the field is its length.
    TooLarge(nat),
    /// The carrier has fewer words than there are bits to hide.
    CarrierTooShort { need: nat, have: nat },
}

/// The text that hides `payload` in `carrier`, or why there is none: the words of
/// the carrier, the first of them marked with the framed bits of the payload, joined
/// with single spaces.
pub open spec fn encode_spec(payload: Seq<u8>, carrier: Seq<char>) -> Result<
    Seq<char>,
    AcrosticFailure,
> {
    if payload.len() > 256 {
        Err(AcrosticFailure::TooLarge(payload.len()))
    } else {
        let bits = framed_bits(payload);
        let ws = words(carrier);
        if ws.len() < bits.len() {
            Err(AcrosticFailure::CarrierTooShort { need: bits.len(), have: ws.len() })
        } else {
            Ok(join(marked_words(ws, bits)))
        }
    }
}

pub open spec fn no_letter_message() -> Seq<char> {
    "acrostic carrier word has no ASCII letter"@
}

/// The payload hidden in `text`, or the text of the error: the bits of all its
/// words, unframed.
pub open spec fn decode_spec(text: Seq<char>) -> Result<Seq<u8>, Seq<char>> {
    let ws = words(text);
    if exists|i: int| 0 <= i < ws.len() && !has_letter(#[trigger] ws[i]) {
        Err(no_letter_message())
    } else {
        unframe_text(Seq::new(ws.len(), |i: int| is_ascii_upper(ws[i][first_letter(ws[i]) as int])))
    }
}

/// `r` is the result that `s` describes.
pub open spec fn reports_encoding(r: BxResult<String>, s: Result<Seq<char>, AcrosticFailure>) -> bool {
    match s {
        Ok(text) => r matches Ok(out) && out@ == text,
        Err(AcrosticFailure::TooLarge(n)) => r matches Err(BxError::AcrosticInputTooLarge(m)) && m
            == n,
        Err(AcrosticFailure::CarrierTooShort { need, have }) => r matches Err(
            BxError::CarrierTooShort { need: nd, have: hv },
        ) && nd == need && hv == have,
    }
}

pub open spec fn views(v: Seq<Vec<char>>) -> Seq<Seq<char>> {
    Seq::new(v.len(), |k: int| v[k]@)
}

/// Facts about where the first letter stands.
proof fn lemma_first_letter(w: Seq<char>)
    ensures
        first_letter(w) <= w.len(),
        forall|k: int| 0 <= k < first_letter(w) ==> !is_ascii_letter(#[trigger] w[k]),
        first_letter(w) < w.len() ==> is_ascii_letter(w[first_letter(w) as int]),
    decreases w.len(),
{
    if w.len() > 0 && !is_ascii_letter(w[0]) {
        lemma_first_letter(w.drop_first());
        assert forall|k: int| 0 <= k < first_letter(w) implies !is_ascii_letter(#[trigger] w[k]) by {
            if k > 0 {
                assert(w[k] == w.drop_first()[k - 1]);
            }
        }
    }
}

/// Every word is non-empty and free of whitespace.
proof fn lemma_words_shape(cs: Seq<char>)
    ensures
        forall|i: int|
            0 <= i < words(cs).len() ==> (#[trigger] words(cs)[i]).len() > 0 && forall|k: int|
                0 <= k < words(cs)[i].len() ==> !is_whitespace(#[trigger] words(cs)[i][k]),
        cs.len() > 0 && !is_whitespace(cs.last()) ==> words(cs).len() > 0,
    decreases cs.len(),
{
    if cs.len() > 0 {
        lemma_words_shape(cs.drop_last());
        let prev = words(cs.drop_last());
        let c = cs.last();
        if !is_whitespace(c) && cs.len() >= 2 && !is_whitespace(cs[cs.len() - 2]) {
            assert(cs.drop_last().last() == cs[cs.len() - 2]);
            let w = prev.last().push(c);
            assert forall|k: int| 0 <= k < w.len() implies !is_whitespace(#[trigger] w[k]) by {
                if k < w.len() - 1 {
                    assert(w[k] == prev[prev.len() - 1][k]);
                }
            }
        }
    }
}

/// Appending a non-empty, whitespace-free word after whitespace (or at the start)
/// adds it as one more word.
proof fn lemma_words_append_word(a: Seq<char>, w: Seq<char>)
    requires
        w.len() > 0,
        forall|k: int| 0 <= k < w.len() ==> !is_whitespace(#[trigger] w[k]),
        a.len() == 0 || is_whitespace(a.last()),
    ensures
        words(a + w) == words(a).push(w),
    decreases w.len(),
{
    let c = w.last();
    let wp = w.drop_last();
    assert((a + w).drop_last() =~= a + wp);
    assert((a + w).last() == c);
    if wp.len() == 0 {
        assert(a + wp =~= a);
        if a.len() > 0 {
            assert((a + w)[(a + w).len() - 2] == a.last());
        }
        assert(seq![c] =~= w);
    } else {
        lemma_words_append_word(a, wp);
        assert((a + w)[(a + w).len() - 2] == wp.last());
        let prev = words(a + wp);
        assert(prev.last() == wp);
        assert(wp.push(c) =~= w);
        assert(prev.update(prev.len() - 1, prev.last().push(c)) =~= words(a).push(w));
    }
}

/// The code points that Unicode's `PropList.txt` gives the `White_Space` property,
/// one by one.
pub open spec fn white_space_code_points() -> Set<u32> {
    set![
        0x0009u32, 0x000Au32, 0x000Bu32, 0x000Cu32, 0x000Du32, 0x0020u32, 0x0085u32, 0x00A0u32,
        0x1680u32, 0x2000u32, 0x2001u32, 0x2002u32, 0x2003u32, 0x2004u32, 0x2005u32, 0x2006u32,
        0x2007u32, 0x2008u32, 0x2009u32, 0x200Au32, 0x2028u32, 0x2029u32, 0x202Fu32, 0x205Fu32,
        0x3000u32,
    ]
}

/// The carrier's words are split exactly at the characters that have Unicode's
/// `White_Space` property, and at no other.
pub proof fn lemma_separators_are_white_space(c: char)
    ensures
        is_whitespace(c) <==> white_space_code_points().contains(c as u32),
{
}

/// No printable ASCII character but the space separates words: hyphens, digits,
/// letters and punctuation stay inside the word they stand in.
pub proof fn lemma_printable_ascii_never_separates(c: char)
    requires
        0x21 <= c as u32 <= 0x7E,
    ensures
        !is_whitespace(c),
{
    lemma_separators_are_white_space(c);
}

/// A run of characters none of which has the `White_Space` property is a single
/// word of the carrier, exactly as it stands.
pub proof fn lemma_token_is_one_word(w: Seq<char>)
    requires
        w.len() > 0,
        forall|k: int| 0 <= k < w.len() ==> !white_space_code_points().contains(#[trigger] w[k] as u32),
    ensures
        words(w) == seq![w],
{
    assert forall|k: int| 0 <= k < w.len() implies !is_whitespace(#[trigger] w[k]) by {
        lemma_separators_are_white_space(w[k]);
    }
    lemma_words_append_word(Seq::empty(), w);
    assert(Seq::<char>::empty() + w =~= w);
    assert(words(Seq::<char>::empty()) =~= Seq::<Seq<char>>::empty());
    assert(Seq::<Seq<char>>::empty().push(w) =~= seq![w]);
}

/// Splitting words joined with single spaces gives back the words.
pub proof fn lemma_words_of_join(ws: Seq<Seq<char>>)
    requires
        forall|i: int|
            0 <= i < ws.len() ==> (#[trigger] ws[i]).len() > 0 && forall|k: int|
                0 <= k < ws[i].len() ==> !is_whitespace(#[trigger] ws[i][k]),
    ensures
        words(join(ws)) == ws,
    decreases ws.len(),
{
    if ws.len() == 0 {
    } else if ws.len() == 1 {
        lemma_words_append_word(Seq::empty(), ws[0]);
        assert(Seq::<char>::empty() + ws[0] =~= ws[0]);
        assert(Seq::<Seq<char>>::empty().push(ws[0]) =~= ws);
    } else {
        let init = ws.drop_last();
        lemma_words_of_join(init);
        let a = join(init).push(' ');
        assert(words(a) == words(join(init))) by {
            assert(a.drop_last() =~= join(init));
        }
        lemma_words_append_word(a, ws.last());
        assert(init.push(ws.last()) =~= ws);
    }
}

/// Marking a word keeps it non-empty and free of whitespace, and the marked word
/// carries the bit.
proof fn lemma_word_with_bit(w: Seq<char>, bit: bool)
    requires
        has_letter(w),
        forall|k: int| 0 <= k < w.len() ==> !is_whitespace(#[trigger] w[k]),
    ensures
        forall|k: int| 0 <= k < w.len() ==> !is_whitespace(#[trigger] word_with_bit(w, bit)[k]),
        bit_of_word(word_with_bit(w, bit)) == Some(bit),
        word_with_bit(w, bit).len() == w.len(),
{
    let m = word_with_bit(w, bit);
    let f = first_letter(w) as int;
    lemma_first_letter(w);
    lemma_first_letter(m);
    assert(is_ascii_letter(m[f]));
    assert forall|k: int| 0 <= k < f implies m[k] == w[k] by {}
    assert(first_letter(m) == f) by {
        if first_letter(m) < f {
            assert(m[first_letter(m) as int] == w[first_letter(m) as int]);
        }
    }
}

/// Whether `c` is Unicode whitespace, as `char::is_whitespace` answers.
fn char_is_whitespace(c: char) -> (b: bool)
    ensures
        b == is_whitespace(c),
{
    let u = c as u32;
    (0x09 <= u && u <= 0x0D) || u == 0x20 || u == 0x85 || u == 0xA0 || u == 0x1680 || (0x2000 <= u
        && u <= 0x200A) || u == 0x2028 || u == 0x2029 || u == 0x202F || u == 0x205F || u == 0x3000
}

fn char_is_ascii_letter(c: char) -> (b: bool)
    ensures
        b == is_ascii_letter(c),
{
    ('A' <= c && c <= 'Z') || ('a' <= c && c <= 'z')
}

/// The words of `cs`, as `str::split_whitespace` splits them.
fn split_words(cs: &Vec<char>) -> (ws: Vec<Vec<char>>)
    ensures
        views(ws@) == words(cs@),
{
    let mut out: Vec<Vec<char>> = Vec::new();
    let mut cur: Vec<char> = Vec::new();
    let n = cs.len();
    for i in 0..n
        invariant
            n == cs@.len(),
            cur@.len() > 0 <==> (i > 0 && !is_whitespace(cs@[i - 1])),
            cur@.len() > 0 ==> words(cs@.take(i as int)) == views(out@).push(cur@),
            cur@.len() == 0 ==> words(cs@.take(i as int)) == views(out@),
    {
        let c = cs[i];
        let ghost before = cs@.take(i as int);
        let ghost after = cs@.take(i + 1);
        assert(after.drop_last() =~= before);
        assert(after.last() == c);
        if char_is_whitespace(c) {
            if cur.len() > 0 {
                let ghost out_before = views(out@);
                let finished = cur;
                cur = Vec::new();
                out.push(finished);
                assert(views(out@) =~= out_before.push(finished@));
            }
            assert(words(after) == words(before));
        } else {
            let was_empty = cur.len() == 0;
            if i > 0 {
                assert(after[after.len() - 2] == cs@[i - 1]);
            }
            cur.push(c);
            if !was_empty {
                let ghost prev = words(before);
                assert(prev.update(prev.len() - 1, prev.last().push(c)) =~= views(out@).push(cur@));
            } else {
                assert(cur@ =~= seq![c]);
                assert(words(before).push(seq![c]) =~= views(out@).push(cur@));
            }
        }
    }
    assert(cs@.take(n as int) =~= cs@);
    if cur.len() > 0 {
        let ghost before_push = views(out@);
        out.push(cur);
        assert(views(out@) =~= before_push.push(views(out@).last()));
    }
    out
}

/// `word` with the case of its first ASCII letter set by `bit`.
fn apply_bit_to_word(word: &Vec<char>, bit: bool) -> (out: Vec<char>)
    ensures
        out@ == word_with_bit(word@, bit),
{
    let mut output: Vec<char> = Vec::new();
    let mut encoded = false;
    let n = word.len();
    proof {
        lemma_first_letter(word@);
    }
    for i in 0..n
        invariant
            n == word@.len(),
            encoded == (first_letter(word@) < i),
            first_letter(word@) <= word@.len(),
            forall|k: int| 0 <= k < first_letter(word@) ==> !is_ascii_letter(#[trigger] word@[k]),
            first_letter(word@) < word@.len() ==> is_ascii_letter(word@[first_letter(word@) as int]),
            output@ == word_with_bit(word@, bit).take(i as int),
    {
        let ch = word[i];
        if !encoded && char_is_ascii_letter(ch) {
            encoded = true;
            assert(first_letter(word@) == i);
            let c = if bit {
                if 'a' <= ch && ch <= 'z' {
                    ((ch as u8) - 32) as char
                } else {
                    ch
                }
            } else {
                if 'A' <= ch && ch <= 'Z' {
                    ((ch as u8) + 32) as char
                } else {
                    ch
                }
            };
            assert(c == cased(ch, bit));
            output.push(c);
        } else {
            output.push(ch);
        }
        assert(output@ =~= word_with_bit(word@, bit).take(i + 1));
    }
    assert(output@ =~= word_with_bit(word@, bit));
    output
}

/// The bit `word` carries: whether its first ASCII letter is upper case; an
/// extraction error for a word without an ASCII letter.
fn bit_from_word(word: &Vec<char>) -> (r: BxResult<bool>)
    ensures
        match bit_of_word(word@) {
            Some(b) => r matches Ok(x) && x == b,
            None => r matches Err(BxError::StegoExtract(m)) && m@ == no_letter_message(),
        },
{
    proof {
        lemma_first_letter(word@);
    }
    let n = word.len();
    for i in 0..n
        invariant
            n == word@.len(),
            first_letter(word@) >= i,
            forall|k: int| 0 <= k < first_letter(word@) ==> !is_ascii_letter(#[trigger] word@[k]),
            first_letter(word@) < word@.len() ==> is_ascii_letter(word@[first_letter(word@) as int]),
            first_letter(word@) <= word@.len(),
    {
        let ch = word[i];
        if char_is_ascii_letter(ch) {
            assert(first_letter(word@) == i);
            return Ok('A' <= ch && ch <= 'Z');
        }
    }
    Err(BxError::StegoExtract(string_of("acrostic carrier word has no ASCII letter")))
}

/// Hides `input` in the letter case of the words of `carrier`.
///
/// Fails where `input` is longer than 256 bytes, and where the carrier has fewer
/// words than the frame of `input` has bits. Otherwise the result is the carrier's
/// words joined with single spaces, the first of them marked with the bits.
pub fn encode(input: &[u8], carrier: &str) -> (r: BxResult<String>)
    ensures
        reports_encoding(r, encode_spec(input@, carrier@)),
{
    if input.len() > MAX_INPUT_BYTES {
        return Err(BxError::AcrosticInputTooLarge(input.len()));
    }
    let bits = framed_payload_bits(input);
    let chars = chars_of(carrier);
    let carrier_words = split_words(&chars);
    let word_count = carrier_words.len();
    if word_count < bits.len() {
        return Err(BxError::CarrierTooShort { need: bits.len(), have: word_count });
    }
    let ghost ws = words(carrier@);
    let ghost marked = marked_words(ws, bits@);
    let mut output = String::new();
    for i in 0..word_count
        invariant
            word_count == carrier_words@.len(),
            views(carrier_words@) == ws,
            ws.len() == word_count,
            marked == marked_words(ws, bits@),
            output@ == join(marked.take(i as int)),
    {
        let ghost prefix = output@;
        if i > 0 {
            push_char(&mut output, ' ');
        }
        let w = if i < bits.len() {
            apply_bit_to_word(&carrier_words[i], bits[i])
        } else {
            carrier_words[i].clone()
        };
        assert(w@ == marked[i as int]) by {
            assert(carrier_words@[i as int]@ == ws[i as int]);
        }
        push_chars(&mut output, &w);
        assert(marked.take(i + 1).drop_last() =~= marked.take(i as int));
        if i == 0 {
            assert(output@ =~= join(marked.take(1)));
        } else {
            assert(output@ =~= join(marked.take(i + 1)));
        }
    }
    assert(marked.take(word_count as int) =~= marked);
    Ok(output)
}

/// Recovers the payload hidden by [`encode`]: reads one bit from every word of
/// `input` and unframes them. Fails where a word has no ASCII letter, or where the
/// bits do not hold a complete frame.
pub fn decode(input: &str) -> (r: BxResult<Vec<u8>>)
    ensures
        reports_bytes(r, decode_spec(input@)),
{
    let chars = chars_of(input);
    let input_words = split_words(&chars);
    let ghost ws = words(input@);
    let n = input_words.len();
    let mut bits: Vec<bool> = Vec::new();
    for i in 0..n
        invariant
            n == input_words@.len(),
            ws == words(input@),
            views(input_words@) == ws,
            bits@.len() == i,
            forall|k: int| 0 <= k < i ==> has_letter(#[trigger] ws[k]),
            forall|k: int|
                0 <= k < i ==> #[trigger] bits@[k] == is_ascii_upper(ws[k][first_letter(ws[k]) as int]),
    {
        assert(input_words@[i as int]@ == ws[i as int]);
        let bit = match bit_from_word(&input_words[i]) {
            Ok(b) => b,
            Err(e) => {
                assert(ws.len() == n);
                assert(!has_letter(ws[i as int]));
                assert(exists|k: int| 0 <= k < ws.len() && !has_letter(#[trigger] ws[k]));
                assert(decode_spec(input@) == Err::<Seq<u8>, Seq<char>>(no_letter_message()));
                return Err(e);
            },
        };
        bits.push(bit);
    }
    assert(Seq::new(ws.len(), |i: int| is_ascii_upper(ws[i][first_letter(ws[i]) as int])) =~= bits@);
    decode_framed_bits(bits.as_slice())
}

/// Decoding the text that [`encode`] produces gives back the payload, where every
/// word of the carrier holds an ASCII letter.
pub proof fn lemma_acrostic_roundtrip(payload: Seq<u8>, carrier: Seq<char>, text: Seq<char>)
    requires
        encode_spec(payload, carrier) == Ok::<Seq<char>, AcrosticFailure>(text),
        forall|i: int| 0 <= i < words(carrier).len() ==> has_letter(#[trigger] words(carrier)[i]),
    ensures
        decode_spec(text) == Ok::<Seq<u8>, Seq<char>>(payload),
{
    let bits = framed_bits(payload);
    let ws = words(carrier);
    let marked = marked_words(ws, bits);
    lemma_words_shape(carrier);
    assert forall|i: int| 0 <= i < marked.len() implies (#[trigger] marked[i]).len() > 0 && forall|
        k: int,
    | 0 <= k < marked[i].len() ==> !is_whitespace(#[trigger] marked[i][k]) by {
        if i < bits.len() {
            lemma_word_with_bit(ws[i], bits[i]);
        }
    }
    lemma_words_of_join(marked);
    assert(words(text) == marked);
    let extra = Seq::new((ws.len() - bits.len()) as nat, |j: int| bit_of_word(ws[bits.len() + j])->0);
    let read = Seq::new(marked.len(), |i: int| is_ascii_upper(marked[i][first_letter(marked[i]) as int]));
    assert forall|i: int| 0 <= i < marked.len() implies has_letter(#[trigger] marked[i]) && bit_of_word(
        marked[i],
    ) == Some(read[i]) by {
        if i < bits.len() {
            lemma_word_with_bit(ws[i], bits[i]);
        }
    }
    assert(read =~= bits + extra) by {
        assert forall|i: int| 0 <= i < read.len() implies read[i] == (bits + extra)[i] by {
            if i < bits.len() {
                lemma_word_with_bit(ws[i], bits[i]);
            }
        }
    }
    lemma_unframe_framed(payload, extra);
}

} // verus!
