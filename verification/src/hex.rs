//! Lenient decoding of the assembler's hexadecimal output.

use vstd::prelude::*;
use crate::error::PipelineError;
use crate::text::{chars_of, trim, trim_bounds};

verus! {

/// The value of a hexadecimal digit, in either case.
pub open spec fn hex_digit_value(c: char) -> Option<u8> {
    if '0' <= c <= '9' {
        Some((c as u8 - 0x30) as u8)
    } else if 'a' <= c <= 'f' {
        Some((c as u8 - 0x61 + 10) as u8)
    } else if 'A' <= c <= 'F' {
        Some((c as u8 - 0x41 + 10) as u8)
    } else {
        None
    }
}

/// The byte that a two-character window stands for: a window reads as a byte exactly when
/// both of its characters are hexadecimal digits. Any other character, a sign or white space
/// too, makes the window unreadable.
pub open spec fn window_value(a: char, b: char) -> Option<u8> {
    match (hex_digit_value(a), hex_digit_value(b)) {
        (Some(high), Some(low)) => Some((high * 16 + low) as u8),
        _ => None,
    }
}

/// The bytes that a left-to-right scan of `s` yields: a window that reads as a byte is
/// consumed whole, any other window is left by advancing one character.
pub open spec fn decode(s: Seq<char>) -> Seq<u8>
    decreases s.len(),
{
    if s.len() < 2 {
        Seq::empty()
    } else {
        match window_value(s[0], s[1]) {
            Some(byte) => seq![byte] + decode(s.skip(2)),
            None => decode(s.skip(1)),
        }
    }
}

/// The lower-case digit for a value below sixteen.
pub open spec fn hex_digit_char(v: nat) -> char {
    if v < 10 {
        (0x30 + v) as char
    } else {
        (0x61 + v - 10) as char
    }
}

/// `bytes` written as two lower-case hexadecimal digits each.
pub open spec fn hex_text(bytes: Seq<u8>) -> Seq<char>
    decreases bytes.len(),
{
    if bytes.len() == 0 {
        Seq::empty()
    } else {
        seq![hex_digit_char((bytes[0] / 16) as nat), hex_digit_char((bytes[0] % 16) as nat)]
            + hex_text(bytes.skip(1))
    }
}

/// The result of decoding hexadecimal text.
#[derive(Debug, Clone, PartialEq, Eq)]
pub struct Transcoded {
    /// The decoded bytes, in order.
    pub bytes: Vec<u8>,
    /// The number of characters that belong to no decoded byte.
    pub dropped: usize,
}

/// Reads a hexadecimal digit.
pub fn hex_digit(c: char) -> (v: Option<u8>)
    ensures
        v == hex_digit_value(c),
        v matches Some(d) ==> d < 16,
{
    if c >= '0' && c <= '9' {
        Some((c as u8) - 0x30)
    } else if c >= 'a' && c <= 'f' {
        Some((c as u8) - 0x61 + 10)
    } else if c >= 'A' && c <= 'F' {
        Some((c as u8) - 0x41 + 10)
    } else {
        None
    }
}

/// Reads a two-character window.
pub fn read_window(a: char, b: char) -> (v: Option<u8>)
    ensures
        v == window_value(a, b),
{
    match (hex_digit(a), hex_digit(b)) {
        (Some(high), Some(low)) => Some(high * 16 + low),
        _ => None,
    }
}

/// Decodes `chars[from..to]`.
pub fn decode_range(chars: &[char], from: usize, to: usize) -> (out: Vec<u8>)
    requires
        from <= to <= chars@.len(),
    ensures
        out@ == decode(chars@.subrange(from as int, to as int)),
        2 * out@.len() <= to - from,
{
    let mut out: Vec<u8> = Vec::new();
    let mut i: usize = from;
    assert(Seq::<u8>::empty() + decode(chars@.subrange(from as int, to as int)) == decode(
        chars@.subrange(from as int, to as int),
    ));
    while to - i >= 2
        invariant
            from <= i <= to <= chars@.len(),
            decode(chars@.subrange(from as int, to as int)) == out@ + decode(
                chars@.subrange(i as int, to as int),
            ),
            2 * out@.len() <= i - from,
        decreases to - i,
    {
        let ghost rest = chars@.subrange(i as int, to as int);
        proof {
            assert(rest[0] == chars@[i as int]);
            assert(rest[1] == chars@[i + 1]);
            assert(rest.skip(2) == chars@.subrange(i + 2, to as int));
            assert(rest.skip(1) == chars@.subrange(i + 1, to as int));
        }
        match read_window(chars[i], chars[i + 1]) {
            Some(byte) => {
                proof {
                    assert(out@ + (seq![byte] + decode(rest.skip(2))) == out@.push(byte) + decode(
                        rest.skip(2),
                    ));
                }
                out.push(byte);
                i = i + 2;
            },
            None => {
                i = i + 1;
            },
        }
    }
    assert(out@ + Seq::<u8>::empty() == out@);
    out
}

/// Converts hexadecimal text to bytes. Surrounding white space is removed first; the rest is
/// decoded leniently, so the conversion never fails.
pub fn hex_to_binary(hex_str: &str) -> (result: Result<Vec<u8>, PipelineError>)
    ensures
        result matches Ok(bytes) && bytes@ == decode(trim(hex_str@)),
{
    let chars = chars_of(hex_str);
    let (from, to) = trim_bounds(chars.as_slice());
    Ok(decode_range(chars.as_slice(), from, to))
}

/// Converts hexadecimal text to bytes, and counts the characters that were passed over.
pub fn transcode(hex_text: &str) -> (result: Transcoded)
    ensures
        result.bytes@ == decode(trim(hex_text@)),
        result.dropped == trim(hex_text@).len() - 2 * result.bytes@.len(),
{
    let chars = chars_of(hex_text);
    let (from, to) = trim_bounds(chars.as_slice());
    let bytes = decode_range(chars.as_slice(), from, to);
    let dropped = (to - from) - 2 * bytes.len();
    Transcoded { bytes, dropped }
}

/// Decoding never yields more bytes than half the number of characters.
pub proof fn lemma_decode_length(s: Seq<char>)
    ensures
        2 * decode(s).len() <= s.len(),
    decreases s.len(),
{
    if s.len() >= 2 {
        lemma_decode_length(s.skip(2));
        lemma_decode_length(s.skip(1));
    }
}

/// The byte that the `k`-th pair of characters of `s` stands for.
pub open spec fn pair_at(s: Seq<char>, k: int) -> Option<u8> {
    window_value(s[2 * k], s[2 * k + 1])
}

/// Text made of well-formed pairs alone decodes pair by pair: nothing is passed over.
pub proof fn lemma_decode_pairs(s: Seq<char>)
    requires
        s.len() % 2 == 0,
        forall|k: int| 0 <= k < s.len() / 2 ==> #[trigger] pair_at(s, k) is Some,
    ensures
        decode(s).len() == s.len() / 2,
        forall|k: int| 0 <= k < s.len() / 2 ==> Some(#[trigger] decode(s)[k]) == pair_at(s, k),
    decreases s.len(),
{
    if s.len() >= 2 {
        let t = s.skip(2);
        assert(pair_at(s, 0) is Some);
        assert forall|k: int| 0 <= k < t.len() / 2 implies #[trigger] pair_at(t, k) is Some by {
            assert(pair_at(s, k + 1) is Some);
            assert(t[2 * k] == s[2 * (k + 1)]);
            assert(t[2 * k + 1] == s[2 * (k + 1) + 1]);
        }
        lemma_decode_pairs(t);
        assert forall|k: int| 0 <= k < s.len() / 2 implies Some(#[trigger] decode(s)[k])
            == pair_at(s, k) by {
            if k > 0 {
                assert(decode(s)[k] == decode(t)[k - 1]);
                assert(t[2 * (k - 1)] == s[2 * k]);
                assert(t[2 * (k - 1) + 1] == s[2 * k + 1]);
                assert(pair_at(t, k - 1) == pair_at(s, k));
            }
        }
    }
}

/// Decoding the hexadecimal text of a byte sequence gives the sequence back.
pub proof fn lemma_decode_hex_text(bytes: Seq<u8>)
    ensures
        decode(hex_text(bytes)) == bytes,
    decreases bytes.len(),
{
    if bytes.len() > 0 {
        let s = hex_text(bytes);
        let b = bytes[0];
        let high = hex_digit_char((b / 16) as nat);
        let low = hex_digit_char((b % 16) as nat);
        lemma_decode_hex_text(bytes.skip(1));
        assert(s[0] == high);
        assert(s[1] == low);
        assert(s.skip(2) == hex_text(bytes.skip(1)));
        assert(hex_digit_value(high) == Some((b / 16) as u8));
        assert(hex_digit_value(low) == Some((b % 16) as u8));
        assert(window_value(high, low) == Some(b));
        assert(seq![b] + bytes.skip(1) == bytes);
    }
}

} // verus!
