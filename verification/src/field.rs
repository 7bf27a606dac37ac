//! Fixed-width fields: labels in upper case, cut or padded to the width of a display slot.

use vstd::prelude::*;
use crate::text::{append_chars, chars_of, text_of};

verus! {

/// The width of a display slot.
#[derive(Debug, Clone, Copy, PartialEq, Eq, Structural)]
pub enum FieldWidth {
    /// The six characters of the top and middle lines.
    Six,
    /// The eight characters of the bottom line.
    Eight,
}

impl FieldWidth {
    /// The number of characters of a slot of this width.
    pub open spec fn chars(self) -> nat {
        match self {
            FieldWidth::Six => 6,
            FieldWidth::Eight => 8,
        }
    }

    /// The number of characters of a slot of this width.
    pub fn count(self) -> (n: usize)
        ensures
            n == self.chars(),
    {
        match self {
            FieldWidth::Six => 6,
            FieldWidth::Eight => 8,
        }
    }
}

/// A label made to fit a display slot.
#[derive(Debug, Clone, PartialEq, Eq)]
pub struct FormattedField {
    /// The characters stored in the slot.
    pub text: String,
    /// The width of the slot.
    pub width: FieldWidth,
}

impl FormattedField {
    /// The text fills the slot exactly.
    pub open spec fn wf(&self) -> bool {
        self.text@.len() == self.width.chars()
    }
}

/// The character belongs to ASCII.
pub open spec fn is_ascii(c: char) -> bool {
    (c as u32) < 128
}

/// The character is a small ASCII letter.
pub open spec fn is_ascii_lowercase(c: char) -> bool {
    'a' <= c <= 'z'
}

/// The capital of a small ASCII letter; any other character as it is.
pub open spec fn ascii_upper(c: char) -> char {
    if is_ascii_lowercase(c) {
        ((c as u8) - 32) as char
    } else {
        c
    }
}

/// The upper-case mapping of a character outside ASCII, as the Unicode tables of the standard
/// library give it.
pub uninterp spec fn unicode_upper(c: char) -> Seq<char>;

/// The upper-case mapping of one character. Within ASCII the small letters map to their
/// capitals and nothing else changes.
pub open spec fn upper_of(c: char) -> Seq<char> {
    if is_ascii(c) {
        seq![ascii_upper(c)]
    } else {
        unicode_upper(c)
    }
}

/// `s` in upper case: the mappings of its characters, in order.
pub open spec fn uppercase(s: Seq<char>) -> Seq<char>
    decreases s.len(),
{
    if s.len() == 0 {
        Seq::empty()
    } else {
        uppercase(s.drop_last()) + upper_of(s.last())
    }
}

/// `s` made exactly `width` characters long: cut where it is longer, padded with spaces where
/// it is shorter.
pub open spec fn fit(s: Seq<char>, width: nat) -> Seq<char> {
    if s.len() >= width {
        s.take(width as int)
    } else {
        s + Seq::new((width - s.len()) as nat, |i: int| ' ')
    }
}

/// The smaller of two lengths.
pub open spec fn shorter(a: nat, b: nat) -> nat {
    if a <= b {
        a
    } else {
        b
    }
}

/// `c` is one of the characters that the upper-case mapping yields for some character of
/// `raw`.
pub open spec fn yielded_by(raw: Seq<char>, c: char) -> bool {
    exists|i: int, k: int|
        0 <= i < raw.len() && 0 <= k < upper_of(raw[i]).len() && #[trigger] upper_of(raw[i])[k]
            == c
}

/// `char::to_uppercase` yields the upper-case mapping of a character, which is one character
/// or more.
#[verifier::external_body]
fn unicode_uppercase(c: char) -> (out: Vec<char>)
    ensures
        out@ == unicode_upper(c),
        out@.len() >= 1,
{
    c.to_uppercase().collect()
}

/// Puts `label` in upper case.
pub fn uppercase_text(label: &[char]) -> (out: Vec<char>)
    ensures
        out@ == uppercase(label@),
        out@.len() >= label@.len(),
{
    let n = label.len();
    let mut out: Vec<char> = Vec::new();
    let mut i: usize = 0;
    while i < n
        invariant
            i <= n == label@.len(),
            out@ == uppercase(label@.take(i as int)),
            out@.len() >= i,
        decreases n - i,
    {
        let c = label[i];
        proof {
            let next = label@.take(i + 1);
            assert(next.drop_last() == label@.take(i as int));
            assert(next.last() == c);
        }
        if (c as u32) < 128 {
            if c >= 'a' && c <= 'z' {
                out.push(((c as u8) - 32) as char);
            } else {
                out.push(c);
            }
            assert(out@ == uppercase(label@.take(i as int)) + seq![ascii_upper(c)]);
        } else {
            let mapped = unicode_uppercase(c);
            append_chars(&mut out, mapped.as_slice(), 0, mapped.len());
            assert(mapped@.subrange(0, mapped@.len() as int) == mapped@);
        }
        i = i + 1;
    }
    assert(label@.take(n as int) == label@);
    out
}

/// Cuts or pads `text` to the width of a slot.
pub fn fit_to_width(text: &[char], width: FieldWidth) -> (out: Vec<char>)
    ensures
        out@ == fit(text@, width.chars()),
        out@.len() == width.chars(),
{
    let w = width.count();
    let n = text.len();
    let mut out: Vec<char> = Vec::new();
    if n >= w {
        append_chars(&mut out, text, 0, w);
        assert(out@ == text@.take(w as int));
    } else {
        append_chars(&mut out, text, 0, n);
        assert(text@.subrange(0, n as int) == text@);
        let mut k: usize = n;
        while k < w
            invariant
                n <= k <= w,
                n == text@.len(),
                out@ == text@ + Seq::new((k - n) as nat, |i: int| ' '),
            decreases w - k,
        {
            out.push(' ');
            k = k + 1;
        }
    }
    out
}

/// Formats a label for a slot: upper case, exactly as long as the slot is wide. The first
/// characters of the field, as many as the label has or the slot holds, are those of the
/// label in upper case.
pub fn format_field(label: &str, width: FieldWidth) -> (field: FormattedField)
    ensures
        field.wf(),
        field.width == width,
        field.text@ == fit(uppercase(label@), width.chars()),
        field.text@.take(shorter(label@.len(), width.chars()) as int) == uppercase(label@).take(
            shorter(label@.len(), width.chars()) as int,
        ),
{
    let raw = chars_of(label);
    let upper = uppercase_text(raw.as_slice());
    let fitted = fit_to_width(upper.as_slice(), width);
    let text = text_of(fitted.as_slice());
    FormattedField { text, width }
}

/// Every character of a field is a pad space or comes from the upper-case mapping of a
/// character of the label.
pub proof fn lemma_field_is_uppercase(raw: Seq<char>, width: nat)
    ensures
        fit(uppercase(raw), width).len() == width,
        forall|j: int|
            0 <= j < width ==> #[trigger] fit(uppercase(raw), width)[j] == ' ' || yielded_by(
                raw,
                fit(uppercase(raw), width)[j],
            ),
{
    lemma_uppercase_yield(raw);
}

/// Every character of a text in upper case comes from the mapping of a character of the
/// text it was made from.
pub proof fn lemma_uppercase_yield(raw: Seq<char>)
    ensures
        forall|j: int| 0 <= j < uppercase(raw).len() ==> yielded_by(raw, #[trigger] uppercase(raw)[j]),
    decreases raw.len(),
{
    if raw.len() > 0 {
        let head = raw.drop_last();
        let n = raw.len() - 1;
        lemma_uppercase_yield(head);
        assert forall|j: int| 0 <= j < uppercase(raw).len() implies yielded_by(
            raw,
            #[trigger] uppercase(raw)[j],
        ) by {
            let c = uppercase(raw)[j];
            if j < uppercase(head).len() {
                assert(yielded_by(head, uppercase(head)[j]));
                let (i, k) = choose|i: int, k: int|
                    0 <= i < head.len() && 0 <= k < upper_of(head[i]).len() && #[trigger] upper_of(
                        head[i],
                    )[k] == c;
                assert(head[i] == raw[i]);
                assert(upper_of(raw[i])[k] == c);
            } else {
                let k = j - uppercase(head).len();
                assert(upper_of(raw[n])[k] == c);
            }
        }
    }
}

/// For a label within ASCII the mapping is one to one: the text in upper case has the length
/// of the label, holds the capital of each of its characters, and no small letter.
pub proof fn lemma_uppercase_ascii(raw: Seq<char>)
    requires
        forall|i: int| 0 <= i < raw.len() ==> is_ascii(#[trigger] raw[i]),
    ensures
        uppercase(raw).len() == raw.len(),
        forall|i: int| 0 <= i < raw.len() ==> #[trigger] uppercase(raw)[i] == ascii_upper(raw[i]),
        forall|i: int| 0 <= i < raw.len() ==> !is_ascii_lowercase(#[trigger] uppercase(raw)[i]),
    decreases raw.len(),
{
    if raw.len() > 0 {
        let head = raw.drop_last();
        assert forall|i: int| 0 <= i < head.len() implies is_ascii(#[trigger] head[i]) by {
            assert(head[i] == raw[i]);
        }
        lemma_uppercase_ascii(head);
        assert(is_ascii(raw[raw.len() - 1]));
        assert forall|i: int| 0 <= i < raw.len() implies #[trigger] uppercase(raw)[i]
            == ascii_upper(raw[i]) by {
            if i < head.len() {
                assert(uppercase(raw)[i] == uppercase(head)[i]);
                assert(head[i] == raw[i]);
            }
        }
    }
}

} // verus!
