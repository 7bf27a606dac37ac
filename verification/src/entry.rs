//! Parsing of the user's list of `service:code` pairs.

use vstd::prelude::*;
use crate::error::PipelineError;
use crate::text::{chars_of, find_char, first_index_of, lemma_first_index_is, lemma_first_index_of, string_of};

verus! {

/// One service with its recovery code.
#[derive(Debug, Clone, PartialEq, Eq)]
pub struct RecoveryEntry {
    pub service: String,
    pub code: String,
}

impl View for RecoveryEntry {
    type V = (Seq<char>, Seq<char>);

    open spec fn view(&self) -> (Seq<char>, Seq<char>) {
        (self.service@, self.code@)
    }
}

/// What is done with a segment that has no colon.
#[derive(Debug, Clone, Copy, PartialEq, Eq, Structural)]
pub enum Strictness {
    /// The segment is dropped and parsing goes on.
    Lenient,
    /// The segment makes the whole input invalid.
    Strict,
}

/// The entries of a list, as pairs of service and code.
pub open spec fn entry_views(list: Seq<RecoveryEntry>) -> Seq<(Seq<char>, Seq<char>)> {
    Seq::new(list.len(), |i: int| list[i]@)
}

/// The contents of a list of string slices.
pub open spec fn slice_texts(list: Seq<&str>) -> Seq<Seq<char>> {
    Seq::new(list.len(), |i: int| list[i]@)
}

/// The pieces of `s` between the occurrences of `sep`. There is always one piece more than
/// there are separators.
pub open spec fn split(s: Seq<char>, sep: char) -> Seq<Seq<char>>
    decreases s.len(),
{
    let at = first_index_of(s, sep);
    if at >= s.len() {
        seq![s]
    } else {
        seq![s.take(at as int)] + split(s.skip(at as int + 1), sep)
    }
}

/// The entry that a segment stands for: what is before its first colon is the service, what
/// is after it the code. A segment without a colon stands for no entry.
pub open spec fn entry_of(segment: Seq<char>) -> Option<(Seq<char>, Seq<char>)> {
    let at = first_index_of(segment, ':');
    if at < segment.len() {
        Some((segment.take(at as int), segment.skip(at as int + 1)))
    } else {
        None
    }
}

/// The entries of the segments that have one, in the order of the segments.
pub open spec fn entries_of(segments: Seq<Seq<char>>) -> Seq<(Seq<char>, Seq<char>)>
    decreases segments.len(),
{
    if segments.len() == 0 {
        Seq::empty()
    } else {
        let before = entries_of(segments.drop_last());
        match entry_of(segments.last()) {
            Some(entry) => before.push(entry),
            None => before,
        }
    }
}

/// The position of the first segment without a colon, if there is one.
pub open spec fn first_malformed(segments: Seq<Seq<char>>) -> Option<nat>
    decreases segments.len(),
{
    if segments.len() == 0 {
        None
    } else {
        match first_malformed(segments.drop_last()) {
            Some(at) => Some(at),
            None => if entry_of(segments.last()) is None {
                Some((segments.len() - 1) as nat)
            } else {
                None
            },
        }
    }
}

/// The entries of a comma-separated list.
pub open spec fn parsed(input: Seq<char>) -> Seq<(Seq<char>, Seq<char>)> {
    entries_of(split(input, ','))
}

/// Reads the segment `chars[from..to]`.
pub fn parse_segment(chars: &[char], from: usize, to: usize) -> (entry: Option<RecoveryEntry>)
    requires
        from <= to <= chars@.len(),
    ensures
        match entry {
            Some(e) => entry_of(chars@.subrange(from as int, to as int)) == Some(e@),
            None => entry_of(chars@.subrange(from as int, to as int)) is None,
        },
{
    let colon = find_char(chars, from, to, ':');
    if colon < to {
        let service = string_of(chars, from, colon);
        let code = string_of(chars, colon + 1, to);
        proof {
            let segment = chars@.subrange(from as int, to as int);
            assert(segment.take(colon - from) == chars@.subrange(from as int, colon as int));
            assert(segment.skip(colon - from + 1) == chars@.subrange(colon + 1, to as int));
        }
        Some(RecoveryEntry { service, code })
    } else {
        None
    }
}

/// Reads a comma-separated list: the entries, and the position of the first segment that
/// has no colon.
pub fn scan_entries(chars: &[char]) -> (found: (Vec<RecoveryEntry>, Option<usize>))
    ensures
        entry_views(found.0@) == parsed(chars@),
        match found.1 {
            Some(at) => first_malformed(split(chars@, ',')) == Some(at as nat),
            None => first_malformed(split(chars@, ',')) is None,
        },
{
    let n = chars.len();
    let mut entries: Vec<RecoveryEntry> = Vec::new();
    let mut bad: Option<usize> = None;
    let mut start: usize = 0;
    let mut count: usize = 0;
    let mut done = false;
    let ghost mut segments: Seq<Seq<char>> = Seq::empty();
    proof {
        assert(chars@.skip(0) == chars@);
        assert(segments + split(chars@, ',') == split(chars@, ','));
    }
    while !done
        invariant
            start <= n == chars@.len(),
            !done ==> count == segments.len(),
            count <= start,
            entry_views(entries@) == entries_of(segments),
            match bad {
                Some(at) => first_malformed(segments) == Some(at as nat),
                None => first_malformed(segments) is None,
            },
            done ==> segments == split(chars@, ','),
            !done ==> split(chars@, ',') == segments + split(chars@.skip(start as int), ','),
        decreases
                (if done {
                    0
                } else {
                    n - start + 1
                }),
    {
        let end = find_char(chars, start, n, ',');
        let ghost rest = chars@.skip(start as int);
        let ghost segment = chars@.subrange(start as int, end as int);
        let ghost before = segments;
        let ghost listed = entry_views(entries@);
        proof {
            assert(rest == chars@.subrange(start as int, n as int));
            assert(rest.take(end - start) == segment);
            assert(before.push(segment).drop_last() == before);
        }
        match parse_segment(chars, start, end) {
            Some(entry) => {
                entries.push(entry);
                assert(entry_views(entries@) == listed.push(entry@));
            },
            None => {
                if bad.is_none() {
                    bad = Some(count);
                }
            },
        }
        proof {
            segments = before.push(segment);
        }
        if end == n {
            proof {
                assert(segment == rest);
                assert(before + seq![rest] == segments);
            }
            done = true;
        } else {
            proof {
                assert(rest.skip(end - start + 1) == chars@.skip(end + 1));
                let tail = split(chars@.skip(end + 1), ',');
                assert(before + (seq![segment] + tail) == segments + tail);
            }
            start = end + 1;
            count = count + 1;
        }
    }
    (entries, bad)
}

/// Parses the user's list. Segments are separated by commas; each is split at its first
/// colon; a segment without a colon is dropped.
pub fn parse_entries(input: &str) -> (entries: Vec<RecoveryEntry>)
    ensures
        entry_views(entries@) == parsed(input@),
{
    let chars = chars_of(input);
    scan_entries(chars.as_slice()).0
}

/// Finds the first segment of the user's list that has no colon, so that the caller can warn
/// about what the lenient policy drops. Segments are counted from zero.
pub fn first_malformed_segment(input: &str) -> (found: Option<usize>)
    ensures
        match found {
            Some(at) => first_malformed(split(input@, ',')) == Some(at as nat),
            None => first_malformed(split(input@, ',')) is None,
        },
{
    let chars = chars_of(input);
    scan_entries(chars.as_slice()).1
}

/// Parses the user's list under a policy for segments without a colon. The lenient policy
/// drops them; the strict policy rejects the input and names the first of them.
pub fn parse_entries_with(input: &str, policy: Strictness) -> (result: Result<
    Vec<RecoveryEntry>,
    PipelineError,
>)
    ensures
        match result {
            Ok(entries) => entry_views(entries@) == parsed(input@) && (policy == Strictness::Strict
                ==> first_malformed(split(input@, ',')) is None),
            Err(e) => policy == Strictness::Strict && (e matches PipelineError::MalformedInput {
                segment,
            } && first_malformed(split(input@, ',')) == Some(segment as nat)),
        },
{
    let chars = chars_of(input);
    let (entries, bad) = scan_entries(chars.as_slice());
    match policy {
        Strictness::Lenient => Ok(entries),
        Strictness::Strict => match bad {
            Some(segment) => Err(PipelineError::MalformedInput { segment }),
            None => Ok(entries),
        },
    }
}

/// Reads segments that are already separated; those without a colon are dropped.
pub fn entries_from_segments(codes: &[&str]) -> (entries: Vec<RecoveryEntry>)
    ensures
        entry_views(entries@) == entries_of(slice_texts(codes@)),
{
    let n = codes.len();
    let mut entries: Vec<RecoveryEntry> = Vec::new();
    let mut i: usize = 0;
    assert(slice_texts(codes@).take(0) == Seq::<Seq<char>>::empty());
    while i < n
        invariant
            i <= n == codes@.len(),
            entry_views(entries@) == entries_of(slice_texts(codes@).take(i as int)),
        decreases n - i,
    {
        let chars = chars_of(codes[i]);
        let ghost listed = entry_views(entries@);
        proof {
            let next = slice_texts(codes@).take(i + 1);
            assert(next.drop_last() == slice_texts(codes@).take(i as int));
            assert(next.last() == chars@);
            assert(chars@.subrange(0, chars@.len() as int) == chars@);
        }
        match parse_segment(chars.as_slice(), 0, chars.len()) {
            Some(entry) => {
                entries.push(entry);
                assert(entry_views(entries@) == listed.push(entry@));
            },
            None => {},
        }
        i = i + 1;
    }
    assert(slice_texts(codes@).take(n as int) == slice_texts(codes@));
    entries
}

/// The entries of two lists of segments, one after the other, are the entries of the first
/// followed by those of the second.
pub proof fn lemma_entries_concat(a: Seq<Seq<char>>, b: Seq<Seq<char>>)
    ensures
        entries_of(a + b) == entries_of(a) + entries_of(b),
    decreases b.len(),
{
    if b.len() == 0 {
        assert(a + b == a);
        assert(entries_of(a) + entries_of(b) == entries_of(a));
    } else {
        lemma_entries_concat(a, b.drop_last());
        assert((a + b).drop_last() == a + b.drop_last());
        assert((a + b).last() == b.last());
        match entry_of(b.last()) {
            Some(entry) => {
                assert((entries_of(a) + entries_of(b.drop_last())).push(entry) == entries_of(a)
                    + entries_of(b.drop_last()).push(entry));
            },
            None => {},
        }
    }
}

/// A segment without a colon leaves no trace: the entries of the segments around it are what
/// they are without it.
pub proof fn lemma_malformed_segment_dropped(
    before: Seq<Seq<char>>,
    malformed: Seq<char>,
    after: Seq<Seq<char>>,
)
    requires
        entry_of(malformed) is None,
    ensures
        entries_of(before + seq![malformed] + after) == entries_of(before) + entries_of(after),
        entries_of(before + seq![malformed] + after) == entries_of(before + after),
{
    lemma_entries_concat(before + seq![malformed], after);
    lemma_entries_concat(before, seq![malformed]);
    lemma_entries_concat(before, after);
    assert(seq![malformed].drop_last() == Seq::<Seq<char>>::empty());
    assert(entries_of(Seq::<Seq<char>>::empty()) == Seq::<(Seq<char>, Seq<char>)>::empty());
    assert(entries_of(seq![malformed]) == Seq::<(Seq<char>, Seq<char>)>::empty());
    assert(entries_of(before) + Seq::<(Seq<char>, Seq<char>)>::empty() == entries_of(before));
}

/// Splitting a text that was joined with a separator gives the pieces of both parts.
pub proof fn lemma_split_joined(a: Seq<char>, sep: char, b: Seq<char>)
    ensures
        split(a + seq![sep] + b, sep) == split(a, sep) + split(b, sep),
    decreases a.len(),
{
    let whole = a + seq![sep] + b;
    let at = first_index_of(a, sep) as int;
    lemma_first_index_of(a, sep);
    if at >= a.len() {
        assert forall|j: int| 0 <= j < a.len() implies whole[j] != sep by {
            assert(whole[j] == a[j]);
        }
        assert(whole[a.len() as int] == sep);
        lemma_first_index_is(whole, sep, a.len() as int);
        assert(whole.take(a.len() as int) == a);
        assert(whole.skip(a.len() as int + 1) == b);
    } else {
        assert forall|j: int| 0 <= j < at implies whole[j] != sep by {
            assert(whole[j] == a[j]);
        }
        assert(whole[at] == a[at]);
        lemma_first_index_is(whole, sep, at);
        assert(whole.take(at) == a.take(at));
        assert(whole.skip(at + 1) == a.skip(at + 1) + seq![sep] + b);
        lemma_split_joined(a.skip(at + 1), sep, b);
        assert(seq![a.take(at)] + (split(a.skip(at + 1), sep) + split(b, sep)) == (seq![
            a.take(at),
        ] + split(a.skip(at + 1), sep)) + split(b, sep));
    }
}

/// A piece of text without comma and colon, set between two lists, is dropped by the parse:
/// the entries of the lists around it are all kept, in order.
pub proof fn lemma_parse_skips_malformed(before: Seq<char>, malformed: Seq<char>, after: Seq<char>)
    requires
        forall|j: int| 0 <= j < malformed.len() ==> malformed[j] != ',' && malformed[j] != ':',
    ensures
        parsed(before + seq![','] + malformed + seq![','] + after) == parsed(before) + parsed(
            after,
        ),
{
    let left = before + seq![','] + malformed;
    lemma_split_joined(left, ',', after);
    lemma_split_joined(before, ',', malformed);
    lemma_first_index_is(malformed, ',', malformed.len() as int);
    lemma_first_index_is(malformed, ':', malformed.len() as int);
    assert(split(malformed, ',') == seq![malformed]);
    assert(split(left + seq![','] + after, ',') == split(before, ',') + seq![malformed] + split(
        after,
        ',',
    ));
    lemma_malformed_segment_dropped(split(before, ','), malformed, split(after, ','));
}

/// An empty input holds no entry.
pub proof fn lemma_empty_input_has_no_entries()
    ensures
        parsed(Seq::<char>::empty()).len() == 0,
{
    let e = Seq::<char>::empty();
    assert(split(e, ',') == seq![e]);
    assert(seq![e].drop_last() == Seq::<Seq<char>>::empty());
    assert(entries_of(Seq::<Seq<char>>::empty()).len() == 0);
    assert(entry_of(e) is None);
}

} // verus!
