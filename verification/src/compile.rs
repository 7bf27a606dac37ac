//! The boundary to the assembler: what is handed to it, and how its answer is judged.

use vstd::prelude::*;
use vstd::string::StringExecFns;
use crate::error::PipelineError;
use crate::text::{append_chars, chars_of, find_char, first_index_of, string_of, text_of, texts};

verus! {

/// `text` with every occurrence of `pattern` replaced, scanning from the left and never
/// looking again at what was already replaced. An empty pattern occurs nowhere.
pub open spec fn replaced(text: Seq<char>, pattern: Seq<char>, replacement: Seq<char>) -> Seq<char>
    decreases text.len(),
{
    if pattern.len() == 0 || text.len() < pattern.len() {
        text
    } else if text.take(pattern.len() as int) == pattern {
        replacement + replaced(text.skip(pattern.len() as int), pattern, replacement)
    } else {
        seq![text[0]] + replaced(text.skip(1), pattern, replacement)
    }
}

/// `line` without one trailing carriage return.
pub open spec fn strip_return(line: Seq<char>) -> Seq<char> {
    if line.len() > 0 && line.last() == '\r' {
        line.drop_last()
    } else {
        line
    }
}

/// The lines of `s`. A line ends at a line feed, with or without a carriage return before
/// it; the endings are not part of the lines, and the last line needs none.
pub open spec fn lines_of(s: Seq<char>) -> Seq<Seq<char>>
    decreases s.len(),
{
    if s.len() == 0 {
        Seq::empty()
    } else {
        let end = first_index_of(s, '\n');
        if end >= s.len() {
            seq![s]
        } else {
            seq![strip_return(s.take(end as int))] + lines_of(s.skip(end as int + 1))
        }
    }
}

/// The include directive as the generated program writes it, relative to the assembler's
/// resource directory.
pub open spec fn relative_directive() -> Seq<char> {
    "INCLUDE \"Inc150/WRISTAPP.I\""@
}

/// The include directive for the resource at `path`.
pub open spec fn absolute_directive(path: Seq<char>) -> Seq<char> {
    "INCLUDE \""@ + path + "\""@
}

/// The program text as the assembler is to see it: every relative include directive rewritten
/// to name the resource at `path`.
pub open spec fn resolved(program: Seq<char>, path: Seq<char>) -> Seq<char> {
    replaced(program, relative_directive(), absolute_directive(path))
}

/// What the assembler produced.
#[derive(Debug, Clone, PartialEq, Eq)]
pub struct CompiledArtifact {
    /// The assembler's notices; they may be benign.
    pub diagnostics: Vec<String>,
    /// The machine code in hexadecimal; never empty.
    pub hex_text: String,
    /// The listing, when the caller asked for it.
    pub listing: Option<Vec<String>>,
}

impl CompiledArtifact {
    /// There is machine code: the hexadecimal text is not empty.
    pub open spec fn wf(&self) -> bool {
        self.hex_text@.len() > 0
    }
}

/// Tells whether `pattern` stands in `text` at position `at`.
pub fn matches_at(text: &[char], at: usize, pattern: &[char]) -> (b: bool)
    requires
        at + pattern@.len() <= text@.len(),
    ensures
        b == (text@.subrange(at as int, at + pattern@.len()) == pattern@),
{
    let n = text.len();
    let m = pattern.len();
    let mut k: usize = 0;
    while k < m
        invariant
            k <= m == pattern@.len(),
            at + m <= n == text@.len(),
            forall|j: int| 0 <= j < k ==> text@[at + j] == pattern@[j],
        decreases m - k,
    {
        if text[at + k] != pattern[k] {
            assert(text@.subrange(at as int, at + m)[k as int] != pattern@[k as int]);
            return false;
        }
        k = k + 1;
    }
    assert(text@.subrange(at as int, at + m) =~= pattern@);
    true
}

/// Replaces every occurrence of `pattern` in `text` by `replacement`.
pub fn replace_all(text: &[char], pattern: &[char], replacement: &[char]) -> (out: Vec<char>)
    ensures
        out@ == replaced(text@, pattern@, replacement@),
{
    let n = text.len();
    let m = pattern.len();
    let mut out: Vec<char> = Vec::new();
    let mut i: usize = 0;
    assert(text@.skip(0) == text@);
    assert(out@ + text@ == text@);
    if m > 0 {
        while n - i >= m
            invariant
                i <= n == text@.len(),
                0 < m == pattern@.len(),
                replaced(text@, pattern@, replacement@) == out@ + replaced(
                    text@.skip(i as int),
                    pattern@,
                    replacement@,
                ),
            decreases n - i,
        {
            let ghost rest = text@.skip(i as int);
            proof {
                assert(rest.take(m as int) == text@.subrange(i as int, i + m));
                assert(rest.skip(m as int) == text@.skip(i + m));
                assert(rest.skip(1) == text@.skip(i + 1));
                assert(rest[0] == text@[i as int]);
            }
            if matches_at(text, i, pattern) {
                let ghost before = out@;
                append_chars(&mut out, replacement, 0, replacement.len());
                proof {
                    assert(replacement@.subrange(0, replacement@.len() as int) == replacement@);
                    let tail = replaced(rest.skip(m as int), pattern@, replacement@);
                    assert(before + (replacement@ + tail) == (before + replacement@) + tail);
                }
                i = i + m;
            } else {
                proof {
                    let tail = replaced(rest.skip(1), pattern@, replacement@);
                    assert(out@ + (seq![rest[0]] + tail) == out@.push(rest[0]) + tail);
                }
                out.push(text[i]);
                i = i + 1;
            }
        }
    }
    proof {
        assert(text@.skip(i as int) == text@.subrange(i as int, n as int));
    }
    append_chars(&mut out, text, i, n);
    out
}

/// Rewrites the relative include directive of `program` to name the resource at
/// `include_path`.
pub fn resolve_include(program: &str, include_path: &str) -> (out: String)
    ensures
        out@ == resolved(program@, include_path@),
{
    let text = chars_of(program);
    let pattern = chars_of("INCLUDE \"Inc150/WRISTAPP.I\"");
    let mut directive = chars_of("INCLUDE \"");
    let path = chars_of(include_path);
    let quote = chars_of("\"");
    append_chars(&mut directive, path.as_slice(), 0, path.len());
    append_chars(&mut directive, quote.as_slice(), 0, quote.len());
    proof {
        assert(path@.subrange(0, path@.len() as int) == path@);
        assert(quote@.subrange(0, quote@.len() as int) == quote@);
    }
    let out = replace_all(text.as_slice(), pattern.as_slice(), directive.as_slice());
    text_of(out.as_slice())
}

/// Splits `text` into its lines.
pub fn split_lines(text: &[char]) -> (lines: Vec<String>)
    ensures
        texts(lines@) == lines_of(text@),
{
    let n = text.len();
    let mut lines: Vec<String> = Vec::new();
    let mut start: usize = 0;
    assert(text@.skip(0) == text@);
    assert(texts(lines@) + lines_of(text@) == lines_of(text@));
    while start < n
        invariant
            start <= n == text@.len(),
            lines_of(text@) == texts(lines@) + lines_of(text@.skip(start as int)),
        decreases n - start,
    {
        let end = find_char(text, start, n, '\n');
        let ghost rest = text@.skip(start as int);
        let ghost before = texts(lines@);
        proof {
            assert(rest == text@.subrange(start as int, n as int));
            assert(first_index_of(rest, '\n') == end - start);
        }
        if end == n {
            let line = string_of(text, start, n);
            lines.push(line);
            proof {
                assert(texts(lines@) == before.push(rest));
                assert(before + seq![rest] == before.push(rest));
                assert(text@.skip(n as int).len() == 0);
                assert(texts(lines@) + lines_of(text@.skip(n as int)) == texts(lines@));
            }
            start = n;
        } else {
            let stop = if end > start && text[end - 1] == '\r' {
                end - 1
            } else {
                end
            };
            let line = string_of(text, start, stop);
            lines.push(line);
            proof {
                let whole = rest.take(end - start);
                assert(whole == text@.subrange(start as int, end as int));
                if end > start {
                    assert(whole.last() == text@[end - 1]);
                }
                assert(strip_return(whole) == text@.subrange(start as int, stop as int));
                assert(rest.skip(end - start + 1) == text@.skip(end + 1));
                let tail = lines_of(text@.skip(end + 1));
                assert(texts(lines@) == before.push(strip_return(whole)));
                assert(before + (seq![strip_return(whole)] + tail) == before.push(
                    strip_return(whole),
                ) + tail);
            }
            start = end + 1;
        }
    }
    assert(texts(lines@) + Seq::<Seq<char>>::empty() == texts(lines@));
    lines
}

/// Prepares the program text for the assembler. The device-runtime resource must have been
/// found at `include_path`; where it was not, nothing is prepared and the failure names the
/// path. Otherwise the include directive is rewritten to that path and the text is split into
/// lines.
pub fn prepare_source(program: &str, include_path: &str, include_found: bool) -> (result: Result<
    Vec<String>,
    PipelineError,
>)
    ensures
        include_found ==> (result matches Ok(lines) && texts(lines@) == lines_of(
            resolved(program@, include_path@),
        )),
        !include_found ==> (result matches Err(PipelineError::MissingResource { path }) && path@
            == include_path@),
{
    if !include_found {
        return Err(PipelineError::MissingResource { path: String::from_str(include_path) });
    }
    let source = resolve_include(program, include_path);
    let chars = chars_of(source.as_str());
    Ok(split_lines(chars.as_slice()))
}

/// Judges what came back from the assembler. `outcome` is `Err` with the diagnostics when the
/// assembler itself failed, else `Ok` with diagnostics, hexadecimal text and listing. Assembly
/// succeeded exactly when there is hexadecimal text, however many diagnostics came with it;
/// every failure carries the diagnostics unchanged. The listing is kept only on request.
pub fn accept_assembly(
    outcome: Result<(Vec<String>, String, Vec<String>), Vec<String>>,
    show_listing: bool,
) -> (result: Result<CompiledArtifact, PipelineError>)
    ensures
        match outcome {
            Ok((diagnostics, hex_text, listing)) => if hex_text@.len() > 0 {
                result == Ok::<CompiledArtifact, PipelineError>(
                    CompiledArtifact {
                        diagnostics,
                        hex_text,
                        listing: if show_listing {
                            Some(listing)
                        } else {
                            None
                        },
                    },
                )
            } else {
                result == Err::<CompiledArtifact, PipelineError>(
                    PipelineError::AssemblyFailure { diagnostics },
                )
            },
            Err(diagnostics) => result == Err::<CompiledArtifact, PipelineError>(
                PipelineError::AssemblyFailure { diagnostics },
            ),
        },
        result matches Ok(artifact) ==> artifact.wf(),
{
    match outcome {
        Ok((diagnostics, hex_text, listing)) => {
            if hex_text.as_str().is_empty() {
                Err(PipelineError::AssemblyFailure { diagnostics })
            } else {
                let listing = if show_listing {
                    Some(listing)
                } else {
                    None
                };
                Ok(CompiledArtifact { diagnostics, hex_text, listing })
            }
        },
        Err(diagnostics) => Err(PipelineError::AssemblyFailure { diagnostics }),
    }
}

} // verus!
