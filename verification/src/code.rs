//! Code delegation: code content is appended verbatim and the sparse token
//! ranges reported by a syntax highlighter are turned into a fully covering
//! annotation sequence over the appended span.

use vstd::prelude::*;

use crate::paragraph::push_bytes;
use crate::types::{Highlight, SyntaxToken, TextRange};

verus! {

/// The annotations produced for code content of length `clen` appended at
/// output offset `base`, from the tokens at index `i` on, the span below
/// `offset` being covered already. Every gap before, between and after
/// tokens becomes a generic-code annotation; every token becomes a syntax-id
/// annotation. A token that is unordered, overlaps covered ground or reaches
/// past the content is dropped.
pub open spec fn code_runs_from(
    tokens: Seq<SyntaxToken>,
    i: int,
    offset: int,
    clen: int,
    base: int,
) -> Seq<(TextRange, Highlight)>
    decreases tokens.len() - i,
{
    if i < 0 || i >= tokens.len() {
        if offset < clen {
            seq![
                (
                    TextRange { start: (base + offset) as usize, end: (base + clen) as usize },
                    Highlight::Code,
                ),
            ]
        } else {
            Seq::empty()
        }
    } else {
        let t = tokens[i];
        if offset <= t.start && t.start <= t.end && t.end <= clen {
            (if t.start > offset {
                seq![
                    (
                        TextRange {
                            start: (base + offset) as usize,
                            end: (base + t.start) as usize,
                        },
                        Highlight::Code,
                    ),
                ]
            } else {
                Seq::empty()
            }) + seq![
                (
                    TextRange { start: (base + t.start) as usize, end: (base + t.end) as usize },
                    Highlight::Id(t.id),
                ),
            ] + code_runs_from(tokens, i + 1, t.end as int, clen, base)
        } else {
            code_runs_from(tokens, i + 1, offset, clen, base)
        }
    }
}

/// The full-coverage annotation sequence for code content of length `clen`
/// appended at output offset `base`, given the highlighter's tokens.
pub open spec fn code_runs_spec(tokens: Seq<SyntaxToken>, clen: int, base: int) -> Seq<
    (TextRange, Highlight),
> {
    code_runs_from(tokens, 0, 0, clen, base)
}

/// Appends code content verbatim and converts the highlighter's sparse token
/// ranges into annotations that cover the appended span completely.
pub fn render_code(
    text: &mut Vec<u8>,
    highlights: &mut Vec<(TextRange, Highlight)>,
    content: &Vec<u8>,
    tokens: &Vec<SyntaxToken>,
)
    ensures
        final(text)@ == old(text)@ + content@,
        final(highlights)@ == old(highlights)@ + code_runs_spec(
            tokens@,
            content@.len() as int,
            old(text)@.len() as int,
        ),
{
    let base = text.len();
    push_bytes(text, content);
    let clen = content.len();
    let total = text.len();
    proof {
        assert(base + clen == total);
        assert(base + clen <= usize::MAX);
    }
    let mut offset: usize = 0;
    let mut j: usize = 0;
    while j < tokens.len()
        invariant
            j <= tokens@.len(),
            offset <= clen,
            base + clen <= usize::MAX,
            clen == content@.len(),
            old(highlights)@ + code_runs_spec(tokens@, clen as int, base as int) == highlights@
                + code_runs_from(tokens@, j as int, offset as int, clen as int, base as int),
        decreases tokens@.len() - j,
    {
        let t = tokens[j];
        if t.start >= offset && t.end >= t.start && t.end <= clen {
            if t.start > offset {
                highlights.push(
                    (TextRange { start: base + offset, end: base + t.start }, Highlight::Code),
                );
            }
            highlights.push(
                (TextRange { start: base + t.start, end: base + t.end }, Highlight::Id(t.id)),
            );
            proof {
                assert(old(highlights)@ + code_runs_spec(tokens@, clen as int, base as int)
                    =~= highlights@ + code_runs_from(
                    tokens@,
                    j as int + 1,
                    t.end as int,
                    clen as int,
                    base as int,
                ));
            }
            offset = t.end;
        }
        j = j + 1;
    }
    if offset < clen {
        highlights.push((TextRange { start: base + offset, end: base + clen }, Highlight::Code));
    }
    proof {
        assert(highlights@ =~= old(highlights)@ + code_runs_spec(
            tokens@,
            clen as int,
            base as int,
        ));
    }
}

} // verus!
