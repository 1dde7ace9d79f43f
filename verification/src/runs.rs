//! Appending an explicit-style annotation with the merge-on-append rule:
//! a run that is contiguous with the previous run and carries the same style
//! extends that run instead of adding a new entry.

use vstd::prelude::*;

use crate::types::{Highlight, HighlightStyle, TextRange};

verus! {

/// The annotation list after appending an explicit-style run `[start, end)`
/// with style `style`: if the last entry is an explicit-style run with the
/// identical style that ends exactly at `start`, that entry is extended to
/// `end`; otherwise a new entry is appended.
pub open spec fn push_run_spec(
    runs: Seq<(TextRange, Highlight)>,
    start: usize,
    end: usize,
    style: HighlightStyle,
) -> Seq<(TextRange, Highlight)> {
    if runs.len() > 0 && runs.last().0.end == start && runs.last().1
        == Highlight::Highlight(style) {
        runs.update(
            runs.len() - 1,
            (TextRange { start: runs.last().0.start, end }, runs.last().1),
        )
    } else {
        runs.push((TextRange { start, end }, Highlight::Highlight(style)))
    }
}

/// Appends an explicit-style run, extending the previous entry when it has
/// the identical style and is contiguous.
pub fn push_styled_run(
    highlights: &mut Vec<(TextRange, Highlight)>,
    start: usize,
    end: usize,
    style: HighlightStyle,
)
    ensures
        final(highlights)@ == push_run_spec(old(highlights)@, start, end, style),
{
    let n = highlights.len();
    if n > 0 {
        let last = highlights[n - 1];
        if last.0.end == start && last.1 == Highlight::Highlight(style) {
            let _ = highlights.pop();
            highlights.push((TextRange { start: last.0.start, end }, last.1));
            proof {
                assert(highlights@ =~= push_run_spec(old(highlights)@, start, end, style));
            }
            return ;
        }
    }
    highlights.push((TextRange { start, end }, Highlight::Highlight(style)));
}

} // verus!
