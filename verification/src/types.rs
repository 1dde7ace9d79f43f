//! The data model of the output document: ranges, annotations, mentions,
//! and the well-formedness predicates that the builder maintains.

use vstd::prelude::*;

verus! {

/// A half-open byte range `[start, end)` into the output text.
#[derive(Clone, Copy, Debug, PartialEq, Eq, Structural)]
pub struct TextRange {
    pub start: usize,
    pub end: usize,
}

impl TextRange {
    /// True when the range is ordered and ends at or before `len`.
    pub open spec fn wf(self, len: nat) -> bool {
        self.start <= self.end <= len
    }
}

/// A concrete style: any combination of bold, italic and underline.
#[derive(Clone, Copy, Debug, PartialEq, Eq, Structural)]
pub struct HighlightStyle {
    pub bold: bool,
    pub italic: bool,
    pub underline: bool,
}

impl HighlightStyle {
    /// The style that marks nothing at all.
    pub open spec fn is_plain(self) -> bool {
        !self.bold && !self.italic && !self.underline
    }
}

/// An annotation attached to a range of the output text.
///
/// The variants are mutually exclusive per range: generic code content,
/// a syntax token with an opaque category handle resolved downstream,
/// an explicit style, or a mention of another user or of the reader.
#[derive(Clone, Copy, Debug, PartialEq, Eq, Structural)]
pub enum Highlight {
    Code,
    Id(u64),
    Highlight(HighlightStyle),
    Mention,
    SelfMention,
}

impl From<HighlightStyle> for Highlight {
    fn from(style: HighlightStyle) -> (r: Self) {
        Highlight::Highlight(style)
    }
}

impl vstd::std_specs::convert::FromSpecImpl<HighlightStyle> for Highlight {
    open spec fn obeys_from_spec() -> bool {
        true
    }

    open spec fn from_spec(style: HighlightStyle) -> Self {
        Highlight::Highlight(style)
    }
}

impl From<u64> for Highlight {
    fn from(id: u64) -> (r: Self) {
        Highlight::Id(id)
    }
}

impl vstd::std_specs::convert::FromSpecImpl<u64> for Highlight {
    open spec fn obeys_from_spec() -> bool {
        true
    }

    open spec fn from_spec(id: u64) -> Self {
        Highlight::Id(id)
    }
}

/// An externally supplied span of the markdown source that must be re-tagged
/// in the output text at the corresponding offset.
#[derive(Clone, Copy, Debug, PartialEq, Eq, Structural)]
pub struct Mention {
    pub range: TextRange,
    pub is_self_mention: bool,
}

/// One token reported by a syntax highlighter: a range relative to the code
/// string it was produced for, and an opaque syntax-category handle.
#[derive(Clone, Copy, Debug, PartialEq, Eq, Structural)]
pub struct SyntaxToken {
    pub start: usize,
    pub end: usize,
    pub id: u64,
}

/// The finished output document.
#[derive(Debug, Clone)]
pub struct RichText {
    /// The flattened display text, UTF-8 encoded.
    pub text: Vec<u8>,
    /// Annotations over `text`, in the order they were produced.
    pub highlights: Vec<(TextRange, Highlight)>,
    /// Ranges of `text` that act as links; parallel to `link_urls`.
    pub link_ranges: Vec<TextRange>,
    /// Destination of each entry of `link_ranges`, correlated by index.
    pub link_urls: Vec<String>,
}

/// Every annotation range is ordered and ends at or before `len`.
pub open spec fn runs_bounded(runs: Seq<(TextRange, Highlight)>, len: nat) -> bool {
    forall|i: int| 0 <= i < runs.len() ==> (#[trigger] runs[i]).0.wf(len)
}

/// Annotation range ends never decrease along the sequence.
pub open spec fn ends_monotone(runs: Seq<(TextRange, Highlight)>) -> bool {
    forall|i: int, j: int|
        0 <= i <= j < runs.len() ==> (#[trigger] runs[i]).0.end <= (#[trigger] runs[j]).0.end
}

/// Annotations are sorted ascending by start and pairwise non-overlapping:
/// each one ends at or before the next one starts.
pub open spec fn runs_disjoint_sorted(runs: Seq<(TextRange, Highlight)>) -> bool {
    forall|i: int, j: int|
        0 <= i < j < runs.len() ==> (#[trigger] runs[i]).0.end <= (#[trigger] runs[j]).0.start
}

/// Every link range is ordered and ends at or before `len`.
pub open spec fn links_bounded(links: Seq<TextRange>, len: nat) -> bool {
    forall|i: int| 0 <= i < links.len() ==> (#[trigger] links[i]).wf(len)
}

/// The invariant the caller owes on the mention queue: each range is ordered,
/// and the queue is sorted ascending by start with no overlaps.
pub open spec fn mentions_wf(ms: Seq<Mention>) -> bool {
    &&& forall|i: int| 0 <= i < ms.len() ==> (#[trigger] ms[i]).range.start <= ms[i].range.end
    &&& forall|i: int, j: int|
        0 <= i < j < ms.len() ==> (#[trigger] ms[i]).range.end <= (#[trigger] ms[j]).range.start
}

} // verus!
