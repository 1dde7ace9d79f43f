//! The event folder: the single pass that turns the parser's event stream,
//! together with the mention queue, into the output document.
//!
//! The fold is modelled completely: `step_model` is the mathematical step per
//! event and `fold_model` its iteration. The two answers the language
//! capability gives (resolution, tokens) are threaded through as an oracle
//! sequence, one entry per event; the entry points state that the produced
//! document equals the model's fold for the oracle values actually returned.

use vstd::prelude::*;

use crate::code::{code_runs_spec, render_code};
use crate::events::{events_of, parse_events, LanguageRegistry, MdEvent};
use crate::mentions::{splice_mentions, splice_spec};
use crate::paragraph::{
    item_spec, item_start, new_paragraph, new_paragraph_spec, push_bytes, NL, SPACE,
};
use crate::runs::{push_run_spec, push_styled_run};
use crate::types::{
    ends_monotone, links_bounded, mentions_wf, runs_bounded, runs_disjoint_sorted, Highlight,
    HighlightStyle, Mention, RichText, SyntaxToken, TextRange,
};

verus! {

/// The style a text run receives from the formatting state: bold inside
/// headings and strong emphasis, italic inside emphasis, underline inside a
/// link.
pub open spec fn style_of(bold: i64, italic: i64, linked: bool) -> HighlightStyle {
    HighlightStyle { bold: bold > 0, italic: italic > 0, underline: linked }
}

/// The underline-only style an inline code span receives inside a link.
pub open spec fn underline_style() -> HighlightStyle {
    HighlightStyle { bold: false, italic: false, underline: true }
}

/// One deeper level of nesting, held at the top of the counter's range.
pub open spec fn inc_depth(d: i64) -> i64 {
    if d < i64::MAX {
        (d + 1) as i64
    } else {
        d
    }
}

/// One level of nesting left, held at the bottom of the counter's range.
pub open spec fn dec_depth(d: i64) -> i64 {
    if d > i64::MIN {
        (d - 1) as i64
    } else {
        d
    }
}

/// The view of an optional URL.
pub open spec fn url_view(o: Option<String>) -> Option<Seq<char>> {
    match o {
        Some(u) => Some(u@),
        None => None,
    }
}

/// The complete state of the fold: the document built so far, the formatting
/// state, and the mentions still waiting in the queue.
#[verifier::ext_equal]
pub struct FoldModel {
    pub text: Seq<u8>,
    pub runs: Seq<(TextRange, Highlight)>,
    pub link_ranges: Seq<TextRange>,
    pub link_urls: Seq<Seq<char>>,
    pub bold_depth: i64,
    pub italic_depth: i64,
    pub link_url: Option<Seq<char>>,
    pub language: Option<u64>,
    pub list_stack: Seq<(Option<u64>, bool)>,
    pub mentions: Seq<Mention>,
}

/// The state a fold starts from: a document carried over from the caller,
/// fresh formatting state, and the whole mention queue.
pub open spec fn init_model(
    text: Seq<u8>,
    runs: Seq<(TextRange, Highlight)>,
    link_ranges: Seq<TextRange>,
    link_urls: Seq<Seq<char>>,
    ms: Seq<Mention>,
) -> FoldModel {
    FoldModel {
        text,
        runs,
        link_ranges,
        link_urls,
        bold_depth: 0,
        italic_depth: 0,
        link_url: None,
        language: None,
        list_stack: Seq::empty(),
        mentions: ms,
    }
}

/// The fold state after one event. `o` holds the answers of the language
/// capability for this event: the resolution result for the start of a
/// fenced code block, and the token list for text inside a code block.
pub open spec fn step_model(
    m: FoldModel,
    ev: MdEvent,
    default_language: Option<u64>,
    o: (Option<u64>, Seq<SyntaxToken>),
) -> FoldModel {
    match ev {
        MdEvent::Text { content, source_start, source_end } => {
            if m.language is Some {
                FoldModel {
                    text: m.text + content@,
                    runs: m.runs + code_runs_spec(o.1, content@.len() as int, m.text.len() as int),
                    ..m
                }
            } else {
                let dest = m.text.len();
                let clen = content@.len();
                let sp = splice_spec(m.mentions, source_start, source_end, dest, clen);
                let style = style_of(m.bold_depth, m.italic_depth, m.link_url is Some);
                let runs1 = m.runs + sp.0;
                FoldModel {
                    text: m.text + content@,
                    runs: if style.is_plain() {
                        runs1
                    } else {
                        push_run_spec(runs1, dest as usize, (dest + clen) as usize, style)
                    },
                    link_ranges: if m.link_url is Some {
                        m.link_ranges.push(
                            TextRange { start: dest as usize, end: (dest + clen) as usize },
                        )
                    } else {
                        m.link_ranges
                    },
                    link_urls: match m.link_url {
                        Some(u) => m.link_urls.push(u),
                        None => m.link_urls,
                    },
                    mentions: sp.1,
                    ..m
                }
            }
        },
        MdEvent::Code { content } => {
            let dest = m.text.len();
            let clen = content@.len();
            FoldModel {
                text: m.text + content@,
                runs: if m.link_url is Some {
                    m.runs.push(
                        (
                            TextRange { start: dest as usize, end: (dest + clen) as usize },
                            Highlight::Highlight(underline_style()),
                        ),
                    )
                } else {
                    m.runs
                },
                link_ranges: if m.link_url is Some {
                    m.link_ranges.push(
                        TextRange { start: dest as usize, end: (dest + clen) as usize },
                    )
                } else {
                    m.link_ranges
                },
                link_urls: match m.link_url {
                    Some(u) => m.link_urls.push(u),
                    None => m.link_urls,
                },
                ..m
            }
        },
        MdEvent::ParagraphStart => {
            let p = new_paragraph_spec(m.text, m.list_stack);
            FoldModel { text: p.0, list_stack: p.1, ..m }
        },
        MdEvent::HeadingStart => {
            let p = new_paragraph_spec(m.text, m.list_stack);
            FoldModel { text: p.0, list_stack: p.1, bold_depth: inc_depth(m.bold_depth), ..m }
        },
        MdEvent::CodeBlockStart { fenced } => {
            let p = new_paragraph_spec(m.text, m.list_stack);
            FoldModel {
                text: p.0,
                list_stack: p.1,
                language: match fenced {
                    Some(_) => o.0,
                    None => default_language,
                },
                ..m
            }
        },
        MdEvent::EmphasisStart => FoldModel { italic_depth: inc_depth(m.italic_depth), ..m },
        MdEvent::StrongStart => FoldModel { bold_depth: inc_depth(m.bold_depth), ..m },
        MdEvent::LinkStart { url } => FoldModel { link_url: Some(url@), ..m },
        MdEvent::ListStart { first } => FoldModel {
            list_stack: m.list_stack.push((first, false)),
            ..m
        },
        MdEvent::ItemStart => {
            let p = item_spec(m.text, m.list_stack);
            FoldModel { text: p.0, list_stack: p.1, ..m }
        },
        MdEvent::HeadingEnd => FoldModel { bold_depth: dec_depth(m.bold_depth), ..m },
        MdEvent::CodeBlockEnd => FoldModel { language: None, ..m },
        MdEvent::EmphasisEnd => FoldModel { italic_depth: dec_depth(m.italic_depth), ..m },
        MdEvent::StrongEnd => FoldModel { bold_depth: dec_depth(m.bold_depth), ..m },
        MdEvent::LinkEnd => FoldModel { link_url: None, ..m },
        MdEvent::ListEnd => FoldModel {
            list_stack: if m.list_stack.len() > 0 {
                m.list_stack.drop_last()
            } else {
                m.list_stack
            },
            ..m
        },
        MdEvent::HardBreak => FoldModel { text: m.text.push(NL), ..m },
        MdEvent::SoftBreak => FoldModel { text: m.text.push(NL), ..m },
        MdEvent::Other => m,
    }
}

/// The fold of a whole event sequence; `oracles[k]` holds the capability's
/// answers for event `k`.
pub open spec fn fold_model(
    m0: FoldModel,
    events: Seq<MdEvent>,
    default_language: Option<u64>,
    oracles: Seq<(Option<u64>, Seq<SyntaxToken>)>,
) -> FoldModel
    decreases events.len(),
{
    if events.len() == 0 {
        m0
    } else {
        step_model(
            fold_model(m0, events.drop_last(), default_language, oracles),
            events.last(),
            default_language,
            oracles[events.len() - 1],
        )
    }
}

/// The fold reads only the oracle entries of its events: two oracle
/// sequences that agree below the event count fold identically.
pub proof fn lemma_fold_oracle_agree(
    m0: FoldModel,
    events: Seq<MdEvent>,
    default_language: Option<u64>,
    o1: Seq<(Option<u64>, Seq<SyntaxToken>)>,
    o2: Seq<(Option<u64>, Seq<SyntaxToken>)>,
)
    requires
        forall|j: int| 0 <= j < events.len() ==> o1[j] == o2[j],
    ensures
        fold_model(m0, events, default_language, o1) == fold_model(
            m0,
            events,
            default_language,
            o2,
        ),
    decreases events.len(),
{
    if events.len() > 0 {
        lemma_fold_oracle_agree(m0, events.drop_last(), default_language, o1, o2);
    }
}

/// The produced document equals the model's fold under oracle `ors`.
pub open spec fn fold_matches(
    m0: FoldModel,
    events: Seq<MdEvent>,
    default_language: Option<u64>,
    ors: Seq<(Option<u64>, Seq<SyntaxToken>)>,
    text: Seq<u8>,
    runs: Seq<(TextRange, Highlight)>,
    link_ranges: Seq<TextRange>,
    link_urls: Seq<Seq<char>>,
) -> bool {
    let m = fold_model(m0, events, default_language, ors);
    &&& text == m.text
    &&& runs == m.runs
    &&& link_ranges == m.link_ranges
    &&& link_urls == m.link_urls
}

/// The runs a splice emits lie inside the appended span `[dest, dest+clen)`,
/// ascending and pairwise disjoint, at or after the front mention's remapped
/// start; and the queue it leaves behind is still well formed.
pub proof fn lemma_splice_runs_shape(ms: Seq<Mention>, ss: usize, se: usize, dest: nat, clen: nat)
    requires
        mentions_wf(ms),
        dest + clen <= usize::MAX,
    ensures
        ({
            let sp = splice_spec(ms, ss, se, dest, clen);
            &&& runs_disjoint_sorted(sp.0)
            &&& forall|k: int|
                0 <= k < sp.0.len() ==> dest <= (#[trigger] sp.0[k]).0.start
                    <= sp.0[k].0.end <= dest + clen
            &&& ms.len() > 0 ==> forall|k: int|
                0 <= k < sp.0.len() ==> dest + ms[0].range.start - ss
                    <= (#[trigger] sp.0[k]).0.start
            &&& mentions_wf(sp.1)
        }),
    decreases ms.len(),
{
    if ms.len() == 0 {
    } else if crate::mentions::mention_contained(ms[0], ss, se) {
        let tail = ms.drop_first();
        assert(mentions_wf(tail)) by {
            assert forall|i: int, j: int| 0 <= i < j < tail.len() implies (
            #[trigger] tail[i]).range.end <= (#[trigger] tail[j]).range.start by {
                assert(ms[i + 1].range.end <= ms[j + 1].range.start);
            }
            assert forall|i: int| 0 <= i < tail.len() implies (#[trigger] tail[i]).range.start
                <= tail[i].range.end by {
                assert(ms[i + 1].range.start <= ms[i + 1].range.end);
            }
        }
        lemma_splice_runs_shape(tail, ss, se, dest, clen);
        let sp = splice_spec(ms, ss, se, dest, clen);
        let rest = splice_spec(tail, ss, se, dest, clen);
        if crate::mentions::mention_fits(ms[0], ss, clen) {
            let r = crate::mentions::mention_run(ms[0], ss, dest);
            assert(sp.0 == seq![r] + rest.0);
            assert forall|k: int| 0 <= k < sp.0.len() implies dest <= (
            #[trigger] sp.0[k]).0.start <= sp.0[k].0.end <= dest + clen by {
                if k > 0 {
                    assert(sp.0[k] == rest.0[k - 1]);
                }
            }
            assert forall|k: int|
                0 <= k < sp.0.len() implies dest + ms[0].range.start - ss <= (
            #[trigger] sp.0[k]).0.start by {
                if k > 0 {
                    assert(sp.0[k] == rest.0[k - 1]);
                    if tail.len() > 0 {
                        assert(ms[0].range.end <= ms[1].range.start);
                        assert(tail[0] == ms[1]);
                    }
                }
            }
            assert forall|i: int, j: int| 0 <= i < j < sp.0.len() implies (
            #[trigger] sp.0[i]).0.end <= (#[trigger] sp.0[j]).0.start by {
                if i == 0 {
                    assert(sp.0[j] == rest.0[j - 1]);
                    assert(tail.len() > 0);
                    assert(tail[0] == ms[1]);
                    assert(ms[0].range.end <= ms[1].range.start);
                } else {
                    assert(sp.0[i] == rest.0[i - 1]);
                    assert(sp.0[j] == rest.0[j - 1]);
                }
            }
        } else {
            assert(sp.0 == rest.0 && sp.1 == rest.1);
            if tail.len() > 0 {
                assert forall|k: int|
                    0 <= k < sp.0.len() implies dest + ms[0].range.start - ss <= (
                #[trigger] sp.0[k]).0.start by {
                    assert(tail[0] == ms[1]);
                    assert(ms[0].range.end <= ms[1].range.start);
                }
            }
        }
    }
}

/// The runs code delegation emits for the span `[offset, clen)` of content
/// appended at `base` lie inside `[base+offset, base+clen)`, ascending and
/// pairwise disjoint.
pub proof fn lemma_code_runs_shape(
    tokens: Seq<SyntaxToken>,
    i: int,
    offset: int,
    clen: int,
    base: int,
)
    requires
        0 <= offset <= clen,
        0 <= base,
        base + clen <= usize::MAX,
    ensures
        ({
            let cr = crate::code::code_runs_from(tokens, i, offset, clen, base);
            &&& runs_disjoint_sorted(cr)
            &&& forall|k: int|
                0 <= k < cr.len() ==> base + offset <= (#[trigger] cr[k]).0.start
                    <= cr[k].0.end <= base + clen
        }),
    decreases tokens.len() - i,
{
    if i < 0 || i >= tokens.len() {
    } else {
        let t = tokens[i];
        if offset <= t.start && t.start <= t.end && t.end <= clen {
            lemma_code_runs_shape(tokens, i + 1, t.end as int, clen, base);
            let cr = crate::code::code_runs_from(tokens, i, offset, clen, base);
            let rest = crate::code::code_runs_from(tokens, i + 1, t.end as int, clen, base);
            let gap: int = if t.start > offset {
                1
            } else {
                0
            };
            assert forall|k: int| 0 <= k < cr.len() implies base + offset <= (
            #[trigger] cr[k]).0.start <= cr[k].0.end <= base + clen by {
                if k >= gap + 1 {
                    assert(cr[k] == rest[k - gap - 1]);
                }
            }
            assert forall|i1: int, j1: int| 0 <= i1 < j1 < cr.len() implies (
            #[trigger] cr[i1]).0.end <= (#[trigger] cr[j1]).0.start by {
                if i1 >= gap + 1 {
                    assert(cr[i1] == rest[i1 - gap - 1]);
                }
                if j1 >= gap + 1 {
                    assert(cr[j1] == rest[j1 - gap - 1]);
                }
            }
        } else {
            lemma_code_runs_shape(tokens, i + 1, offset, clen, base);
        }
    }
}

/// Appending a batch of runs that all start at or after `mid` (where the
/// existing runs end) and end by `newlen` keeps the list bounded and its
/// ends monotone; when both parts are ascending and disjoint, so is the
/// whole.
pub proof fn lemma_concat_runs(
    a: Seq<(TextRange, Highlight)>,
    b: Seq<(TextRange, Highlight)>,
    mid: nat,
    newlen: nat,
)
    requires
        runs_bounded(a, mid),
        ends_monotone(a),
        mid <= newlen,
        forall|k: int|
            0 <= k < b.len() ==> mid <= (#[trigger] b[k]).0.start <= b[k].0.end <= newlen,
        runs_disjoint_sorted(b),
    ensures
        runs_bounded(a + b, newlen),
        ends_monotone(a + b),
        runs_disjoint_sorted(a) ==> runs_disjoint_sorted(a + b),
{
    let c = a + b;
    assert forall|i: int| 0 <= i < c.len() implies (#[trigger] c[i]).0.wf(newlen) by {
        if i < a.len() {
            assert(c[i] == a[i]);
            assert(a[i].0.wf(mid));
        } else {
            assert(c[i] == b[i - a.len()]);
        }
    }
    assert forall|i: int, j: int| 0 <= i <= j < c.len() implies (#[trigger] c[i]).0.end <= (
    #[trigger] c[j]).0.end by {
        if i < a.len() {
            assert(c[i] == a[i]);
        } else {
            assert(c[i] == b[i - a.len()]);
        }
        if j < a.len() {
            assert(c[j] == a[j]);
        } else {
            assert(c[j] == b[j - a.len()]);
        }
    }
    if runs_disjoint_sorted(a) {
        assert forall|i: int, j: int| 0 <= i < j < c.len() implies (#[trigger] c[i]).0.end <= (
        #[trigger] c[j]).0.start by {
            if i < a.len() {
                assert(c[i] == a[i]);
            } else {
                assert(c[i] == b[i - a.len()]);
            }
            if j < a.len() {
                assert(c[j] == a[j]);
            } else {
                assert(c[j] == b[j - a.len()]);
            }
            if i < a.len() && j >= a.len() {
                assert(a[i].0.wf(mid));
            }
        }
    }
}

/// Appending one explicit-style run `[start, end)` with the merge rule keeps
/// the list bounded by `newlen` and its ends monotone; when the existing
/// runs are ascending, disjoint and end by `start`, so is the result.
pub proof fn lemma_push_run_wf(
    runs: Seq<(TextRange, Highlight)>,
    start: usize,
    end: usize,
    style: HighlightStyle,
    newlen: nat,
)
    requires
        runs_bounded(runs, end as nat),
        ends_monotone(runs),
        start <= end <= newlen,
    ensures
        runs_bounded(push_run_spec(runs, start, end, style), newlen),
        ends_monotone(push_run_spec(runs, start, end, style)),
        runs_disjoint_sorted(runs) && runs_bounded(runs, start as nat)
            ==> runs_disjoint_sorted(push_run_spec(runs, start, end, style)),
{
    let r = push_run_spec(runs, start, end, style);
    assert forall|i: int| 0 <= i < r.len() implies (#[trigger] r[i]).0.wf(newlen) by {
        if i < runs.len() {
            assert(runs[i].0.wf(end as nat));
        }
    }
    assert forall|i: int, j: int| 0 <= i <= j < r.len() implies (#[trigger] r[i]).0.end <= (
    #[trigger] r[j]).0.end by {
        if i < runs.len() && j < runs.len() {
            assert(runs[i].0.end <= runs[j].0.end);
        }
        if i < runs.len() {
            assert(runs[i].0.wf(end as nat));
        }
    }
    if runs_disjoint_sorted(runs) && runs_bounded(runs, start as nat) {
        assert forall|i: int, j: int| 0 <= i < j < r.len() implies (#[trigger] r[i]).0.end <= (
        #[trigger] r[j]).0.start by {
            if j < runs.len() {
                assert(runs[i].0.end <= runs[j].0.start);
            } else {
                if i < runs.len() {
                    assert(runs[i].0.wf(start as nat));
                }
            }
        }
    }
}

/// Trimming removes characters at the end only.
pub proof fn lemma_trim_prefix(s: Seq<u8>)
    ensures
        trim_end_spec(s).is_prefix_of(s),
        trim_end_spec(s).len() <= s.len(),
    decreases s.len(),
{
    if s.len() > 0 && is_trailing_ws(s.last()) {
        lemma_trim_prefix(s.drop_last());
        assert(trim_end_spec(s) == trim_end_spec(s.drop_last()));
        assert(s.drop_last().is_prefix_of(s));
    }
}

/// A trailing byte the final trim removes: space, tab, line feed or
/// carriage return.
pub open spec fn is_trailing_ws(b: u8) -> bool {
    b == SPACE || b == NL || b == 9 || b == 13
}

/// `s` without its trailing whitespace bytes.
pub open spec fn trim_end_spec(s: Seq<u8>) -> Seq<u8>
    decreases s.len(),
{
    if s.len() > 0 && is_trailing_ws(s.last()) {
        trim_end_spec(s.drop_last())
    } else {
        s
    }
}

/// Removes trailing whitespace bytes.
fn trim_end_bytes(text: &mut Vec<u8>)
    ensures
        final(text)@ == trim_end_spec(old(text)@),
{
    while text.len() > 0 && (text[text.len() - 1] == SPACE || text[text.len() - 1] == NL || text[
        text.len() - 1] == 9 || text[text.len() - 1] == 13)
        invariant
            trim_end_spec(text@) == trim_end_spec(old(text)@),
        decreases text@.len(),
    {
        let ghost pre = text@;
        let _ = text.pop();
        proof {
            assert(text@ =~= pre.drop_last());
        }
    }
}
/// The current fold state assembled from the builder's pieces.
pub open spec fn st(
    text: Seq<u8>,
    runs: Seq<(TextRange, Highlight)>,
    link_ranges: Seq<TextRange>,
    link_urls: Seq<Seq<char>>,
    bold_depth: i64,
    italic_depth: i64,
    link_url: Option<Seq<char>>,
    language: Option<u64>,
    list_stack: Seq<(Option<u64>, bool)>,
    ms: Seq<Mention>,
) -> FoldModel {
    FoldModel {
        text,
        runs,
        link_ranges,
        link_urls,
        bold_depth,
        italic_depth,
        link_url,
        language,
        list_stack,
        mentions: ms,
    }
}

/// Folds the parsed event stream of `block` into the document under
/// construction. The result equals the model's fold of `events_of(block@)`
/// from the carried-over state, for the oracle of capability answers
/// actually received; annotation ranges stay bounded by the text with
/// monotone ends, the two link tables stay parallel, and with no mentions
/// the annotations stay ascending and pairwise disjoint.
pub fn render_markdown_mut<R: LanguageRegistry>(
    block: &str,
    mentions: &Vec<Mention>,
    language_registry: &R,
    language: Option<u64>,
    text: &mut Vec<u8>,
    highlights: &mut Vec<(TextRange, Highlight)>,
    link_ranges: &mut Vec<TextRange>,
    link_urls: &mut Vec<String>,
)
    requires
        mentions_wf(mentions@),
        runs_bounded(old(highlights)@, old(text)@.len()),
        ends_monotone(old(highlights)@),
        mentions@.len() == 0 ==> runs_disjoint_sorted(old(highlights)@),
        old(link_ranges)@.len() == old(link_urls)@.len(),
        links_bounded(old(link_ranges)@, old(text)@.len()),
    ensures
        exists|ors: Seq<(Option<u64>, Seq<SyntaxToken>)>|
            #[trigger] fold_matches(
                init_model(
                    old(text)@,
                    old(highlights)@,
                    old(link_ranges)@,
                    old(link_urls).deep_view(),
                    mentions@,
                ),
                events_of(block@),
                language,
                ors,
                final(text)@,
                final(highlights)@,
                final(link_ranges)@,
                final(link_urls).deep_view(),
            ),
        runs_bounded(final(highlights)@, final(text)@.len()),
        ends_monotone(final(highlights)@),
        mentions@.len() == 0 ==> runs_disjoint_sorted(final(highlights)@),
        final(link_ranges)@.len() == final(link_urls)@.len(),
        links_bounded(final(link_ranges)@, final(text)@.len()),
{
    let ghost init = init_model(
        old(text)@,
        old(highlights)@,
        old(link_ranges)@,
        old(link_urls).deep_view(),
        mentions@,
    );
    let events = parse_events(block);
    let mut bold_depth: i64 = 0;
    let mut italic_depth: i64 = 0;
    let mut link_url: Option<String> = None;
    let mut current_language: Option<u64> = None;
    let mut list_stack: Vec<(Option<u64>, bool)> = Vec::new();
    let mut mi: usize = 0;
    let ghost mut ors: Seq<(Option<u64>, Seq<SyntaxToken>)> = Seq::empty();
    let mut i: usize = 0;
    while i < events.len()
        invariant
            i <= events@.len(),
            mi <= mentions@.len(),
            ors.len() == i as nat,
            st(
                text@,
                highlights@,
                link_ranges@,
                link_urls.deep_view(),
                bold_depth,
                italic_depth,
                url_view(link_url),
                current_language,
                list_stack@,
                mentions@.skip(mi as int),
            ) == fold_model(init, events@.take(i as int), language, ors),
            mentions_wf(mentions@),
            runs_bounded(highlights@, text@.len()),
            ends_monotone(highlights@),
            mentions@.len() == 0 ==> runs_disjoint_sorted(highlights@),
            link_ranges@.len() == link_urls@.len(),
            links_bounded(link_ranges@, text@.len()),
            events@ == events_of(block@),
        decreases events@.len() - i,
    {
        let ghost m_prev = st(
            text@,
            highlights@,
            link_ranges@,
            link_urls.deep_view(),
            bold_depth,
            italic_depth,
            url_view(link_url),
            current_language,
            list_stack@,
            mentions@.skip(mi as int),
        );
        let ghost mut o: (Option<u64>, Seq<SyntaxToken>) = (None, Seq::empty());
        let ev = &events[i];
        let ghost ev_g = events@[i as int];
        match ev {
            MdEvent::Text { content, source_start, source_end } => {
                let prev_len = text.len();
                match current_language {
                    Some(lang) => {
                        let tokens = language_registry.highlight_text(lang, content);
                        render_code(text, highlights, content, &tokens);
                        let new_len = text.len();
                        proof {
                            o = (None, tokens@);
                            assert(prev_len + content@.len() == new_len);
                            lemma_code_runs_shape(
                                tokens@,
                                0,
                                0,
                                content@.len() as int,
                                prev_len as int,
                            );
                            lemma_concat_runs(
                                m_prev.runs,
                                code_runs_spec(tokens@, content@.len() as int, prev_len as int),
                                prev_len as nat,
                                text@.len(),
                            );
                        }
                    },
                    None => {
                        push_bytes(text, content);
                        let new_len = text.len();
                        splice_mentions(
                            highlights,
                            mentions,
                            &mut mi,
                            *source_start,
                            *source_end,
                            prev_len,
                            content.len(),
                        );
                        let ghost sp = splice_spec(
                            m_prev.mentions,
                            *source_start,
                            *source_end,
                            prev_len as nat,
                            content@.len() as nat,
                        );
                        proof {
                            lemma_splice_runs_shape(
                                m_prev.mentions,
                                *source_start,
                                *source_end,
                                prev_len as nat,
                                content@.len() as nat,
                            );
                            lemma_concat_runs(
                                m_prev.runs,
                                sp.0,
                                prev_len as nat,
                                text@.len(),
                            );
                            if mentions@.len() == 0 {
                                assert(highlights@ =~= m_prev.runs);
                            }
                        }
                        let is_linked = match &link_url {
                            Some(u) => {
                                link_ranges.push(TextRange { start: prev_len, end: new_len });
                                link_urls.push(u.clone());
                                proof {
                                    assert(link_urls.deep_view() =~= m_prev.link_urls.push(u@));
                                }
                                true
                            },
                            None => false,
                        };
                        let style = HighlightStyle {
                            bold: bold_depth > 0,
                            italic: italic_depth > 0,
                            underline: is_linked,
                        };
                        if style.bold || style.italic || style.underline {
                            proof {
                                lemma_push_run_wf(
                                    highlights@,
                                    prev_len,
                                    new_len,
                                    style,
                                    text@.len(),
                                );
                            }
                            push_styled_run(highlights, prev_len, new_len, style);
                        }
                    },
                }
                proof {
                    assert(st(
                        text@,
                        highlights@,
                        link_ranges@,
                        link_urls.deep_view(),
                        bold_depth,
                        italic_depth,
                        url_view(link_url),
                        current_language,
                        list_stack@,
                        mentions@.skip(mi as int),
                    ) =~= step_model(m_prev, ev_g, language, o));
                }
            },
            MdEvent::Code { content } => {
                let prev_len = text.len();
                push_bytes(text, content);
                let new_len = text.len();
                match &link_url {
                    Some(u) => {
                        highlights.push(
                            (
                                TextRange { start: prev_len, end: new_len },
                                Highlight::Highlight(
                                    HighlightStyle { bold: false, italic: false, underline: true },
                                ),
                            ),
                        );
                        link_ranges.push(TextRange { start: prev_len, end: new_len });
                        link_urls.push(u.clone());
                        proof {
                            assert(link_urls.deep_view() =~= m_prev.link_urls.push(u@));
                        }
                    },
                    None => {},
                }
                proof {
                    assert(st(
                        text@,
                        highlights@,
                        link_ranges@,
                        link_urls.deep_view(),
                        bold_depth,
                        italic_depth,
                        url_view(link_url),
                        current_language,
                        list_stack@,
                        mentions@.skip(mi as int),
                    ) =~= step_model(m_prev, ev_g, language, o));
                }
            },
            MdEvent::ParagraphStart => {
                new_paragraph(text, &mut list_stack);
                proof {
                    assert(st(
                        text@,
                        highlights@,
                        link_ranges@,
                        link_urls.deep_view(),
                        bold_depth,
                        italic_depth,
                        url_view(link_url),
                        current_language,
                        list_stack@,
                        mentions@.skip(mi as int),
                    ) =~= step_model(m_prev, ev_g, language, o));
                }
            },
            MdEvent::HeadingStart => {
                new_paragraph(text, &mut list_stack);
                if bold_depth < i64::MAX {
                    bold_depth = bold_depth + 1;
                }
                proof {
                    assert(st(
                        text@,
                        highlights@,
                        link_ranges@,
                        link_urls.deep_view(),
                        bold_depth,
                        italic_depth,
                        url_view(link_url),
                        current_language,
                        list_stack@,
                        mentions@.skip(mi as int),
                    ) =~= step_model(m_prev, ev_g, language, o));
                }
            },
            MdEvent::CodeBlockStart { fenced } => {
                new_paragraph(text, &mut list_stack);
                current_language = match fenced {
                    Some(name) => {
                        let r = language_registry.language_for_name(name.as_str());
                        proof {
                            o = (r, Seq::empty());
                        }
                        r
                    },
                    None => language,
                };
                proof {
                    assert(st(
                        text@,
                        highlights@,
                        link_ranges@,
                        link_urls.deep_view(),
                        bold_depth,
                        italic_depth,
                        url_view(link_url),
                        current_language,
                        list_stack@,
                        mentions@.skip(mi as int),
                    ) =~= step_model(m_prev, ev_g, language, o));
                }
            },
            MdEvent::EmphasisStart => {
                if italic_depth < i64::MAX {
                    italic_depth = italic_depth + 1;
                }
                proof {
                    assert(st(
                        text@,
                        highlights@,
                        link_ranges@,
                        link_urls.deep_view(),
                        bold_depth,
                        italic_depth,
                        url_view(link_url),
                        current_language,
                        list_stack@,
                        mentions@.skip(mi as int),
                    ) =~= step_model(m_prev, ev_g, language, o));
                }
            },
            MdEvent::StrongStart => {
                if bold_depth < i64::MAX {
                    bold_depth = bold_depth + 1;
                }
                proof {
                    assert(st(
                        text@,
                        highlights@,
                        link_ranges@,
                        link_urls.deep_view(),
                        bold_depth,
                        italic_depth,
                        url_view(link_url),
                        current_language,
                        list_stack@,
                        mentions@.skip(mi as int),
                    ) =~= step_model(m_prev, ev_g, language, o));
                }
            },
            MdEvent::LinkStart { url } => {
                link_url = Some(url.clone());
                proof {
                    assert(st(
                        text@,
                        highlights@,
                        link_ranges@,
                        link_urls.deep_view(),
                        bold_depth,
                        italic_depth,
                        url_view(link_url),
                        current_language,
                        list_stack@,
                        mentions@.skip(mi as int),
                    ) =~= step_model(m_prev, ev_g, language, o));
                }
            },
            MdEvent::ListStart { first } => {
                list_stack.push((*first, false));
                proof {
                    assert(st(
                        text@,
                        highlights@,
                        link_ranges@,
                        link_urls.deep_view(),
                        bold_depth,
                        italic_depth,
                        url_view(link_url),
                        current_language,
                        list_stack@,
                        mentions@.skip(mi as int),
                    ) =~= step_model(m_prev, ev_g, language, o));
                }
            },
            MdEvent::ItemStart => {
                item_start(text, &mut list_stack);
                proof {
                    assert(st(
                        text@,
                        highlights@,
                        link_ranges@,
                        link_urls.deep_view(),
                        bold_depth,
                        italic_depth,
                        url_view(link_url),
                        current_language,
                        list_stack@,
                        mentions@.skip(mi as int),
                    ) =~= step_model(m_prev, ev_g, language, o));
                }
            },
            MdEvent::HeadingEnd => {
                if bold_depth > i64::MIN {
                    bold_depth = bold_depth - 1;
                }
                proof {
                    assert(st(
                        text@,
                        highlights@,
                        link_ranges@,
                        link_urls.deep_view(),
                        bold_depth,
                        italic_depth,
                        url_view(link_url),
                        current_language,
                        list_stack@,
                        mentions@.skip(mi as int),
                    ) =~= step_model(m_prev, ev_g, language, o));
                }
            },
            MdEvent::CodeBlockEnd => {
                current_language = None;
                proof {
                    assert(st(
                        text@,
                        highlights@,
                        link_ranges@,
                        link_urls.deep_view(),
                        bold_depth,
                        italic_depth,
                        url_view(link_url),
                        current_language,
                        list_stack@,
                        mentions@.skip(mi as int),
                    ) =~= step_model(m_prev, ev_g, language, o));
                }
            },
            MdEvent::EmphasisEnd => {
                if italic_depth > i64::MIN {
                    italic_depth = italic_depth - 1;
                }
                proof {
                    assert(st(
                        text@,
                        highlights@,
                        link_ranges@,
                        link_urls.deep_view(),
                        bold_depth,
                        italic_depth,
                        url_view(link_url),
                        current_language,
                        list_stack@,
                        mentions@.skip(mi as int),
                    ) =~= step_model(m_prev, ev_g, language, o));
                }
            },
            MdEvent::StrongEnd => {
                if bold_depth > i64::MIN {
                    bold_depth = bold_depth - 1;
                }
                proof {
                    assert(st(
                        text@,
                        highlights@,
                        link_ranges@,
                        link_urls.deep_view(),
                        bold_depth,
                        italic_depth,
                        url_view(link_url),
                        current_language,
                        list_stack@,
                        mentions@.skip(mi as int),
                    ) =~= step_model(m_prev, ev_g, language, o));
                }
            },
            MdEvent::LinkEnd => {
                link_url = None;
                proof {
                    assert(st(
                        text@,
                        highlights@,
                        link_ranges@,
                        link_urls.deep_view(),
                        bold_depth,
                        italic_depth,
                        url_view(link_url),
                        current_language,
                        list_stack@,
                        mentions@.skip(mi as int),
                    ) =~= step_model(m_prev, ev_g, language, o));
                }
            },
            MdEvent::ListEnd => {
                let _ = list_stack.pop();
                proof {
                    assert(st(
                        text@,
                        highlights@,
                        link_ranges@,
                        link_urls.deep_view(),
                        bold_depth,
                        italic_depth,
                        url_view(link_url),
                        current_language,
                        list_stack@,
                        mentions@.skip(mi as int),
                    ) =~= step_model(m_prev, ev_g, language, o));
                }
            },
            MdEvent::HardBreak => {
                text.push(NL);
                proof {
                    assert(st(
                        text@,
                        highlights@,
                        link_ranges@,
                        link_urls.deep_view(),
                        bold_depth,
                        italic_depth,
                        url_view(link_url),
                        current_language,
                        list_stack@,
                        mentions@.skip(mi as int),
                    ) =~= step_model(m_prev, ev_g, language, o));
                }
            },
            MdEvent::SoftBreak => {
                text.push(NL);
                proof {
                    assert(st(
                        text@,
                        highlights@,
                        link_ranges@,
                        link_urls.deep_view(),
                        bold_depth,
                        italic_depth,
                        url_view(link_url),
                        current_language,
                        list_stack@,
                        mentions@.skip(mi as int),
                    ) =~= step_model(m_prev, ev_g, language, o));
                }
            },
            MdEvent::Other => {
                proof {
                    assert(st(
                        text@,
                        highlights@,
                        link_ranges@,
                        link_urls.deep_view(),
                        bold_depth,
                        italic_depth,
                        url_view(link_url),
                        current_language,
                        list_stack@,
                        mentions@.skip(mi as int),
                    ) =~= step_model(m_prev, ev_g, language, o));
                }
            },
        }
        proof {
            let m_now = st(
                text@,
                highlights@,
                link_ranges@,
                link_urls.deep_view(),
                bold_depth,
                italic_depth,
                url_view(link_url),
                current_language,
                list_stack@,
                mentions@.skip(mi as int),
            );
            let ors2 = ors.push(o);
            assert(events@.take(i + 1).drop_last() =~= events@.take(i as int));
            assert(events@.take(i + 1).last() == ev_g);
            lemma_fold_oracle_agree(init, events@.take(i as int), language, ors, ors2);
            assert(fold_model(init, events@.take(i + 1), language, ors2) == step_model(
                fold_model(init, events@.take(i as int), language, ors2),
                ev_g,
                language,
                o,
            ));
            assert(m_now == fold_model(init, events@.take(i + 1), language, ors2));
            ors = ors2;
        }
        i = i + 1;
    }
    proof {
        assert(events@.take(i as int) =~= events@);
        assert(fold_matches(
            init,
            events_of(block@),
            language,
            ors,
            text@,
            highlights@,
            link_ranges@,
            link_urls.deep_view(),
        ));
    }
}

/// The finished document equals the model's fold of `events_of(block)` from
/// the empty state under oracle `ors`, with trailing whitespace trimmed from
/// the text only; its annotation and link ranges are bounded by the text as
/// built before the trim.
pub open spec fn rendered_matches(
    block: Seq<char>,
    ms: Seq<Mention>,
    language: Option<u64>,
    ors: Seq<(Option<u64>, Seq<SyntaxToken>)>,
    result: RichText,
) -> bool {
    let m = fold_model(
        init_model(Seq::empty(), Seq::empty(), Seq::empty(), Seq::empty(), ms),
        events_of(block),
        language,
        ors,
    );
    &&& result.text@ == trim_end_spec(m.text)
    &&& result.highlights@ == m.runs
    &&& result.link_ranges@ == m.link_ranges
    &&& result.link_urls.deep_view() == m.link_urls
    &&& result.text@.is_prefix_of(m.text)
    &&& runs_bounded(m.runs, m.text.len())
    &&& links_bounded(m.link_ranges, m.text.len())
}

/// Compiles a markdown document and its mention queue into an annotated
/// document: the model's fold of the parser's events, with the text trimmed
/// of trailing whitespace at the end only. The two link tables are always
/// parallel; annotation ends are monotone; and with no mentions supplied the
/// annotations are sorted ascending and pairwise disjoint.
pub fn render_markdown<R: LanguageRegistry>(
    block: String,
    mentions: &Vec<Mention>,
    language_registry: &R,
    language: Option<u64>,
) -> (result: RichText)
    requires
        mentions_wf(mentions@),
    ensures
        exists|ors: Seq<(Option<u64>, Seq<SyntaxToken>)>| #[trigger] rendered_matches(
            block@,
            mentions@,
            language,
            ors,
            result,
        ),
        result.link_ranges@.len() == result.link_urls@.len(),
        ends_monotone(result.highlights@),
        mentions@.len() == 0 ==> runs_disjoint_sorted(result.highlights@),
{
    let mut text: Vec<u8> = Vec::new();
    let mut highlights: Vec<(TextRange, Highlight)> = Vec::new();
    let mut link_ranges: Vec<TextRange> = Vec::new();
    let mut link_urls: Vec<String> = Vec::new();
    proof {
        assert(link_urls.deep_view() =~= Seq::<Seq<char>>::empty());
    }
    render_markdown_mut(
        block.as_str(),
        mentions,
        language_registry,
        language,
        &mut text,
        &mut highlights,
        &mut link_ranges,
        &mut link_urls,
    );
    let ghost ors = choose|ors: Seq<(Option<u64>, Seq<SyntaxToken>)>| #[trigger] fold_matches(
        init_model(Seq::empty(), Seq::empty(), Seq::empty(), Seq::empty(), mentions@),
        events_of(block@),
        language,
        ors,
        text@,
        highlights@,
        link_ranges@,
        link_urls.deep_view(),
    );
    proof {
        lemma_trim_prefix(text@);
    }
    trim_end_bytes(&mut text);
    let result = RichText { text, highlights, link_ranges, link_urls };
    proof {
        assert(rendered_matches(block@, mentions@, language, ors, result));
    }
    result
}

} // verus!
