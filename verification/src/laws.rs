//! The library's laws: properties of the fold model that hold for every
//! input, stated over the same spec functions the entry points' contracts
//! use, and proved once and for all.

use vstd::prelude::*;

use crate::code::code_runs_spec;
use crate::decimal::spec_decimal;
use crate::events::MdEvent;
use crate::fold::{fold_model, init_model, step_model, FoldModel};
use crate::mentions::splice_spec;
use crate::paragraph::{indent, item_spec, single_newline, DASH, DOT, SPACE};
use crate::runs::push_run_spec;
use crate::types::{Highlight, HighlightStyle, Mention, SyntaxToken, TextRange};

verus! {

/// The concatenation of the contents of a stream of text events.
pub open spec fn texts_concat(events: Seq<MdEvent>) -> Seq<u8>
    decreases events.len(),
{
    if events.len() == 0 {
        Seq::empty()
    } else {
        texts_concat(events.drop_last()) + (match events.last() {
            MdEvent::Text { content, .. } => content@,
            _ => Seq::empty(),
        })
    }
}

/// Plain text: a stream of text events alone, with no mentions supplied,
/// yields exactly the concatenation of their contents, and no annotations,
/// no link ranges and no link URLs, whatever the language capability
/// answers.
pub proof fn lemma_plain_text(
    events: Seq<MdEvent>,
    language: Option<u64>,
    ors: Seq<(Option<u64>, Seq<SyntaxToken>)>,
)
    requires
        forall|k: int| 0 <= k < events.len() ==> (#[trigger] events[k]) is Text,
    ensures
        ({
            let m0 = init_model(Seq::empty(), Seq::empty(), Seq::empty(), Seq::empty(), Seq::empty());
            let m = fold_model(m0, events, language, ors);
            &&& m.text == texts_concat(events)
            &&& m.runs == Seq::<(TextRange, Highlight)>::empty()
            &&& m.link_ranges == Seq::<TextRange>::empty()
            &&& m.link_urls == Seq::<Seq<char>>::empty()
            &&& m.mentions == Seq::<Mention>::empty()
            &&& m.language is None
            &&& m.link_url is None
            &&& m.bold_depth == 0
            &&& m.italic_depth == 0
        }),
    decreases events.len(),
{
    let m0 = init_model(Seq::empty(), Seq::empty(), Seq::empty(), Seq::empty(), Seq::empty());
    if events.len() > 0 {
        lemma_plain_text(events.drop_last(), language, ors);
        let prev = fold_model(m0, events.drop_last(), language, ors);
        let m = fold_model(m0, events, language, ors);
        match events.last() {
            MdEvent::Text { content, source_start, source_end } => {
                let sp = splice_spec(
                    prev.mentions,
                    source_start,
                    source_end,
                    prev.text.len(),
                    content@.len(),
                );
                assert(sp.0 =~= Seq::<(TextRange, Highlight)>::empty());
                assert(prev.runs + sp.0 =~= Seq::<(TextRange, Highlight)>::empty());
                assert(m.text == texts_concat(events));
            },
            _ => {
                assert(false);
            },
        }
    }
}

/// The display text does not depend on the language capability's answers:
/// code content is appended verbatim whether or not a language resolved, so
/// the text, the list state and the formatting depths are a function of the
/// event stream alone. Only the annotations over code blocks vary with the
/// capability.
pub proof fn lemma_text_deterministic(
    m0: FoldModel,
    events: Seq<MdEvent>,
    language: Option<u64>,
    o1: Seq<(Option<u64>, Seq<SyntaxToken>)>,
    o2: Seq<(Option<u64>, Seq<SyntaxToken>)>,
)
    ensures
        ({
            let a = fold_model(m0, events, language, o1);
            let b = fold_model(m0, events, language, o2);
            &&& a.text == b.text
            &&& a.list_stack == b.list_stack
            &&& a.bold_depth == b.bold_depth
            &&& a.italic_depth == b.italic_depth
            &&& a.link_url == b.link_url
        }),
    decreases events.len(),
{
    if events.len() > 0 {
        lemma_text_deterministic(m0, events.drop_last(), language, o1, o2);
    }
}

/// The merge rule: appending an explicit-style run that is contiguous with
/// the last entry and carries the identical style collapses the two into a
/// single entry instead of adding a new one.
pub proof fn lemma_merge_adjacent_runs(
    runs: Seq<(TextRange, Highlight)>,
    a: usize,
    b: usize,
    c: usize,
    style: HighlightStyle,
)
    requires
        runs.len() > 0,
        runs.last() == (TextRange { start: a, end: b }, Highlight::Highlight(style)),
    ensures
        push_run_spec(runs, b, c, style).len() == runs.len(),
        push_run_spec(runs, b, c, style).last() == (
            TextRange { start: a, end: c },
            Highlight::Highlight(style),
        ),
{
}

/// A run that is not contiguous with the last entry, or carries a different
/// annotation, is appended as a new entry of its own.
pub proof fn lemma_no_merge_appends(
    runs: Seq<(TextRange, Highlight)>,
    start: usize,
    end: usize,
    style: HighlightStyle,
)
    requires
        runs.len() == 0 || runs.last().0.end != start || runs.last().1 != Highlight::Highlight(
            style,
        ),
    ensures
        push_run_spec(runs, start, end, style).len() == runs.len() + 1,
        push_run_spec(runs, start, end, style).last() == (
            TextRange { start, end },
            Highlight::Highlight(style),
        ),
{
}

/// A mention queue holding one mention that lies fully inside a text event,
/// `k` bytes after the event's source start, is consumed whole and produces
/// exactly one mention (or self-mention) annotation: it begins `k` bytes
/// into the appended content and keeps the mention's own source length.
pub proof fn lemma_single_mention(m: Mention, ss: usize, se: usize, dest: nat, clen: nat)
    requires
        m.range.start <= m.range.end,
        ss <= m.range.start,
        m.range.end <= se,
        m.range.end - ss <= clen,
        dest + clen <= usize::MAX,
    ensures
        ({
            let sp = splice_spec(seq![m], ss, se, dest, clen);
            &&& sp.0.len() == 1
            &&& sp.0[0].0.start == dest + (m.range.start - ss)
            &&& sp.0[0].0.end - sp.0[0].0.start == m.range.end - m.range.start
            &&& sp.0[0].1 == (if m.is_self_mention {
                Highlight::SelfMention
            } else {
                Highlight::Mention
            })
            &&& sp.1.len() == 0
        }),
{
    assert(seq![m].drop_first() =~= Seq::<Mention>::empty());
    assert(splice_spec(Seq::<Mention>::empty(), ss, se, dest, clen).0 =~= Seq::<
        (TextRange, Highlight),
    >::empty());
    let sp = splice_spec(seq![m], ss, se, dest, clen);
    assert(sp.0 =~= seq![crate::mentions::mention_run(m, ss, dest)]);
}

/// A tokenizer that reports no tokens for non-empty code content yields a
/// single generic-code annotation spanning the entire appended content.
pub proof fn lemma_zero_tokens_full_cover(clen: int, base: int)
    requires
        0 < clen,
        0 <= base,
        base + clen <= usize::MAX,
    ensures
        code_runs_spec(Seq::empty(), clen, base) == seq![
            (
                TextRange { start: base as usize, end: (base + clen) as usize },
                Highlight::Code,
            ),
        ],
{
    assert(code_runs_spec(Seq::empty(), clen, base) =~= seq![
        (TextRange { start: base as usize, end: (base + clen) as usize }, Highlight::Code),
    ]);
}

/// Strong and emphasis nested over the same text produce one annotation
/// carrying the combined bold-and-italic style, not two.
pub proof fn lemma_nested_strong_emphasis(
    content: Vec<u8>,
    source_start: usize,
    source_end: usize,
    language: Option<u64>,
    ors: Seq<(Option<u64>, Seq<SyntaxToken>)>,
)
    requires
        content@.len() <= usize::MAX,
    ensures
        ({
            let m0 = init_model(Seq::empty(), Seq::empty(), Seq::empty(), Seq::empty(), Seq::empty());
            let evs = seq![
                MdEvent::StrongStart,
                MdEvent::EmphasisStart,
                MdEvent::Text { content, source_start, source_end },
                MdEvent::EmphasisEnd,
                MdEvent::StrongEnd,
            ];
            let m = fold_model(m0, evs, language, ors);
            &&& m.text == content@
            &&& m.runs == seq![
                (
                    TextRange { start: 0, end: content@.len() as usize },
                    Highlight::Highlight(
                        HighlightStyle { bold: true, italic: true, underline: false },
                    ),
                ),
            ]
            &&& m.link_ranges == Seq::<TextRange>::empty()
            &&& m.link_urls == Seq::<Seq<char>>::empty()
        }),
{
    let m0 = init_model(Seq::empty(), Seq::empty(), Seq::empty(), Seq::empty(), Seq::empty());
    let e0 = MdEvent::StrongStart;
    let e1 = MdEvent::EmphasisStart;
    let e2 = MdEvent::Text { content, source_start, source_end };
    let e3 = MdEvent::EmphasisEnd;
    let e4 = MdEvent::StrongEnd;
    let evs = seq![e0, e1, e2, e3, e4];
    let s4 = evs.drop_last();
    let s3 = s4.drop_last();
    let s2 = s3.drop_last();
    let s1 = s2.drop_last();
    let s0 = s1.drop_last();
    assert(s4 =~= seq![e0, e1, e2, e3]);
    assert(s3 =~= seq![e0, e1, e2]);
    assert(s2 =~= seq![e0, e1]);
    assert(s1 =~= seq![e0]);
    assert(s0 =~= Seq::<MdEvent>::empty());
    assert(fold_model(m0, s0, language, ors) == m0);
    let m1 = fold_model(m0, s1, language, ors);
    let m2 = fold_model(m0, s2, language, ors);
    let m3 = fold_model(m0, s3, language, ors);
    let m4 = fold_model(m0, s4, language, ors);
    let m5 = fold_model(m0, evs, language, ors);
    assert(m1 == step_model(m0, e0, language, ors[0]));
    assert(m2 == step_model(m1, e1, language, ors[1]));
    assert(m3 == step_model(m2, e2, language, ors[2]));
    assert(m4 == step_model(m3, e3, language, ors[3]));
    assert(m5 == step_model(m4, e4, language, ors[4]));
    let sp = splice_spec(m2.mentions, source_start, source_end, m2.text.len(), content@.len());
    assert(sp.0 =~= Seq::<(TextRange, Highlight)>::empty());
    assert(m2.runs + sp.0 =~= Seq::<(TextRange, Highlight)>::empty());
    assert(m3.text =~= content@);
    assert(m3.runs =~= seq![
        (
            TextRange { start: 0, end: content@.len() as usize },
            Highlight::Highlight(HighlightStyle { bold: true, italic: true, underline: false }),
        ),
    ]);
}

/// An ordered list opened with declared start `k` emits `"k. "` as its first
/// item's marker, and leaves the frame's counter at `k + 1`.
pub proof fn lemma_list_start_then_item(
    m: FoldModel,
    k: u64,
    language: Option<u64>,
    o1: (Option<u64>, Seq<SyntaxToken>),
    o2: (Option<u64>, Seq<SyntaxToken>),
)
    requires
        k < u64::MAX,
    ensures
        ({
            let m1 = step_model(m, MdEvent::ListStart { first: Some(k) }, language, o1);
            let m2 = step_model(m1, MdEvent::ItemStart, language, o2);
            &&& m2.text == single_newline(m1.text) + indent(m.list_stack.len()) + spec_decimal(
                k as nat,
            ) + seq![DOT, SPACE]
            &&& m2.list_stack.last().0 == Some((k + 1) as u64)
            &&& m2.runs == m.runs
        }),
{
    let m1 = step_model(m, MdEvent::ListStart { first: Some(k) }, language, o1);
    let m2 = step_model(m1, MdEvent::ItemStart, language, o2);
    assert(m1.list_stack.last() == (Some(k), false));
    assert(m2.text =~= single_newline(m1.text) + indent(m.list_stack.len()) + spec_decimal(
        k as nat,
    ) + seq![DOT, SPACE]);
}

/// Ordered item markers advance by exactly one: from a frame whose counter
/// stands at `n`, one item emits `"n. "` and the next item of the same list
/// emits `"n+1. "`.
pub proof fn lemma_ordered_item_markers(text: Seq<u8>, stack: Seq<(Option<u64>, bool)>, n: u64)
    requires
        stack.len() > 0,
        stack.last().0 == Some(n),
        n < u64::MAX,
    ensures
        ({
            let p1 = item_spec(text, stack);
            let p2 = item_spec(p1.0, p1.1);
            &&& p1.0 == single_newline(text) + indent((stack.len() - 1) as nat) + spec_decimal(
                n as nat,
            ) + seq![DOT, SPACE]
            &&& p1.1.last().0 == Some((n + 1) as u64)
            &&& p2.0 == single_newline(p1.0) + indent((stack.len() - 1) as nat) + spec_decimal(
                (n + 1) as nat,
            ) + seq![DOT, SPACE]
        }),
{
    let p1 = item_spec(text, stack);
    assert(p1.0 =~= single_newline(text) + indent((stack.len() - 1) as nat) + spec_decimal(
        n as nat,
    ) + seq![DOT, SPACE]);
    assert(p1.1.last() == (Some((n + 1) as u64), false));
    let p2 = item_spec(p1.0, p1.1);
    assert(p2.0 =~= single_newline(p1.0) + indent((stack.len() - 1) as nat) + spec_decimal(
        (n + 1) as nat,
    ) + seq![DOT, SPACE]);
}

/// Unordered item markers are always the same literal prefix `"- "`.
pub proof fn lemma_unordered_item_marker(text: Seq<u8>, stack: Seq<(Option<u64>, bool)>)
    requires
        stack.len() > 0,
        stack.last().0 is None,
    ensures
        ({
            let p = item_spec(text, stack);
            &&& p.0 == single_newline(text) + indent((stack.len() - 1) as nat) + seq![DASH, SPACE]
            &&& p.1.last().0 is None
        }),
{
    let p = item_spec(text, stack);
    assert(p.0 =~= single_newline(text) + indent((stack.len() - 1) as nat) + seq![DASH, SPACE]);
    assert(p.1.last() == (None::<u64>, false));
}

} // verus!
