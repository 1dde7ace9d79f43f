//! Mention splicing: the externally supplied mention queue is consumed in
//! lockstep with text events, remapping source offsets to output offsets.

use vstd::prelude::*;

use crate::types::{Highlight, Mention, TextRange};

verus! {

/// The front mention is consumed while its source range lies entirely within
/// the current text event's source range `[ss, se]` (inclusive containment).
pub open spec fn mention_contained(m: Mention, ss: usize, se: usize) -> bool {
    ss <= m.range.start && m.range.end <= se
}

/// A consumed mention produces an annotation only when its range is ordered
/// and the remapped range stays inside the appended content of length `clen`;
/// otherwise it is dropped silently.
pub open spec fn mention_fits(m: Mention, ss: usize, clen: nat) -> bool {
    m.range.start <= m.range.end && m.range.end - ss <= clen
}

/// The annotation a mention produces: its source range shifted by
/// `dest - ss`, tagged as a mention of another user or of the reader.
pub open spec fn mention_run(m: Mention, ss: usize, dest: nat) -> (TextRange, Highlight) {
    (
        TextRange {
            start: (dest + m.range.start - ss) as usize,
            end: (dest + m.range.end - ss) as usize,
        },
        if m.is_self_mention {
            Highlight::SelfMention
        } else {
            Highlight::Mention
        },
    )
}

/// The splice of a text event with source range `[ss, se]`, whose content of
/// length `clen` begins at output offset `dest`: the annotations emitted and
/// the mentions left in the queue. Consumption stops at the first mention not
/// contained in the event's source range.
pub open spec fn splice_spec(ms: Seq<Mention>, ss: usize, se: usize, dest: nat, clen: nat) -> (
    Seq<(TextRange, Highlight)>,
    Seq<Mention>,
)
    decreases ms.len(),
{
    if ms.len() == 0 {
        (Seq::empty(), ms)
    } else if mention_contained(ms[0], ss, se) {
        let rest = splice_spec(ms.drop_first(), ss, se, dest, clen);
        if mention_fits(ms[0], ss, clen) {
            (seq![mention_run(ms[0], ss, dest)] + rest.0, rest.1)
        } else {
            rest
        }
    } else {
        (Seq::empty(), ms)
    }
}

/// Consumes the front of the mention queue (from cursor `*mi` on) for one
/// text event and appends the corresponding mention annotations.
pub fn splice_mentions(
    highlights: &mut Vec<(TextRange, Highlight)>,
    mentions: &Vec<Mention>,
    mi: &mut usize,
    source_start: usize,
    source_end: usize,
    dest: usize,
    content_len: usize,
)
    requires
        *old(mi) <= mentions@.len(),
        dest + content_len <= usize::MAX,
    ensures
        *final(mi) <= mentions@.len(),
        *final(mi) >= *old(mi),
        final(highlights)@ == old(highlights)@ + splice_spec(
            mentions@.skip(*old(mi) as int),
            source_start,
            source_end,
            dest as nat,
            content_len as nat,
        ).0,
        mentions@.skip(*final(mi) as int) == splice_spec(
            mentions@.skip(*old(mi) as int),
            source_start,
            source_end,
            dest as nat,
            content_len as nat,
        ).1,
{
    let ghost full = splice_spec(
        mentions@.skip(*old(mi) as int),
        source_start,
        source_end,
        dest as nat,
        content_len as nat,
    );
    while *mi < mentions.len() && mentions[*mi].range.start >= source_start
        && mentions[*mi].range.end <= source_end
        invariant
            *old(mi) <= *mi <= mentions@.len(),
            dest + content_len <= usize::MAX,
            old(highlights)@ + full.0 == highlights@ + splice_spec(
                mentions@.skip(*mi as int),
                source_start,
                source_end,
                dest as nat,
                content_len as nat,
            ).0,
            full.1 == splice_spec(
                mentions@.skip(*mi as int),
                source_start,
                source_end,
                dest as nat,
                content_len as nat,
            ).1,
        decreases mentions@.len() - *mi,
    {
        let m = mentions[*mi];
        proof {
            assert(mentions@.skip(*mi as int)[0] == m);
            assert(mentions@.skip(*mi as int).drop_first() =~= mentions@.skip(*mi as int + 1));
        }
        if m.range.start <= m.range.end && m.range.end - source_start <= content_len {
            let start = dest + (m.range.start - source_start);
            let end = dest + (m.range.end - source_start);
            let tag = if m.is_self_mention {
                Highlight::SelfMention
            } else {
                Highlight::Mention
            };
            highlights.push((TextRange { start, end }, tag));
            proof {
                let here = splice_spec(
                    mentions@.skip(*mi as int),
                    source_start,
                    source_end,
                    dest as nat,
                    content_len as nat,
                );
                let next = splice_spec(
                    mentions@.skip(*mi as int + 1),
                    source_start,
                    source_end,
                    dest as nat,
                    content_len as nat,
                );
                assert(here.0 =~= seq![mention_run(m, source_start, dest as nat)] + next.0);
                assert(highlights@ + next.0 =~= old(highlights)@ + full.0);
            }
        } else {
            proof {
                let here = splice_spec(
                    mentions@.skip(*mi as int),
                    source_start,
                    source_end,
                    dest as nat,
                    content_len as nat,
                );
                let next = splice_spec(
                    mentions@.skip(*mi as int + 1),
                    source_start,
                    source_end,
                    dest as nat,
                    content_len as nat,
                );
                assert(here.0 == next.0 && here.1 == next.1);
            }
        }
        *mi = *mi + 1;
    }
    proof {
        let left = splice_spec(
            mentions@.skip(*mi as int),
            source_start,
            source_end,
            dest as nat,
            content_len as nat,
        );
        assert(left.0 =~= Seq::<(TextRange, Highlight)>::empty());
        assert(highlights@ =~= old(highlights)@ + full.0);
    }
}

} // verus!
