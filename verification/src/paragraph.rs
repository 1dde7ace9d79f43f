//! Blank-line and indentation handling between block-level elements, and the
//! emission of list-item markers.
//!
//! A list frame is a pair `(counter, has_emitted_content)`: ordered lists
//! carry a running counter, unordered lists carry `None`.

use vstd::prelude::*;

use crate::decimal::{spec_decimal, u64_to_decimal};

verus! {

pub const NL: u8 = 10;

pub const SPACE: u8 = 32;

pub const DASH: u8 = 45;

pub const DOT: u8 = 46;

/// Appends all of `src` to `dst`.
pub fn push_bytes(dst: &mut Vec<u8>, src: &Vec<u8>)
    ensures
        final(dst)@ == old(dst)@ + src@,
{
    let mut i: usize = 0;
    while i < src.len()
        invariant
            i <= src@.len(),
            dst@ == old(dst)@ + src@.take(i as int),
        decreases src@.len() - i,
    {
        dst.push(src[i]);
        proof {
            assert(dst@ =~= old(dst)@ + src@.take(i + 1));
        }
        i = i + 1;
    }
    proof {
        assert(dst@ =~= old(dst)@ + src@);
    }
}

/// `text` with a blank separator line appended: nothing when empty, otherwise
/// one line break is ensured and a second one appended.
pub open spec fn blank_line_sep(text: Seq<u8>) -> Seq<u8> {
    if text.len() == 0 {
        text
    } else if text.last() == NL {
        text.push(NL)
    } else {
        text.push(NL).push(NL)
    }
}

/// `n` levels of indentation: two spaces per level.
pub open spec fn indent(n: nat) -> Seq<u8>
    decreases n,
{
    if n == 0 {
        Seq::empty()
    } else {
        indent((n - 1) as nat) + seq![SPACE, SPACE]
    }
}

/// `text` ending with exactly one line break added when it is non-empty and
/// does not already end with one.
pub open spec fn single_newline(text: Seq<u8>) -> Seq<u8> {
    if text.len() > 0 && text.last() != NL {
        text.push(NL)
    } else {
        text
    }
}

/// The paragraph-break rule. When the innermost list frame has not yet
/// emitted content, it is only marked as having done so. Otherwise a blank
/// separator line is emitted, then two spaces per list level beyond the
/// outermost, plus two more for a continuation paragraph inside a list item.
pub open spec fn new_paragraph_spec(text: Seq<u8>, stack: Seq<(Option<u64>, bool)>) -> (Seq<u8>, Seq<
    (Option<u64>, bool),
>) {
    if stack.len() > 0 && !stack.last().1 {
        (text, stack.update(stack.len() - 1, (stack.last().0, true)))
    } else {
        let levels = if stack.len() > 0 {
            (stack.len() - 1) as nat
        } else {
            0
        };
        let extra = if stack.len() > 0 {
            seq![SPACE, SPACE]
        } else {
            Seq::<u8>::empty()
        };
        (blank_line_sep(text) + indent(levels) + extra, stack)
    }
}

/// Appends `n` levels of two-space indentation.
fn push_indent(text: &mut Vec<u8>, n: usize)
    ensures
        final(text)@ == old(text)@ + indent(n as nat),
{
    let mut k: usize = 0;
    while k < n
        invariant
            k <= n,
            text@ == old(text)@ + indent(k as nat),
        decreases n - k,
    {
        text.push(SPACE);
        text.push(SPACE);
        proof {
            assert(text@ =~= old(text)@ + indent((k + 1) as nat));
        }
        k = k + 1;
    }
}

/// Inserts the spacing owed between block-level elements, respecting the
/// current list nesting.
pub fn new_paragraph(text: &mut Vec<u8>, list_stack: &mut Vec<(Option<u64>, bool)>)
    ensures
        (final(text)@, final(list_stack)@) == new_paragraph_spec(
            old(text)@,
            old(list_stack)@,
        ),
{
    let n = list_stack.len();
    let mut subsequent = false;
    if n > 0 {
        let frame = list_stack[n - 1];
        if !frame.1 {
            let _ = list_stack.pop();
            list_stack.push((frame.0, true));
            proof {
                assert(list_stack@ =~= old(list_stack)@.update(
                    old(list_stack)@.len() - 1,
                    (old(list_stack)@.last().0, true),
                ));
            }
            return ;
        }
        subsequent = true;
    }
    if text.len() > 0 {
        if text[text.len() - 1] != NL {
            text.push(NL);
        }
        text.push(NL);
    }
    proof {
        assert(text@ =~= blank_line_sep(old(text)@));
    }
    if n > 0 {
        push_indent(text, n - 1);
        text.push(SPACE);
        text.push(SPACE);
        proof {
            assert(text@ =~= blank_line_sep(old(text)@) + indent((n - 1) as nat) + seq![
                SPACE,
                SPACE,
            ]);
        }
    } else {
        proof {
            assert(text@ =~= blank_line_sep(old(text)@) + indent(0) + Seq::<u8>::empty());
        }
    }
}

/// The counter after one ordered item: one more, held at the top of `u64`.
pub open spec fn bumped(num: Option<u64>) -> Option<u64> {
    match num {
        Some(n) => Some(
            if n < u64::MAX {
                (n + 1) as u64
            } else {
                n
            },
        ),
        None => None,
    }
}

/// The marker an item emits: the counter's decimal digits and `". "` for an
/// ordered list, the literal `"- "` otherwise.
pub open spec fn item_marker(num: Option<u64>) -> Seq<u8> {
    match num {
        Some(n) => spec_decimal(n as nat) + seq![DOT, SPACE],
        None => seq![DASH, SPACE],
    }
}

/// The item-start rule. With no open list nothing happens. Otherwise the text
/// gains one line break if needed, indentation for every level beyond the
/// innermost, and the item marker; an ordered frame's counter advances and
/// the frame is marked as not yet having emitted content.
pub open spec fn item_spec(text: Seq<u8>, stack: Seq<(Option<u64>, bool)>) -> (Seq<u8>, Seq<
    (Option<u64>, bool),
>) {
    if stack.len() == 0 {
        (text, stack)
    } else {
        let frame = stack.last();
        (
            single_newline(text) + indent((stack.len() - 1) as nat) + item_marker(frame.0),
            stack.update(stack.len() - 1, (bumped(frame.0), false)),
        )
    }
}

/// Starts a list item: line break, indentation, marker, counter advance.
pub fn item_start(text: &mut Vec<u8>, list_stack: &mut Vec<(Option<u64>, bool)>)
    ensures
        (final(text)@, final(list_stack)@) == item_spec(old(text)@, old(list_stack)@),
{
    let n = list_stack.len();
    if n == 0 {
        return ;
    }
    let frame = list_stack[n - 1];
    if text.len() > 0 {
        if text[text.len() - 1] != NL {
            text.push(NL);
        }
    }
    proof {
        assert(text@ =~= single_newline(old(text)@));
    }
    push_indent(text, n - 1);
    let new_counter: Option<u64> = match frame.0 {
        Some(number) => {
            let digits = u64_to_decimal(number);
            push_bytes(text, &digits);
            text.push(DOT);
            text.push(SPACE);
            if number < u64::MAX {
                Some(number + 1)
            } else {
                Some(number)
            }
        },
        None => {
            text.push(DASH);
            text.push(SPACE);
            None
        },
    };
    let _ = list_stack.pop();
    list_stack.push((new_counter, false));
    proof {
        assert(text@ =~= single_newline(old(text)@) + indent((n - 1) as nat) + item_marker(
            frame.0,
        ));
        assert(list_stack@ =~= old(list_stack)@.update(
            old(list_stack)@.len() - 1,
            (bumped(frame.0), false),
        ));
    }
}

} // verus!
