//! The structural event stream the compiler folds over, the trusted boundary
//! to the external markdown parser that produces it, and the capability
//! interface for language resolution and syntax highlighting.

use vstd::prelude::*;

use crate::types::SyntaxToken;
use pulldown_cmark::{CodeBlockKind, Event, Options, Parser, Tag};

verus! {

/// One structural or content event of the markdown document, with enough of
/// its source information for mention remapping. Events the compiler ignores
/// arrive as `Other`.
#[derive(Debug, Clone)]
pub enum MdEvent {
    /// Literal text, with its source byte range.
    Text { content: Vec<u8>, source_start: usize, source_end: usize },
    /// An inline code span.
    Code { content: Vec<u8> },
    ParagraphStart,
    HeadingStart,
    /// A code block: `fenced` holds the declared language name of a fenced
    /// block, and is `None` for an indented block.
    CodeBlockStart { fenced: Option<String> },
    EmphasisStart,
    StrongStart,
    LinkStart { url: String },
    /// A list: ordered lists carry their declared start number.
    ListStart { first: Option<u64> },
    ItemStart,
    HeadingEnd,
    CodeBlockEnd,
    EmphasisEnd,
    StrongEnd,
    LinkEnd,
    ListEnd,
    HardBreak,
    SoftBreak,
    Other,
}

/// The event stream the external markdown parser emits for a document. The
/// parser is deterministic and total: a function of the input text alone.
pub uninterp spec fn events_of(s: Seq<char>) -> Seq<MdEvent>;

/// Declares the external parser's tag type so the two converters below can
/// take it; its values stay opaque.
#[verifier::external_type_specification]
#[verifier::external_body]
pub struct ExTag<'a>(pulldown_cmark::Tag<'a>);

/// Relies on `pulldown_cmark::Tag`: one arm per start tag the compiler
/// reacts to, moving the tag's fields into the library's event type.
#[verifier::external_body]
fn start_event(tag: pulldown_cmark::Tag<'_>) -> MdEvent {
    match tag {
        Tag::Paragraph => MdEvent::ParagraphStart,
        Tag::Heading(_, _, _) => MdEvent::HeadingStart,
        Tag::CodeBlock(CodeBlockKind::Fenced(name)) => MdEvent::CodeBlockStart {
            fenced: Some(name.to_string()),
        },
        Tag::CodeBlock(CodeBlockKind::Indented) => MdEvent::CodeBlockStart { fenced: None },
        Tag::Emphasis => MdEvent::EmphasisStart,
        Tag::Strong => MdEvent::StrongStart,
        Tag::Link(_, url, _) => MdEvent::LinkStart { url: url.to_string() },
        Tag::List(first) => MdEvent::ListStart { first },
        Tag::Item => MdEvent::ItemStart,
        _ => MdEvent::Other,
    }
}

/// Relies on `pulldown_cmark::Tag`: one arm per end tag the compiler reacts
/// to.
#[verifier::external_body]
fn end_event(tag: pulldown_cmark::Tag<'_>) -> MdEvent {
    match tag {
        Tag::Heading(_, _, _) => MdEvent::HeadingEnd,
        Tag::CodeBlock(_) => MdEvent::CodeBlockEnd,
        Tag::Emphasis => MdEvent::EmphasisEnd,
        Tag::Strong => MdEvent::StrongEnd,
        Tag::Link(_, _, _) => MdEvent::LinkEnd,
        Tag::List(_) => MdEvent::ListEnd,
        _ => MdEvent::Other,
    }
}

/// Relies on `pulldown_cmark::Parser`: with all extensions enabled it turns a
/// markdown document into a deterministic event sequence, each event carrying
/// its source byte range, degrading gracefully on malformed input rather than
/// failing.
#[verifier::external_body]
pub fn parse_events(block: &str) -> (r: Vec<MdEvent>)
    ensures
        r@ == events_of(block@),
{
    let mut out = Vec::new();
    for (event, sr) in Parser::new_ext(block, Options::all()).into_offset_iter() {
        out.push(match event {
            Event::Text(t) => MdEvent::Text { content: t.as_bytes().to_vec(), source_start: sr.start, source_end: sr.end },
            Event::Code(t) => MdEvent::Code { content: t.as_bytes().to_vec() },
            Event::Start(tag) => start_event(tag),
            Event::End(tag) => end_event(tag),
            Event::HardBreak => MdEvent::HardBreak,
            Event::SoftBreak => MdEvent::SoftBreak,
            _ => MdEvent::Other,
        });
    }
    out
}

/// The language-resolution and syntax-highlighting capability: a non-blocking
/// best-effort lookup from a fenced block's language name to a language
/// handle, and a tokenizer that reports syntax tokens for code content.
/// Nothing is assumed of either answer; the compiler is correct for every
/// outcome.
pub trait LanguageRegistry {
    /// Resolves a language name, returning a handle when the language is
    /// known and available right now, and `None` otherwise.
    fn language_for_name(&self, name: &str) -> Option<u64>;

    /// Reports syntax tokens for `content` under the given language handle.
    fn highlight_text(&self, language: u64, content: &Vec<u8>) -> Vec<SyntaxToken>;
}

/// A registry that knows no languages: every code block renders as plain
/// code.
pub struct EmptyRegistry;

impl LanguageRegistry for EmptyRegistry {
    fn language_for_name(&self, name: &str) -> Option<u64> {
        None
    }

    fn highlight_text(&self, language: u64, content: &Vec<u8>) -> Vec<SyntaxToken> {
        Vec::new()
    }
}

} // verus!
