//! End-to-end tests of the markdown compiler through its public entry
//! points, with the real markdown parser linked.

use rich_text::events::{EmptyRegistry, LanguageRegistry};
use rich_text::fold::render_markdown;
use rich_text::types::{Highlight, HighlightStyle, Mention, RichText, SyntaxToken, TextRange};

fn text_of(rt: &RichText) -> String {
    String::from_utf8(rt.text.clone()).unwrap()
}

fn render_plain(block: &str) -> RichText {
    let mentions: Vec<Mention> = Vec::new();
    render_markdown(block.to_string(), &mentions, &EmptyRegistry, None)
}

/// A registry that resolves one language name to one handle and always
/// reports the same fixed token list.
struct FixedRegistry {
    name: String,
    handle: u64,
    tokens: Vec<SyntaxToken>,
}

impl LanguageRegistry for FixedRegistry {
    fn language_for_name(&self, name: &str) -> Option<u64> {
        if name == self.name.as_str() {
            Some(self.handle)
        } else {
            None
        }
    }

    fn highlight_text(&self, _language: u64, _content: &Vec<u8>) -> Vec<SyntaxToken> {
        self.tokens.clone()
    }
}

#[test]
fn plain_text_no_markup() {
    let rt = render_plain("hello world");
    assert_eq!(text_of(&rt), "hello world");
    assert!(rt.highlights.is_empty());
    assert!(rt.link_ranges.is_empty());
    assert!(rt.link_urls.is_empty());
}

#[test]
fn plain_text_trailing_whitespace_trimmed() {
    let rt = render_plain("hello\n\n\n");
    assert_eq!(text_of(&rt), "hello");
}

#[test]
fn bold_prefix_scenario() {
    let rt = render_plain("**bold** text");
    assert_eq!(text_of(&rt), "bold text");
    assert_eq!(rt.highlights.len(), 1);
    assert_eq!(rt.highlights[0].0, TextRange { start: 0, end: 4 });
    assert_eq!(
        rt.highlights[0].1,
        Highlight::Highlight(HighlightStyle { bold: true, italic: false, underline: false })
    );
    assert!(rt.link_ranges.is_empty());
}

#[test]
fn link_scenario() {
    let rt = render_plain("[link](http://x)");
    assert_eq!(text_of(&rt), "link");
    assert_eq!(rt.link_ranges, vec![TextRange { start: 0, end: 4 }]);
    assert_eq!(rt.link_urls, vec!["http://x".to_string()]);
    assert_eq!(rt.highlights.len(), 1);
    assert_eq!(rt.highlights[0].0, TextRange { start: 0, end: 4 });
    assert_eq!(
        rt.highlights[0].1,
        Highlight::Highlight(HighlightStyle { bold: false, italic: false, underline: true })
    );
}

#[test]
fn nested_strong_emphasis_single_run() {
    let rt = render_plain("***word***");
    assert_eq!(text_of(&rt), "word");
    assert_eq!(rt.highlights.len(), 1);
    assert_eq!(rt.highlights[0].0, TextRange { start: 0, end: 4 });
    match rt.highlights[0].1 {
        Highlight::Highlight(style) => {
            assert!(style.bold);
            assert!(style.italic);
            assert!(!style.underline);
        }
        _ => panic!("expected an explicit style"),
    }
}

#[test]
fn adjacent_identical_styles_merge() {
    // The entity splits the bold content into several contiguous text
    // events, all bold: the merge rule collapses them into one entry.
    let rt = render_plain("**a&amp;b**");
    assert_eq!(text_of(&rt), "a&b");
    assert_eq!(rt.highlights.len(), 1);
    assert_eq!(rt.highlights[0].0, TextRange { start: 0, end: 3 });
    assert_eq!(
        rt.highlights[0].1,
        Highlight::Highlight(HighlightStyle { bold: true, italic: false, underline: false })
    );
}

#[test]
fn heading_text_is_bold() {
    let rt = render_plain("# Title");
    assert_eq!(text_of(&rt), "Title");
    assert_eq!(rt.highlights.len(), 1);
    assert_eq!(rt.highlights[0].0, TextRange { start: 0, end: 5 });
    assert_eq!(
        rt.highlights[0].1,
        Highlight::Highlight(HighlightStyle { bold: true, italic: false, underline: false })
    );
}

#[test]
fn ordered_list_counter_increments() {
    let rt = render_plain("1. a\n2. b");
    assert_eq!(text_of(&rt), "1. a\n2. b");
    assert!(rt.highlights.is_empty());
}

#[test]
fn ordered_list_declared_start_number() {
    let rt = render_plain("3. x\n4. y");
    assert_eq!(text_of(&rt), "3. x\n4. y");
}

#[test]
fn ordered_list_two_digit_counter() {
    let rt = render_plain("10. a\n11. b");
    assert_eq!(text_of(&rt), "10. a\n11. b");
}

#[test]
fn unordered_list_markers() {
    let rt = render_plain("- a\n- b");
    assert_eq!(text_of(&rt), "- a\n- b");
}

#[test]
fn nested_list_indentation() {
    let rt = render_plain("- a\n  - b");
    assert_eq!(text_of(&rt), "- a\n  - b");
}

#[test]
fn paragraphs_get_blank_separator() {
    let rt = render_plain("one\n\ntwo");
    assert_eq!(text_of(&rt), "one\n\ntwo");
}

#[test]
fn soft_break_becomes_newline() {
    let rt = render_plain("a\nb");
    assert_eq!(text_of(&rt), "a\nb");
}

#[test]
fn hard_break_becomes_newline() {
    let rt = render_plain("a  \nb");
    assert_eq!(text_of(&rt), "a\nb");
}

#[test]
fn unresolved_code_block_renders_plain() {
    let rt = render_plain("```nosuch\nlet x = 1;\n```");
    assert_eq!(text_of(&rt), "let x = 1;");
    assert!(rt.highlights.is_empty());
}

#[test]
fn resolved_code_block_zero_tokens_single_code_run() {
    let registry = FixedRegistry { name: "rs".to_string(), handle: 1, tokens: Vec::new() };
    let mentions: Vec<Mention> = Vec::new();
    let rt = render_markdown("```rs\nlet x = 1;\n```".to_string(), &mentions, &registry, None);
    assert_eq!(text_of(&rt), "let x = 1;");
    // The single generic-code annotation covers the whole code content as
    // appended, including its final line break, which the trim then removes.
    assert_eq!(rt.highlights.len(), 1);
    assert_eq!(rt.highlights[0].0, TextRange { start: 0, end: 11 });
    assert_eq!(rt.highlights[0].1, Highlight::Code);
}

#[test]
fn resolved_code_block_tokens_cover_gaps() {
    let registry = FixedRegistry {
        name: "rs".to_string(),
        handle: 1,
        tokens: vec![SyntaxToken { start: 4, end: 5, id: 7 }],
    };
    let mentions: Vec<Mention> = Vec::new();
    let rt = render_markdown("```rs\nlet x = 1;\n```".to_string(), &mentions, &registry, None);
    assert_eq!(text_of(&rt), "let x = 1;");
    assert_eq!(
        rt.highlights,
        vec![
            (TextRange { start: 0, end: 4 }, Highlight::Code),
            (TextRange { start: 4, end: 5 }, Highlight::Id(7)),
            (TextRange { start: 5, end: 11 }, Highlight::Code),
        ]
    );
}

#[test]
fn indented_code_block_uses_default_language() {
    let registry = FixedRegistry { name: "rs".to_string(), handle: 1, tokens: Vec::new() };
    let mentions: Vec<Mention> = Vec::new();
    let rt = render_markdown("    let x = 1;".to_string(), &mentions, &registry, Some(1));
    assert_eq!(text_of(&rt), "let x = 1;");
    assert_eq!(rt.highlights.len(), 1);
    assert_eq!(rt.highlights[0].1, Highlight::Code);
}

#[test]
fn mention_inside_text_run() {
    let mentions = vec![Mention {
        range: TextRange { start: 6, end: 11 },
        is_self_mention: false,
    }];
    let rt = render_markdown("hello @user!".to_string(), &mentions, &EmptyRegistry, None);
    assert_eq!(text_of(&rt), "hello @user!");
    assert_eq!(rt.highlights.len(), 1);
    assert_eq!(rt.highlights[0].0, TextRange { start: 6, end: 11 });
    assert_eq!(rt.highlights[0].1, Highlight::Mention);
}

#[test]
fn self_mention_inside_text_run() {
    let mentions = vec![Mention {
        range: TextRange { start: 0, end: 3 },
        is_self_mention: true,
    }];
    let rt = render_markdown("you there".to_string(), &mentions, &EmptyRegistry, None);
    assert_eq!(rt.highlights.len(), 1);
    assert_eq!(rt.highlights[0].0, TextRange { start: 0, end: 3 });
    assert_eq!(rt.highlights[0].1, Highlight::SelfMention);
}

#[test]
fn straddling_mention_is_dropped() {
    // The mention reaches across the text event's source range and is
    // silently skipped.
    let mentions = vec![Mention {
        range: TextRange { start: 0, end: 200 },
        is_self_mention: false,
    }];
    let rt = render_markdown("short".to_string(), &mentions, &EmptyRegistry, None);
    assert_eq!(text_of(&rt), "short");
    assert!(rt.highlights.is_empty());
}

#[test]
fn two_mentions_in_one_run() {
    let mentions = vec![
        Mention { range: TextRange { start: 0, end: 2 }, is_self_mention: false },
        Mention { range: TextRange { start: 3, end: 5 }, is_self_mention: true },
    ];
    let rt = render_markdown("ab cd".to_string(), &mentions, &EmptyRegistry, None);
    assert_eq!(
        rt.highlights,
        vec![
            (TextRange { start: 0, end: 2 }, Highlight::Mention),
            (TextRange { start: 3, end: 5 }, Highlight::SelfMention),
        ]
    );
}

#[test]
fn inline_code_span_appended_verbatim() {
    let rt = render_plain("a `b` c");
    assert_eq!(text_of(&rt), "a b c");
    assert!(rt.highlights.is_empty());
}

#[test]
fn inline_code_inside_link_gets_underline_and_link_entry() {
    let rt = render_plain("[`c`](http://u)");
    assert_eq!(text_of(&rt), "c");
    assert_eq!(rt.link_ranges, vec![TextRange { start: 0, end: 1 }]);
    assert_eq!(rt.link_urls, vec!["http://u".to_string()]);
    assert_eq!(rt.highlights.len(), 1);
    assert_eq!(
        rt.highlights[0].1,
        Highlight::Highlight(HighlightStyle { bold: false, italic: false, underline: true })
    );
}

#[test]
fn link_tables_stay_parallel() {
    let rt = render_plain("[a](http://a) and [b](http://b)");
    assert_eq!(rt.link_ranges.len(), rt.link_urls.len());
    assert_eq!(rt.link_urls, vec!["http://a".to_string(), "http://b".to_string()]);
}

#[test]
fn highlights_sorted_and_disjoint_without_mentions() {
    let rt = render_plain("# H\n\nsome **bold** and *italic* text with [l](http://x)\n\n- item");
    let mut prev_end = 0usize;
    for (range, _) in rt.highlights.iter() {
        assert!(prev_end <= range.start);
        assert!(range.start <= range.end);
        prev_end = range.end;
    }
}

#[test]
fn list_item_paragraph_shares_line() {
    let rt = render_plain("- first\n\n  second");
    assert_eq!(text_of(&rt), "- first\n\n  second");
}

#[test]
fn highlight_from_conversions() {
    let style = HighlightStyle { bold: true, italic: false, underline: false };
    assert_eq!(Highlight::from(style), Highlight::Highlight(style));
    assert_eq!(Highlight::from(9u64), Highlight::Id(9));
}
