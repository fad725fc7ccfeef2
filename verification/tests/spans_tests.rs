use std::collections::HashSet;

use thwack::layout::comment_text_lines;
use thwack::model::{test_comment, test_post, Mode, Source};
use thwack::posts::{highlighted_post, post_header_text, post_list_item, status_bar, title_bar};
use thwack::selection::{
    deselected_comment_body_line, deselected_comment_header_line, selected_comment_line,
};
use thwack::spans::{
    author_color, byte_at_char, comment_lines_text, hyperlink_runs, is_osc8_uri, link_spans,
    link_spans_with_ranges, links_in_range, osc8_link, CommentLink, Role, ScreenCell, Span,
    PALETTE_SIZE,
};

fn pieces(spans: &[Span]) -> Vec<(&str, Role)> {
    spans.iter().map(|s| (s.text.as_str(), s.role)).collect()
}

#[test]
fn link_spans_underlines_urls() {
    let spans = link_spans("see (https://example.com/a).");

    assert_eq!(spans[0].text, "see (");
    assert_eq!(spans[1].text, "https://example.com/a");
    assert_eq!(spans[1].role, Role::Link);
    assert_eq!(spans[2].text, ").");
    assert_ne!(spans[2].role, Role::Link);
}

#[test]
fn comment_lines_text_underlines_urls() {
    let comments = vec![test_comment("alice", 0, "see https://example.com/a.")];
    let lines = comment_text_lines(&comments, &HashSet::new(), None, 80);

    let text = comment_lines_text(&lines, &comments, None);
    let url_span = text[1]
        .iter()
        .find(|span| span.text == "https://example.com/a")
        .expect("url span");

    assert_eq!(url_span.role, Role::Link);
}

#[test]
fn main_post_header_text_includes_colored_metadata_lines() {
    let mut post = test_post(Source::HackerNews, "1");
    post.text = Some("summary".to_string());

    let text = post_header_text(Some(&post));

    assert!(text.len() >= 5);
}

#[test]
fn tests_post_header_text_includes_colored_metadata_lines() {
    let mut post = test_post(Source::HackerNews, "1");
    post.text = Some("summary".to_string());

    let text = post_header_text(Some(&post));

    assert!(text.len() >= 5);
    assert_eq!(text[2][1].role, Role::Link);
}

#[test]
fn post_header_lists_every_detail() {
    let mut post = test_post(Source::Lobsters, "abc");
    post.score = -3;
    post.comment_count = 12;
    post.url = None;
    post.text = Some("one https://x.org\n```\ncode\n```\n\n".to_string());
    let text = post_header_text(Some(&post));
    assert_eq!(pieces(&text[0]), vec![("title", Role::Title)]);
    assert_eq!(
        pieces(&text[1]),
        vec![
            ("by ", Role::Muted),
            ("author", Role::Byline),
            (" | ", Role::Muted),
            ("-3 points", Role::Score),
            (" | ", Role::Muted),
            ("12 comments", Role::Count),
            (" | id ", Role::Muted),
            ("abc", Role::Tag),
        ]
    );
    assert_eq!(
        pieces(&text[2]),
        vec![("url: ", Role::Muted), ("https://example.com/discussion", Role::Link)]
    );
    assert!(text[3].is_empty());
    assert_eq!(
        pieces(&text[4]),
        vec![("one ", Role::Text), ("https://x.org", Role::Link)]
    );
    assert_eq!(pieces(&text[5]), vec![("code", Role::Text)]);
    assert_eq!(text.len(), 6);
}

#[test]
fn post_header_without_post_or_text() {
    let none = post_header_text(None);
    assert_eq!(none.len(), 1);
    assert_eq!(pieces(&none[0]), vec![("No post selected", Role::Muted)]);
    let mut post = test_post(Source::HackerNews, "1");
    post.text = Some("```\n```".to_string());
    assert_eq!(post_header_text(Some(&post)).len(), 3);
}

#[test]
fn post_list_item_shows_meta_and_tags() {
    let mut post = test_post(Source::Lobsters, "1");
    post.score = 42;
    post.tags = vec!["rust".to_string(), "web".to_string()];
    let item = post_list_item(&post, 3);
    assert!(!item.shaded);
    assert_eq!(pieces(&item.lines[0]), vec![("title", Role::Title)]);
    assert_eq!(
        pieces(&item.lines[1]),
        vec![
            ("  42 points", Role::Score),
            (" | ", Role::Muted),
            ("1 comments", Role::Count),
            (" | by ", Role::Muted),
            ("author", Role::Byline),
            (" | ", Role::Muted),
            ("https://example.com", Role::Link),
            (" | tags: ", Role::Muted),
            ("rust, web", Role::Tag),
        ]
    );
    let plain = post_list_item(&test_post(Source::HackerNews, "2"), 0);
    assert!(plain.shaded);
    assert_eq!(plain.lines[1].len(), 7);
}

#[test]
fn bars_name_the_listing_and_keys() {
    assert_eq!(
        title_bar(Source::HackerNews, Mode::Posts),
        "Hacker News top | posts"
    );
    assert_eq!(
        title_bar(Source::Lobsters, Mode::Comments),
        "Lobsters hottest | comments"
    );
    assert_eq!(
        status_bar("Loaded", Mode::Comments),
        "Loaded | read-only | j/k/↑/↓ scroll · h/l/←/→ select · Space collapse · Esc posts · o open · c discussion · r reload · q quit"
    );
    assert!(status_bar("x", Mode::Posts).ends_with("Tab/1/2 source · q quit"));
}

#[test]
fn highlighted_post_stays_in_the_list() {
    assert_eq!(highlighted_post(0, 0), None);
    assert_eq!(highlighted_post(3, 1), Some(1));
    assert_eq!(highlighted_post(3, 7), Some(2));
}

#[test]
fn deselected_lines_split_rails_from_text() {
    let c = test_comment("bob", 1, "hi");
    let header = deselected_comment_header_line("├─ bob", &c);
    assert_eq!(
        pieces(&header),
        vec![("├─ ", Role::Rail), ("bob", Role::Author(author_color("bob")))]
    );
    let top = deselected_comment_header_line("alice", &test_comment("alice", 0, "x"));
    assert_eq!(pieces(&top), vec![("alice", Role::Author(author_color("alice")))]);
    assert_eq!(
        pieces(&deselected_comment_body_line("  text", 0)),
        vec![("  ", Role::Rail), ("text", Role::Text)]
    );
    assert_eq!(
        pieces(&deselected_comment_body_line("│  │  deep", 2)),
        vec![("│  │  ", Role::Rail), ("deep", Role::Text)]
    );
    assert_eq!(pieces(&deselected_comment_body_line("", 0)), vec![("", Role::Text)]);
}

#[test]
fn selected_lines_highlight_the_marker() {
    assert_eq!(
        pieces(&selected_comment_line("▶ alice", 0, true)),
        vec![("▶ ", Role::Selected), ("alice", Role::Selected)]
    );
    assert_eq!(
        pieces(&selected_comment_line("│  ▶─ bob", 2, true)),
        vec![("│  ", Role::Rail), ("▶─ ", Role::Selected), ("bob", Role::Selected)]
    );
    assert_eq!(
        pieces(&selected_comment_line("│  │  text", 2, false)),
        vec![("│  ", Role::Rail), ("│  ", Role::Selected), ("text", Role::Text)]
    );
    assert_eq!(
        pieces(&selected_comment_line("  text", 0, false)),
        vec![("  text", Role::Text)]
    );
    assert_eq!(
        pieces(&selected_comment_line("odd", 1, true)),
        vec![("odd", Role::Selected)]
    );
}

#[test]
fn author_colors_are_stable_palette_slots() {
    assert_eq!(author_color(""), 0);
    // 'a' is 97: 97 % 8 == 1.
    assert_eq!(author_color("a"), 1);
    // (97 * 31 + 98) % 8 == 3105 % 8 == 1.
    assert_eq!(author_color("ab"), 1);
    assert!(author_color("someone") < PALETTE_SIZE);
    assert_eq!(author_color("someone"), author_color("someone"));
}

#[test]
fn comment_lines_color_authors_and_rails() {
    let comments = vec![test_comment("alice", 0, "hello"), test_comment("bob", 1, "reply")];
    let lines = comment_text_lines(&comments, &HashSet::new(), Some(1), 80);
    let text = comment_lines_text(&lines, &comments, Some(1));
    assert_eq!(
        pieces(&text[0]),
        vec![("alice", Role::Author(author_color("alice")))]
    );
    assert_eq!(pieces(&text[1]), vec![("  ", Role::Rail), ("hello", Role::Text)]);
    assert_eq!(
        pieces(&text[2]),
        vec![("▶─ ", Role::Rail), ("bob", Role::Selected)]
    );
}

#[test]
fn osc8_wraps_printable_web_links() {
    assert!(is_osc8_uri("https://example.com/a?b=1"));
    assert!(is_osc8_uri("http://x"));
    assert!(!is_osc8_uri("ftp://x"));
    assert!(!is_osc8_uri("https://exämple.com"));
    assert!(is_osc8_uri("https://a b"));
    assert!(!is_osc8_uri("https://a\tb"));
    assert_eq!(
        osc8_link("https://a", "A"),
        "\x1b]8;;https://a\x1b\\A\x1b]8;;\x1b\\"
    );
}

#[test]
fn byte_offsets_count_utf8() {
    assert_eq!(byte_at_char("aé€b", 0), 0);
    assert_eq!(byte_at_char("aé€b", 2), 3);
    assert_eq!(byte_at_char("aé€b", 3), 6);
    assert_eq!(byte_at_char("aé€b", 9), 7);
}

#[test]
fn links_are_clipped_to_a_range() {
    let links = vec![
        CommentLink { start: 0, end: 4, url: "https://a".to_string() },
        CommentLink { start: 6, end: 12, url: "https://b".to_string() },
        CommentLink { start: 20, end: 25, url: "https://c".to_string() },
    ];
    let clipped = links_in_range(&links, 2, 8);
    assert_eq!(clipped.len(), 2);
    assert_eq!((clipped[0].start, clipped[0].end), (0, 2));
    assert_eq!((clipped[1].start, clipped[1].end, clipped[1].url.as_str()), (4, 8, "https://b"));
}

#[test]
fn ranged_links_mark_their_characters() {
    let links = vec![CommentLink { start: 4, end: 8, url: "https://x".to_string() }];
    let spans = link_spans_with_ranges("see link then https://y.", &links);
    assert_eq!(
        pieces(&spans),
        vec![
            ("see ", Role::Text),
            ("link", Role::Link),
            (" then ", Role::Text),
            ("https://y", Role::Link),
            (".", Role::Text),
        ]
    );
    assert_eq!(pieces(&link_spans_with_ranges("", &[])), Vec::<(&str, Role)>::new());
}

fn cell(symbol: &str, link: bool) -> ScreenCell {
    ScreenCell { symbol: symbol.to_string(), link }
}

#[test]
fn hyperlink_runs_cover_link_cells() {
    let mut row = vec![cell("x", false)];
    for c in "http://a".chars() {
        row.push(cell(&c.to_string(), true));
    }
    row.push(cell(" ", false));
    for c in "notalink".chars() {
        row.push(cell(&c.to_string(), true));
    }
    let runs = hyperlink_runs(&row);
    assert_eq!(runs.len(), 1);
    assert_eq!((runs[0].start, runs[0].end), (1, 9));
    assert_eq!(runs[0].text, "http://a");
    assert!(hyperlink_runs(&[]).is_empty());
}

#[test]
fn lines_with_owners_highlight_the_selected_comment() {
    let comments = vec![test_comment("alice", 0, "hello"), test_comment("bob", 1, "reply")];
    let lines: Vec<String> = vec![
        "alice".to_string(),
        "  hello".to_string(),
        "▶─ bob".to_string(),
        "│  reply".to_string(),
        "".to_string(),
    ];
    let owners = vec![Some(0), Some(0), Some(1), Some(1), None];
    let text = thwack::selection::comment_lines_text(&lines, &owners, &comments, Some(1));
    assert_eq!(text.len(), 5);
    assert_eq!(pieces(&text[0]), vec![("alice", Role::Author(author_color("alice")))]);
    assert_eq!(pieces(&text[1]), vec![("  ", Role::Rail), ("hello", Role::Text)]);
    assert_eq!(
        pieces(&text[2]),
        vec![("▶─ ", Role::Selected), ("bob", Role::Selected)]
    );
    assert_eq!(
        pieces(&text[3]),
        vec![("│  ", Role::Selected), ("reply", Role::Text)]
    );
    assert_eq!(pieces(&text[4]), vec![("", Role::Rail)]);
    let short = thwack::selection::comment_lines_text(&lines, &owners[..2], &comments, None);
    assert_eq!(short.len(), 2);
}

#[test]
fn styled_spans_put_the_text_back_together() {
    let text = "see https://a.b/c, then (http://x.y).";
    let joined: String = link_spans(text).iter().map(|s| s.text.as_str()).collect();
    assert_eq!(joined, text);
    assert!(link_spans(text).iter().all(|s| !s.text.is_empty()));
    let comments = vec![test_comment("alice", 0, "hi https://q.r"), test_comment("bob", 1, "x")];
    let lines = comment_text_lines(&comments, &HashSet::new(), Some(0), 12);
    let text = comment_lines_text(&lines, &comments, Some(0));
    for (line, spans) in lines.iter().zip(text.iter()) {
        let joined: String = spans.iter().map(|s| s.text.as_str()).collect();
        assert_eq!(joined, line.text);
    }
}

#[test]
fn link_pieces_hold_no_space_or_closing_mark() {
    for span in link_spans("a (https://x.y/z), b https://q.r.") {
        if span.role == Role::Link {
            assert!(!span.text.contains(char::is_whitespace));
            assert!(!span.text.ends_with(|c: char| ".,);]}>\"'".contains(c)));
            assert!(span.text.starts_with("http"));
        }
    }
}

#[test]
fn wrapped_link_lines_carry_their_links() {
    let text = vec![thwack::linked::TextLine { text: "one two".to_string(), links: Vec::new() }];
    let mut lines = Vec::new();
    thwack::linked::push_wrapped_link_lines_with_continuation(&mut lines, Some(3), "alice: ", "  ", &text, 10);
    let texts: Vec<&str> = lines.iter().map(|l| l.line.text.as_str()).collect();
    assert_eq!(texts, vec!["alice: one", "  two"]);
    assert!(lines.iter().all(|l| l.line.owner == Some(3) && l.links.is_empty()));

    let text = vec![
        thwack::linked::TextLine {
            text: "see this link now".to_string(),
            links: vec![thwack::linked::TextLink { start: 4, end: 13, url: "https://l".to_string() }],
        },
        thwack::linked::TextLine { text: "   ".to_string(), links: Vec::new() },
    ];
    let mut lines = Vec::new();
    thwack::linked::push_wrapped_link_lines_with_continuation(&mut lines, None, "> ", "| ", &text, 10);
    let texts: Vec<&str> = lines.iter().map(|l| l.line.text.as_str()).collect();
    assert_eq!(texts, vec!["> see", "| this", "| link now", "| "]);
    let ranges: Vec<Vec<(usize, usize)>> = lines
        .iter()
        .map(|l| l.links.iter().map(|k| (k.start, k.end)).collect())
        .collect();
    assert_eq!(ranges, vec![vec![], vec![(2, 6)], vec![(2, 6)], vec![]]);
    assert_eq!(lines[2].links[0].url, "https://l");
}

#[test]
fn a_segment_gets_the_links_that_overlap_it() {
    let links = vec![
        thwack::linked::TextLink { start: 0, end: 3, url: "https://a".to_string() },
        thwack::linked::TextLink { start: 5, end: 9, url: "https://b".to_string() },
    ];
    let mut lines = Vec::new();
    let prefix: Vec<char> = "│ ".chars().collect();
    let piece: Vec<char> = "bcdefg".chars().collect();
    thwack::linked::push_wrapped_segment(&mut lines, Some(1), &prefix, &links, 2, &piece);
    assert_eq!(lines[0].line.text, "│ bcdefg");
    let got: Vec<(usize, usize, &str)> = lines[0].links.iter().map(|k| (k.start, k.end, k.url.as_str())).collect();
    assert_eq!(got, vec![(2, 3, "https://a"), (5, 8, "https://b")]);
}
