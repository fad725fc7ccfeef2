use std::collections::HashSet;

use thwack::layout::{
    comment_descendant_count, comment_prefix_for, comment_text_lines, owner_line_range,
    push_wrapped_lines, push_wrapped_lines_with_continuation, scroll_to_show_comment, selected_comment_prefix, split_at_char_count,
    split_at_width, visible_comment_indices, line_owners, line_texts, CommentLine,
};
use thwack::model::{test_comment, Comment};

fn owned(spec: &[(&str, Option<usize>)]) -> Vec<CommentLine> {
    spec.iter()
        .map(|(text, owner)| CommentLine::new(text.to_string(), *owner))
        .collect()
}

#[test]
fn main_comment_prefix_makes_nested_comments_visible() {
    assert_eq!(
        comment_prefix_for(0, false),
        ("".to_string(), "  ".to_string())
    );
    assert_eq!(
        comment_prefix_for(1, false),
        ("├─ ".to_string(), "│  ".to_string())
    );
    assert_eq!(
        comment_prefix_for(2, false),
        ("│  ├─ ".to_string(), "│  │  ".to_string())
    );
}

#[test]
fn tests_comment_prefix_makes_nested_comments_visible() {
    assert_eq!(
        comment_prefix_for(0, false),
        ("".to_string(), "  ".to_string())
    );
    assert_eq!(
        comment_prefix_for(1, false),
        ("├─ ".to_string(), "│  ".to_string())
    );
    assert_eq!(
        comment_prefix_for(2, false),
        ("│  ├─ ".to_string(), "│  │  ".to_string())
    );
}

#[test]
fn main_selected_comment_prefix_keeps_nested_rails_aligned() {
    assert_eq!(selected_comment_prefix(0), "▶ ");
    assert_eq!(selected_comment_prefix(1), "▶─ ");
    assert_eq!(selected_comment_prefix(2), "│  ▶─ ");
}

#[test]
fn tests_selected_comment_prefix_keeps_nested_rails_aligned() {
    assert_eq!(selected_comment_prefix(0), "▶ ");
    assert_eq!(selected_comment_prefix(1), "▶─ ");
    assert_eq!(selected_comment_prefix(2), "│  ▶─ ");
}

#[test]
fn main_child_comment_starts_without_detached_separator() {
    let comments = vec![
        test_comment("parent", 0, "parent text"),
        test_comment("child", 1, "child text"),
    ];

    let lines = comment_text_lines(&comments, &HashSet::new(), None, 80);
    let (lines, owners): (Vec<String>, Vec<Option<usize>>) =
        lines.into_iter().map(|line| (line.text, line.owner)).unzip();

    assert_eq!(lines[1], "  parent text");
    assert_eq!(owners[1], Some(0));
    assert_eq!(lines[2], "┌─ child");
    assert_eq!(owners[2], Some(1));
}

#[test]
fn tests_child_comment_starts_without_detached_separator() {
    let comments = vec![
        test_comment("parent", 0, "parent text"),
        test_comment("child", 1, "child text"),
    ];

    let lines = comment_text_lines(&comments, &HashSet::new(), None, 80);

    assert_eq!(lines[1].text.as_str(), "  parent text");
    assert_eq!(lines[1].owner, Some(0));
    assert_eq!(lines[2].text.as_str(), "┌─ child");
    assert_eq!(lines[2].owner, Some(1));
}

#[test]
fn comment_text_keeps_blank_line_between_paragraphs() {
    let comments = vec![test_comment("alice", 0, "first\n\nsecond")];
    let lines = comment_text_lines(&comments, &HashSet::new(), None, 80);

    assert_eq!(line_texts(&lines), vec!["alice", "  first", "  ", "  second"]);
}

#[test]
fn nested_comment_separators_keep_rails() {
    let comments = vec![
        test_comment("root", 0, "root text"),
        test_comment("first", 1, "first text"),
        test_comment("child", 2, "child text"),
        test_comment("second", 1, "second text"),
    ];

    let lines = comment_text_lines(&comments, &HashSet::new(), None, 80);

    assert_eq!(
        line_texts(&lines),
        vec![
            "root",
            "  root text",
            "┌─ first",
            "│  first text",
            "│  ",
            "│  ┌─ child",
            "│  │  child text",
            "│  ",
            "├─ second",
            "│  second text",
        ]
    );
    assert_eq!(lines[4].owner, None);
    assert_eq!(lines[7].owner, None);
}

#[test]
fn main_comment_text_wraps_long_comments_with_rails() {
    let comments = vec![Comment {
        author: "alice".to_string(),
        depth: 1,
        text: "one two three four five".to_string(),
        url: None,
    }];

    let lines = comment_text_lines(&comments, &HashSet::new(), None, 8);

    assert_eq!(
        line_owners(&lines),
        vec![Some(0), Some(0), Some(0), Some(0), Some(0), Some(0)]
    );
    assert_eq!(
        line_texts(&lines),
        vec!["┌─ alice", "│  one", "│  two", "│  three", "│  four", "│  five"]
    );
}

#[test]
fn tests_comment_text_wraps_long_comments_with_rails() {
    let comments = vec![Comment {
        author: "alice".to_string(),
        depth: 1,
        text: "one two three four five".to_string(),
        url: None,
    }];

    let lines = comment_text_lines(&comments, &HashSet::new(), None, 8);

    assert_eq!(
        line_owners(&lines),
        vec![Some(0), Some(0), Some(0), Some(0), Some(0), Some(0)]
    );
    assert_eq!(
        line_texts(&lines),
        vec!["┌─ alice", "│  one", "│  two", "│  three", "│  four", "│  five"]
    );
}

#[test]
fn main_comment_text_strips_code_fence_backticks() {
    let comments = vec![test_comment(
        "alice",
        0,
        "before\n```rust\nlet x = `value`;\n```\nafter",
    )];

    let lines = comment_text_lines(&comments, &HashSet::new(), None, 80);

    assert!(lines.iter().any(|line| line.text.contains("let x = value;")));
    assert!(!lines.iter().any(|line| line.text.contains("```")));
    assert!(!lines.iter().any(|line| line.text.contains('`')));
}

#[test]
fn tests_comment_text_strips_code_fence_backticks() {
    let comments = vec![test_comment(
        "alice",
        0,
        "before\n```rust\nlet x = `value`;\n```\nafter",
    )];

    let lines = comment_text_lines(&comments, &HashSet::new(), None, 80);

    assert!(lines.iter().any(|line| line.text.contains("let x = value;")));
    assert!(!lines.iter().any(|line| line.text.contains("```")));
    assert!(!lines.iter().any(|line| line.text.contains('`')));
}

#[test]
fn main_selected_comment_is_marked() {
    let comments = vec![test_comment("alice", 0, "hello")];

    let lines = comment_text_lines(&comments, &HashSet::new(), Some(0), 80);

    assert!(lines[0].text.starts_with("▶ alice"));
}

#[test]
fn tests_selected_comment_is_marked() {
    let comments = vec![test_comment("alice", 0, "hello")];

    let lines = comment_text_lines(&comments, &HashSet::new(), Some(0), 80);

    assert!(lines[0].text.starts_with("▶ alice"));
}

fn collapsed_thread_lines() -> Vec<CommentLine> {
    let comments = vec![
        test_comment("root", 0, "root text"),
        test_comment("child", 1, "child text"),
        test_comment("grandchild", 2, "grandchild text"),
        test_comment("sibling", 0, "sibling text"),
    ];
    let collapsed = HashSet::from([0]);
    comment_text_lines(&comments, &collapsed, None, 80)
}

#[test]
fn main_collapsed_comment_hides_descendants() {
    let lines = collapsed_thread_lines();

    assert!(lines
        .iter()
        .any(|line| line.text.contains("2 replies collapsed")));
    assert!(!lines.iter().any(|line| line.text.contains("root text")));
    assert!(lines.iter().any(|line| line.text.contains("sibling")));
    assert!(!lines.iter().any(|line| line.text.contains("child")));
    assert!(line_owners(&lines).contains(&Some(0)));
    assert!(line_owners(&lines).contains(&Some(3)));
}

#[test]
fn tests_collapsed_comment_hides_descendants() {
    let lines = collapsed_thread_lines();

    assert!(lines
        .iter()
        .any(|line| line.text.contains("2 replies collapsed")));
    assert!(!lines.iter().any(|line| line.text.contains("root text")));
    assert!(lines.iter().any(|line| line.text.contains("sibling")));
    assert!(!lines.iter().any(|line| line.text.contains("child")));
    assert!(lines.iter().any(|line| line.owner == Some(0)));
    assert!(lines.iter().any(|line| line.owner == Some(3)));
}

fn scroll_lines() -> Vec<CommentLine> {
    owned(&[
        ("", Some(0)),
        ("", Some(0)),
        ("", None),
        ("", Some(1)),
        ("", Some(1)),
        ("", Some(1)),
        ("", None),
        ("", Some(2)),
    ])
}

#[test]
fn main_selecting_comment_scrolls_until_whole_comment_is_visible() {
    let lines = scroll_lines();

    assert_eq!(owner_line_range(&lines, 1), Some((3, 5)));
    assert_eq!(scroll_to_show_comment(&lines, 1, 0, 4, 4), 2);
    assert_eq!(scroll_to_show_comment(&lines, 1, 4, 4, 4), 3);
    assert_eq!(scroll_to_show_comment(&lines, 0, 3, 4, 4), 0);
    assert_eq!(scroll_to_show_comment(&lines, 1, 0, 2, 6), 3);
}

#[test]
fn tests_selecting_comment_scrolls_until_whole_comment_is_visible() {
    let lines = scroll_lines();

    assert_eq!(owner_line_range(&lines, 1), Some((3, 5)));
    assert_eq!(scroll_to_show_comment(&lines, 1, 0, 4, 4), 2);
    assert_eq!(scroll_to_show_comment(&lines, 1, 4, 4, 4), 3);
    assert_eq!(scroll_to_show_comment(&lines, 0, 3, 4, 4), 0);
    assert_eq!(scroll_to_show_comment(&lines, 1, 0, 2, 6), 3);
}

#[test]
fn empty_thread_says_so() {
    let lines = comment_text_lines(&[], &HashSet::new(), None, 0);
    assert_eq!(line_texts(&lines), vec!["No comments."]);
    assert_eq!(line_owners(&lines), vec![None]);
}

#[test]
fn collapsed_leaf_and_siblings_get_notes_and_separators() {
    let comments = vec![
        test_comment("root", 0, "root text"),
        test_comment("child", 1, "child text"),
        test_comment("sibling", 0, "sibling text"),
    ];
    let collapsed = HashSet::from([0, 2]);
    let lines = comment_text_lines(&comments, &collapsed, Some(2), 80);
    assert_eq!(
        line_texts(&lines),
        vec![
            "root [+1]",
            "  … 1 replies collapsed",
            "",
            "▶ sibling [collapsed]",
            "  … comment collapsed",
        ]
    );
    assert_eq!(line_owners(&lines), vec![Some(0), Some(0), None, Some(2), Some(2)]);
}

#[test]
fn descendants_and_visible_indices_follow_depth() {
    let comments = vec![
        test_comment("a", 0, "x"),
        test_comment("b", 1, "x"),
        test_comment("c", 2, "x"),
        test_comment("d", 1, "x"),
        test_comment("e", 0, "x"),
    ];
    assert_eq!(comment_descendant_count(&comments, 0), 3);
    assert_eq!(comment_descendant_count(&comments, 1), 1);
    assert_eq!(comment_descendant_count(&comments, 4), 0);
    assert_eq!(comment_descendant_count(&comments, 9), 0);
    assert_eq!(
        visible_comment_indices(&comments, &HashSet::from([1])),
        vec![0, 1, 3, 4]
    );
    assert_eq!(
        visible_comment_indices(&comments, &HashSet::from([0, 4])),
        vec![0, 4]
    );
}

#[test]
fn wrapping_breaks_at_whitespace_or_width() {
    assert_eq!(split_at_width("one two three", 5), 3);
    assert_eq!(split_at_width("abcdefgh", 3), 3);
    assert_eq!(split_at_width("ab", 5), 2);
    let mut lines = Vec::new();
    push_wrapped_lines(&mut lines, Some(7), "> ", "abcdefgh ij\n\n  ", 5);
    assert_eq!(line_texts(&lines), vec!["> abc", "> def", "> gh", "> ij", "> ", "> "]);
    assert_eq!(split_at_char_count("│  x", 3), ("│  ", "x"));
    assert_eq!(split_at_char_count("ab", 5), ("ab", ""));
}

#[test]
fn continuation_prefix_follows_the_first_line() {
    let mut lines = Vec::new();
    push_wrapped_lines_with_continuation(&mut lines, Some(1), "bob: ", "  ", "one two three\nfour", 10);
    assert_eq!(line_texts(&lines), vec!["bob: one", "  two", "  three", "  four"]);
    assert_eq!(line_owners(&lines), vec![Some(1); 4]);

    let mut same = Vec::new();
    push_wrapped_lines_with_continuation(&mut same, Some(7), "> ", "> ", "abcdefgh ij\n\n  ", 5);
    let mut plain = Vec::new();
    push_wrapped_lines(&mut plain, Some(7), "> ", "abcdefgh ij\n\n  ", 5);
    assert_eq!(line_texts(&same), line_texts(&plain));
    assert_eq!(line_owners(&same), line_owners(&plain));

    let mut none = Vec::new();
    push_wrapped_lines_with_continuation(&mut none, None, "a", "b", "", 5);
    assert!(none.is_empty());
    let mut blank = Vec::new();
    push_wrapped_lines_with_continuation(&mut blank, None, "a: ", "b", "  \nx", 5);
    assert_eq!(line_texts(&blank), vec!["a: ", "bx"]);
}

#[test]
fn shown_comments_own_one_block_of_lines_each() {
    let comments = vec![
        test_comment("root", 0, "root text that is long enough to wrap around"),
        test_comment("child", 1, "child text"),
        test_comment("grandchild", 2, "grandchild text"),
        test_comment("sibling", 0, "sibling text"),
    ];
    let collapsed = HashSet::from([1]);
    let lines = comment_text_lines(&comments, &collapsed, Some(3), 20);
    let shown = visible_comment_indices(&comments, &collapsed);
    assert_eq!(shown, vec![0, 1, 3]);
    for owner in line_owners(&lines).into_iter().flatten() {
        assert!(shown.contains(&owner));
    }
    for &j in &shown {
        let (first, last) = owner_line_range(&lines, j).expect("a shown comment owns a line");
        for k in first..=last {
            assert_eq!(lines[k].owner, Some(j));
        }
    }
    assert_eq!(owner_line_range(&lines, 2), None);
}

#[test]
fn split_at_width_counts_bytes() {
    assert_eq!(split_at_width("ééé", 2), 4);
    assert_eq!(split_at_width("é é é", 3), 2);
    assert_eq!(split_at_width("ééé", 5), 6);
    let text = "añb cd";
    let at = split_at_width(text, 4);
    assert_eq!(text.split_at(at), ("añb", " cd"));
}

#[test]
fn wrapping_keeps_the_words_and_fits_the_width() {
    let mut lines = Vec::new();
    let text = "a longish sentence\nwith  several   words";
    push_wrapped_lines(&mut lines, None, "> ", text, 9);
    let body: String = lines.iter().map(|l| l.text.strip_prefix("> ").unwrap()).collect();
    let strip = |s: &str| s.chars().filter(|c| !c.is_whitespace()).collect::<String>();
    assert_eq!(strip(&body), strip(text));
    assert!(lines.iter().all(|l| l.text.chars().count() <= 9));
    let comments = vec![
        test_comment("root", 0, "some words that wrap"),
        test_comment("child", 1, "more words here too"),
        test_comment("other", 0, "x"),
    ];
    let thread = comment_text_lines(&comments, &HashSet::from([1]), Some(1), 8);
    assert!(thread.iter().all(|l| l.text.chars().count() <= 8));
    let order: Vec<usize> = line_owners(&thread).into_iter().flatten().collect();
    let mut sorted = order.clone();
    sorted.sort();
    assert_eq!(order, sorted);
}

#[test]
fn only_replies_of_collapsed_comments_are_hidden() {
    let comments = vec![
        test_comment("a", 0, "x"),
        test_comment("b", 1, "x"),
        test_comment("c", 2, "x"),
        test_comment("d", 1, "x"),
        test_comment("e", 0, "x"),
    ];
    assert_eq!(visible_comment_indices(&comments, &HashSet::from([1])), vec![0, 1, 3, 4]);
    assert_eq!(visible_comment_indices(&comments, &HashSet::from([2, 0])), vec![0, 4]);
    assert_eq!(visible_comment_indices(&comments, &HashSet::new()), vec![0, 1, 2, 3, 4]);
}

#[test]
fn separators_sit_between_comments() {
    let comments = vec![
        test_comment("a", 0, "x"),
        test_comment("b", 1, "y"),
        test_comment("c", 0, "z"),
    ];
    let lines = comment_text_lines(&comments, &HashSet::new(), None, 40);
    let owners = line_owners(&lines);
    assert!(owners[0].is_some() && owners[owners.len() - 1].is_some());
    assert!(owners.contains(&None));
}
