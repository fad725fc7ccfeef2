use thwack::hn::{find_attr_value, parse_hn_comments_html};
use thwack::text::{
    clean_comment_text, collapse_spaces, collapse_whitespace, extract_first_url, html_to_line,
    html_to_text, push_html_entity, starts_html_break_tag,
};

#[test]
fn main_extract_first_url_trims_common_trailing_punctuation() {
    assert_eq!(
        extract_first_url("see (https://example.com/a)."),
        Some("https://example.com/a".to_string())
    );
    assert_eq!(extract_first_url("none"), None);
}

#[test]
fn tests_extract_first_url_trims_common_trailing_punctuation() {
    assert_eq!(
        extract_first_url("see (https://example.com/a)."),
        Some("https://example.com/a".to_string())
    );
    assert_eq!(extract_first_url("none"), None);
}

// The flat reading of HTML: every tag turns into a space and all whitespace
// folds to single spaces, so the text lands on one line.
#[test]
fn html_to_text_strips_basic_tags_and_entities() {
    assert_eq!(html_to_line("AT&T <p>one&nbsp;&amp;&#x27;</p>"), "AT&T one &'");
}

#[test]
fn html_to_text_preserves_basic_breaks_and_entities() {
    assert_eq!(
        html_to_text("AT&T <p>one&nbsp;&amp;&#x27;</p><p>two</p>"),
        "AT&T\n\none &'\n\ntwo"
    );
}

#[test]
fn parse_hn_comments_html_reads_depth_author_text_and_url() {
    let html = r#"
      <table class="comment-tree">
        <tr class="athing comtr" id="1"><td><table><tr>
          <td class="ind" indent="0"><img width="0"></td>
          <td class="default"><span class="comhead"><a class="hnuser">alice</a></span>
          <div class="comment"><div class="commtext c00">hello <a href="https://example.com/full/path?x=1&amp;y=2" rel="nofollow">https://example.com/full/...</a><p>second paragraph</div></div></td>
        </tr></table></td></tr>
        <tr class='athing comtr' id="2"><td><table><tr>
          <td class="ind" indent='2'><img width="80"></td>
          <td class="default"><span class="comhead"><a class='hnuser'>bob</a></span>
          <div class="comment"><div class='commtext c00'>reply &amp; more</div></div></td>
        </tr></table></td></tr>
      </table>
    "#;

    let comments = parse_hn_comments_html(html);

    assert_eq!(comments.len(), 2);
    assert_eq!(comments[0].author, "alice");
    assert_eq!(comments[0].depth, 0);
    assert!(comments[0].text.contains("hello"));
    assert_eq!(
        comments[0].url.as_deref(),
        Some("https://example.com/full/path?x=1&y=2")
    );
    assert!(!comments[0].text.contains("..."));
    assert!(
        comments[0]
            .text
            .contains("hello https://example.com/full/path?x=1&y=2\n\nsecond paragraph")
    );
    assert_eq!(comments[1].author, "bob");
    assert_eq!(comments[1].depth, 2);
    assert!(comments[1].text.contains("reply & more"));
}

#[test]
fn parse_hn_comments_html_returns_empty_for_no_comments() {
    assert!(parse_hn_comments_html("<html></html>").is_empty());
}

#[test]
fn numeric_entities_decode_hex_and_decimal() {
    assert_eq!(html_to_text("&#x41;&#X42;&#67;&#x1F600;"), "ABC\u{1F600}");
    assert_eq!(html_to_text("&#xD800;"), "&#xD800;");
    assert_eq!(html_to_text("&#+65;"), "A");
    assert_eq!(html_to_text("&bogus; &amp"), "&bogus; &amp");
}

#[test]
fn push_html_entity_writes_unknown_entities_back() {
    let mut out = String::from("x");
    push_html_entity(&mut out, "lt");
    push_html_entity(&mut out, "zz");
    assert_eq!(out, "x<&zz;");
}

#[test]
fn break_tags_need_a_name_boundary() {
    assert!(starts_html_break_tag("<p>"));
    assert!(starts_html_break_tag("</div>"));
    assert!(starts_html_break_tag("<br/>"));
    assert!(starts_html_break_tag("<li class=x>"));
    assert!(!starts_html_break_tag("<pa>"));
    assert!(!starts_html_break_tag("<a>"));
    assert!(!starts_html_break_tag("p>"));
}

#[test]
fn collapsing_keeps_at_most_one_blank_line() {
    assert_eq!(collapse_spaces("  a \t b\n\n\n\nc  \n"), "a b\n\nc");
    assert_eq!(collapse_spaces("\n\n x"), "x");
    assert_eq!(collapse_whitespace("  a \n\n b  "), "a b");
}

#[test]
fn clean_comment_text_drops_fences_and_trailing_blank_lines() {
    assert_eq!(
        clean_comment_text("before\n```rust\nlet x = `value`;\n```\nafter\n  \n\n"),
        "before\nlet x = value;\nafter"
    );
    assert_eq!(clean_comment_text("a\r\nb"), "a\nb");
}

#[test]
fn folding_twice_changes_nothing() {
    for s in ["  a \t b\n\n\n\nc  \n", "x\u{a0}\u{2003}y\r\nz", "", "\n \n", "a \n b"] {
        let once = collapse_spaces(s);
        assert_eq!(collapse_spaces(&once), once);
        let flat = collapse_whitespace(s);
        assert_eq!(collapse_whitespace(&flat), flat);
        assert!(!flat.contains('\n'));
        assert!(!flat.contains("  "));
        assert!(!once.contains("\n\n\n"));
        assert!(!once.contains(" \n") && !once.contains("\n "));
    }
    assert_eq!(collapse_spaces("x\u{a0}\u{2003}y\r\nz"), "x y\nz");
}

#[test]
fn html_text_is_folded() {
    let t = html_to_text("<p>  a  </p><div>b <br> c</div>");
    assert_eq!(t, "a\n\nb\n\nc");
    assert_eq!(collapse_spaces(&t), t);
    assert_eq!(html_to_line("<p>a</p>\n<p>b&amp;c</p>"), "a b&c");
}

#[test]
fn cleaned_text_has_no_backticks_and_first_url_has_no_spaces() {
    let cleaned = clean_comment_text("`a`\n```\nb``c\n\n");
    assert_eq!(cleaned, "a\nbc");
    assert!(!cleaned.contains('`'));
    assert_eq!(
        extract_first_url("[see] <http://a.b/c>, and https://d.e"),
        Some("http://a.b/c".to_string())
    );
    assert_eq!(extract_first_url("ftp://x www.y"), None);
}

fn no_ws(s: &str) -> String {
    s.chars().filter(|c| !c.is_whitespace()).collect()
}

#[test]
fn folding_keeps_every_word_character() {
    for s in ["  a \t b\n\n\n\nc  \n", "x\u{a0}y", "é  ü\r\nß"] {
        assert_eq!(no_ws(&collapse_spaces(s)), no_ws(s));
        assert_eq!(no_ws(&collapse_whitespace(s)), no_ws(s));
    }
}

#[test]
fn cleaning_twice_changes_nothing() {
    for s in ["before\n```rust\nlet x = `value`;\n```\nafter\n  \n\n", "a\n\n\nb", "", "```", "  x  \n"] {
        let once = clean_comment_text(s);
        assert_eq!(clean_comment_text(&once), once);
    }
}

#[test]
fn first_url_never_ends_in_punctuation() {
    assert_eq!(extract_first_url("(https://a.b/c)).;"), Some("https://a.b/c".to_string()));
}

#[test]
fn attribute_values_need_quotes() {
    assert_eq!(find_attr_value("<a href='x' title='y'>", "title"), Some("y"));
    assert_eq!(find_attr_value("<td indent=2>", "indent"), None);
    assert_eq!(find_attr_value("<a href=\"u\">", "href"), Some("u"));
    assert_eq!(find_attr_value("<a href='u>", "href"), None);
}

#[test]
fn cleaned_text_ends_with_a_non_blank_line() {
    for s in ["a\n  \n\t\n", "x\r\n\r\n", "```\n```\n", "ok"] {
        let r = clean_comment_text(s);
        assert!(r.is_empty() || !r.lines().last().unwrap().trim().is_empty());
    }
}
