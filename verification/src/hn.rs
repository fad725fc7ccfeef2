//! Comments read from the HTML of a Hacker News discussion page.
use vstd::prelude::*;
use vstd::string::StrSliceExecFns;
use crate::chars::{
    chars_of, find, matches_at, find_exec, lemma_find, lemma_rfind, opt_int, parse_unsigned,
    parse_unsigned_exec, push_all, rfind, rfind_exec, slice_vec, string_of,
};
use crate::model::{Comment, CommentView};
use crate::text::{
    cleaned, clean_comment_chars, first_url, first_url_chars, html_text, html_text_chars,
    is_web_link, is_web_link_exec, opt_chars,
};

verus! {

// ---------------------------------------------------------------------------
// Attributes
// ---------------------------------------------------------------------------

/// The quoted value of the first `attr=` in `html`: after the first
/// occurrence of `attr` must come `=` and a single or double quote; the value
/// runs to the next such quote.
pub open spec fn attr_value(html: Seq<char>, attr: Seq<char>) -> Option<Seq<char>> {
    match find(html, attr) {
        None => None,
        Some(p) => {
            let v0 = html.subrange(p + attr.len(), html.len() as int);
            if v0.len() == 0 || v0[0] != '=' {
                None
            } else {
                let v = v0.drop_first();
                if v.len() == 0 || (v[0] != '"' && v[0] != '\'') {
                    None
                } else {
                    let w = v.drop_first();
                    match find(w, seq![v[0]]) {
                        Some(e) => Some(w.subrange(0, e)),
                        None => None,
                    }
                }
            }
        },
    }
}

/// The value of attribute `attr` read as a decimal `usize`.
pub open spec fn usize_attr(html: Seq<char>, attr: Seq<char>) -> Option<nat> {
    match attr_value(html, attr) {
        Some(v) => parse_unsigned(v, 10, usize::MAX as nat),
        None => None,
    }
}

/// Start and end of the value of the first `attr=` in `html`.
pub fn attr_value_range(html: &[char], attr: &[char]) -> (r: Option<(usize, usize)>)
    ensures
        match r {
            Some((a, b)) => a <= b <= html.len() && attr_value(html@, attr@) == Some(
                html@.subrange(a as int, b as int),
            ),
            None => attr_value(html@, attr@) is None,
        },
{
    proof {
        lemma_find(html@, attr@);
    }
    let p = match find_exec(html, attr) {
        Some(p) => p,
        None => return None,
    };
    assert(find(html@, attr@) == Some(p as int));
    assert(matches_at(html@, attr@, p as int));
    let hl = html.len();
    let s = p + attr.len();
    let ghost v0 = html@.subrange(s as int, html@.len() as int);
    if s >= html.len() || html[s] != '=' {
        return None;
    }
    let q = s + 1;
    let ghost v = v0.drop_first();
    assert(v =~= html@.subrange(q as int, html@.len() as int));
    if q >= html.len() || (html[q] != '"' && html[q] != '\'') {
        return None;
    }
    let quote = html[q];
    let w = slice_vec(html, q + 1, html.len());
    assert(w@ =~= v.drop_first());
    let pat = vec![quote];
    assert(pat@ =~= seq![v[0]]);
    proof {
        lemma_find(w@, pat@);
    }
    match find_exec(&w, &pat) {
        Some(e) => {
            assert(w@.subrange(0, e as int) =~= html@.subrange(q + 1, q + 1 + e));
            Some((q + 1, q + 1 + e))
        },
        None => None,
    }
}

/// The quoted value of the first `attr=` in `html`, if it has one.
pub fn find_attr_value<'a>(html: &'a str, attr: &str) -> (r: Option<&'a str>)
    ensures
        match r {
            Some(v) => attr_value(html@, attr@) == Some(v@),
            None => attr_value(html@, attr@) is None,
        },
{
    let h = chars_of(html);
    let a = chars_of(attr);
    match attr_value_range(&h, &a) {
        Some((x, y)) => Some(html.substring_char(x, y)),
        None => None,
    }
}

/// The value of attribute `attr` read as a decimal `usize`.
pub fn usize_attr_chars(html: &[char], attr: &[char]) -> (r: Option<usize>)
    ensures
        match r {
            Some(v) => usize_attr(html@, attr@) == Some(v as nat),
            None => usize_attr(html@, attr@) is None,
        },
{
    match attr_value_range(html, attr) {
        Some((a, b)) => {
            let v = slice_vec(html, a, b);
            match parse_unsigned_exec(&v, 10, usize::MAX as u64) {
                Some(n) => Some(n as usize),
                None => None,
            }
        },
        None => None,
    }
}

/// The value of attribute `attr` read as a decimal `usize`, if it has one.
pub fn parse_usize_attr(html: &str, attr: &str) -> (r: Option<usize>)
    ensures
        match r {
            Some(v) => usize_attr(html@, attr@) == Some(v as nat),
            None => usize_attr(html@, attr@) is None,
        },
{
    let h = chars_of(html);
    let a = chars_of(attr);
    usize_attr_chars(&h, &a)
}


// ---------------------------------------------------------------------------
// Pieces of a comment row
// ---------------------------------------------------------------------------

/// The first position of `a` in `s`, else the first position of `b`.
pub open spec fn find_either(s: Seq<char>, a: Seq<char>, b: Seq<char>) -> Option<int> {
    match find(s, a) {
        Some(p) => Some(p),
        None => find(s, b),
    }
}

fn find_either_exec(s: &[char], a: &[char], b: &[char]) -> (r: Option<usize>)
    ensures
        opt_int(r) == find_either(s@, a@, b@),
        match r {
            Some(p) => p < s.len() || (p == s.len() && (a@.len() == 0 || b@.len() == 0)),
            None => true,
        },
{
    proof {
        lemma_find(s@, a@);
        lemma_find(s@, b@);
    }
    match find_exec(s, a) {
        Some(p) => Some(p),
        None => find_exec(s, b),
    }
}

/// The user name in a comment row: the text of the link whose class is
/// `hnuser`, decoded from HTML; `None` when it is missing or empty.
pub open spec fn hn_user(chunk: Seq<char>) -> Option<Seq<char>> {
    match find_either(chunk, "class=\"hnuser\""@, "class='hnuser'"@) {
        None => None,
        Some(cp) => {
            let a = match rfind(chunk.subrange(0, cp), "<a"@) {
                Some(a) => a,
                None => cp,
            };
            let t = chunk.subrange(a, chunk.len() as int);
            match find(t, ">"@) {
                None => None,
                Some(g) => {
                    let t2 = t.subrange(g + 1, t.len() as int);
                    match find(t2, "</a>"@) {
                        None => None,
                        Some(e) => {
                            let author = html_text(t2.subrange(0, e));
                            if author.len() > 0 {
                                Some(author)
                            } else {
                                None
                            }
                        },
                    }
                },
            }
        },
    }
}

/// The HTML of the comment body in a comment row: the contents of the first
/// `div` whose class starts with `commtext`, up to the next `</div>`.
pub open spec fn commtext(chunk: Seq<char>) -> Option<Seq<char>> {
    match find_either(chunk, "<div class=\"commtext"@, "<div class='commtext"@) {
        None => None,
        Some(st) => {
            let h = chunk.subrange(st, chunk.len() as int);
            match find(h, ">"@) {
                None => None,
                Some(g) => {
                    let h2 = h.subrange(g + 1, h.len() as int);
                    match find(h2, "</div>"@) {
                        Some(e) => Some(h2.subrange(0, e)),
                        None => None,
                    }
                },
            }
        },
    }
}

/// The user name in a comment row.
pub fn hn_user_chars(chunk: &[char]) -> (r: Option<Vec<char>>)
    ensures
        opt_chars(r) == hn_user(chunk@),
{
    let dq = chars_of("class=\"hnuser\"");
    let sq = chars_of("class='hnuser'");
    let cp = match find_either_exec(chunk, &dq, &sq) {
        Some(cp) => cp,
        None => return None,
    };
    proof {
        lemma_find(chunk@, dq@);
        lemma_find(chunk@, sq@);
    }
    let ghost fe = find_either(chunk@, dq@, sq@);
    assert(fe == Some(cp as int));
    let before = slice_vec(chunk, 0, cp);
    let open_a = chars_of("<a");
    proof {
        lemma_rfind(before@, open_a@);
    }
    let a = match rfind_exec(&before, &open_a) {
        Some(a) => a,
        None => cp,
    };
    let t = slice_vec(chunk, a, chunk.len());
    let gt = chars_of(">");
    proof {
        lemma_find(t@, gt@);
    }
    let g = match find_exec(&t, &gt) {
        Some(g) => g,
        None => return None,
    };
    assert(find(t@, gt@) == Some(g as int));
    assert(matches_at(t@, gt@, g as int));
    let tl = t.len();
    let t2 = slice_vec(&t, g + gt.len(), t.len());
    proof {
        reveal_strlit(">");
    }
    let close = chars_of("</a>");
    proof {
        lemma_find(t2@, close@);
    }
    let e = match find_exec(&t2, &close) {
        Some(e) => e,
        None => return None,
    };
    assert(find(t2@, close@) == Some(e as int));
    assert(matches_at(t2@, close@, e as int));
    let name = slice_vec(&t2, 0, e);
    let author = html_text_chars(&name);
    if author.len() > 0 {
        Some(author)
    } else {
        None
    }
}

/// The user name in a comment row, if there is a non-empty one.
pub fn find_hn_user(chunk: &str) -> (r: Option<String>)
    ensures
        match r {
            Some(a) => hn_user(chunk@) == Some(a@),
            None => hn_user(chunk@) is None,
        },
{
    let cs = chars_of(chunk);
    match hn_user_chars(&cs) {
        Some(a) => Some(string_of(&a)),
        None => None,
    }
}

/// Start and end of the comment body HTML in a comment row.
pub fn commtext_range(chunk: &[char]) -> (r: Option<(usize, usize)>)
    ensures
        match r {
            Some((a, b)) => a <= b <= chunk.len() && commtext(chunk@) == Some(
                chunk@.subrange(a as int, b as int),
            ),
            None => commtext(chunk@) is None,
        },
{
    let dq = chars_of("<div class=\"commtext");
    let sq = chars_of("<div class='commtext");
    proof {
        lemma_find(chunk@, dq@);
        lemma_find(chunk@, sq@);
    }
    let st = match find_either_exec(chunk, &dq, &sq) {
        Some(st) => st,
        None => return None,
    };
    let cl = chunk.len();
    let h = slice_vec(chunk, st, chunk.len());
    let gt = chars_of(">");
    proof {
        lemma_find(h@, gt@);
        reveal_strlit(">");
    }
    let g = match find_exec(&h, &gt) {
        Some(g) => g,
        None => return None,
    };
    assert(find(h@, gt@) == Some(g as int));
    assert(matches_at(h@, gt@, g as int));
    let h2 = slice_vec(&h, g + 1, h.len());
    let close = chars_of("</div>");
    proof {
        lemma_find(h2@, close@);
    }
    let e = match find_exec(&h2, &close) {
        Some(e) => e,
        None => return None,
    };
    assert(find(h2@, close@) == Some(e as int));
    assert(matches_at(h2@, close@, e as int));
    let a = st + g + 1;
    assert(h2@.subrange(0, e as int) =~= chunk@.subrange(a as int, a + e));
    Some((a, a + e))
}

/// The HTML of the comment body in a comment row.
pub fn find_hn_commtext_html(chunk: &str) -> (r: Option<&str>)
    ensures
        match r {
            Some(h) => commtext(chunk@) == Some(h@),
            None => commtext(chunk@) is None,
        },
{
    let cs = chars_of(chunk);
    match commtext_range(&cs) {
        Some((a, b)) => Some(chunk.substring_char(a, b)),
        None => None,
    }
}


// ---------------------------------------------------------------------------
// Links in comment bodies
// ---------------------------------------------------------------------------

/// What a link element `tag` `inner` `</a>` becomes: its target, when that is
/// a web link once decoded, else the element unchanged.
pub open spec fn expanded_anchor(tag: Seq<char>, inner: Seq<char>) -> Seq<char> {
    match attr_value(tag, "href"@) {
        Some(h) => if is_web_link(html_text(h)) {
            h
        } else {
            tag + inner + "</a>"@
        },
        None => tag + inner + "</a>"@,
    }
}

/// The first complete link element of `html`, as four positions: where
/// `<a` starts, where the opening tag ends (just after its `>`), where
/// `</a>` starts and where it ends.
pub open spec fn first_anchor(html: Seq<char>) -> Option<(int, int, int, int)> {
    match find(html, "<a"@) {
        None => None,
        Some(st) => {
            let anchor = html.subrange(st, html.len() as int);
            match find(anchor, ">"@) {
                None => None,
                Some(te) => {
                    let tag_end = st + te + ">"@.len();
                    let after = html.subrange(tag_end, html.len() as int);
                    match find(after, "</a>"@) {
                        None => None,
                        Some(cl) => Some((st, tag_end, tag_end + cl, tag_end + cl + "</a>"@.len())),
                    }
                },
            }
        },
    }
}

pub proof fn lemma_first_anchor(html: Seq<char>)
    ensures
        match first_anchor(html) {
            Some((a, b, c, d)) => 0 <= a < b <= c < d <= html.len(),
            None => true,
        },
{
    reveal_strlit("<a");
    reveal_strlit(">");
    reveal_strlit("</a>");
    lemma_find(html, "<a"@);
    match find(html, "<a"@) {
        None => {},
        Some(st) => {
            let anchor = html.subrange(st, html.len() as int);
            lemma_find(anchor, ">"@);
            match find(anchor, ">"@) {
                None => {},
                Some(te) => {
                    let tag_end = st + te + ">"@.len();
                    let after = html.subrange(tag_end, html.len() as int);
                    lemma_find(after, "</a>"@);
                },
            }
        },
    }
}

/// `html` with every complete link element whose target is a web link
/// replaced by the target itself, so that shortened link texts give way to
/// the full address. Scanning stops at the first incomplete link element.
pub open spec fn expanded_links(html: Seq<char>) -> Seq<char>
    decreases html.len(),
{
    match first_anchor(html) {
        None => html,
        Some((a, b, c, d)) => {
            proof {
                lemma_first_anchor(html);
            }
            html.subrange(0, a) + expanded_anchor(html.subrange(a, b), html.subrange(b, c))
                + expanded_links(html.subrange(d, html.len() as int))
        },
    }
}

/// The first complete link element of `html`.
fn first_anchor_exec(html: &[char]) -> (r: Option<(usize, usize, usize, usize)>)
    ensures
        match r {
            Some((a, b, c, d)) => first_anchor(html@) == Some(
                (a as int, b as int, c as int, d as int),
            ),
            None => first_anchor(html@) is None,
        },
{
    let open_a = chars_of("<a");
    let gt = chars_of(">");
    let close = chars_of("</a>");
    let hl = html.len();
    proof {
        lemma_find(html@, open_a@);
    }
    let st = match find_exec(html, &open_a) {
        Some(st) => st,
        None => return None,
    };
    assert(matches_at(html@, open_a@, st as int));
    let anchor = slice_vec(html, st, html.len());
    proof {
        lemma_find(anchor@, gt@);
    }
    let te = match find_exec(&anchor, &gt) {
        Some(te) => te,
        None => return None,
    };
    assert(matches_at(anchor@, gt@, te as int));
    let tag_end = st + te + gt.len();
    let after = slice_vec(html, tag_end, html.len());
    proof {
        lemma_find(after@, close@);
    }
    let cl = match find_exec(&after, &close) {
        Some(cl) => cl,
        None => return None,
    };
    assert(matches_at(after@, close@, cl as int));
    Some((st, tag_end, tag_end + cl, tag_end + cl + close.len()))
}

fn expanded_anchor_exec(tag: &[char], inner: &[char], out: &mut Vec<char>)
    ensures
        final(out)@ == old(out)@ + expanded_anchor(tag@, inner@),
{
    let href = chars_of("href");
    match attr_value_range(tag, &href) {
        Some((a, b)) => {
            let h = slice_vec(tag, a, b);
            let decoded = html_text_chars(&h);
            if is_web_link_exec(&decoded) {
                push_all(out, &h);
                return ;
            }
        },
        None => {},
    }
    let close = chars_of("</a>");
    push_all(out, tag);
    push_all(out, inner);
    push_all(out, &close);
    assert(old(out)@ + tag@ + inner@ + close@ =~= old(out)@ + (tag@ + inner@ + close@));
}

/// Comment body HTML with link elements replaced by their targets.
pub fn expand_links_chars(html: &[char]) -> (r: Vec<char>)
    ensures
        r@ == expanded_links(html@),
{
    let mut out: Vec<char> = Vec::new();
    let mut rest = slice_vec(html, 0, html.len());
    assert(rest@ =~= html@);
    loop
        invariant
            out@ + expanded_links(rest@) == expanded_links(html@),
        ensures
            out@ + rest@ == expanded_links(html@),
        decreases rest.len(),
    {
        let (a, b, c, d) = match first_anchor_exec(&rest) {
            Some(p) => p,
            None => {
                assert(expanded_links(rest@) == rest@);
                break;
            },
        };
        proof {
            lemma_first_anchor(rest@);
        }
        let ghost old_out = out@;
        let ghost old_rest = rest@;
        let prefix = slice_vec(&rest, 0, a);
        push_all(&mut out, &prefix);
        let tag = slice_vec(&rest, a, b);
        let inner = slice_vec(&rest, b, c);
        expanded_anchor_exec(&tag, &inner, &mut out);
        let next = slice_vec(&rest, d, rest.len());
        rest = next;
        assert(out@ + expanded_links(rest@) =~= old_out + expanded_links(old_rest));
    }
    push_all(&mut out, &rest);
    out
}

/// Comment body HTML with each link element whose target is a web link
/// replaced by that target.
pub fn expand_hn_comment_links(html: &str) -> (r: String)
    ensures
        r@ == expanded_links(html@),
{
    let cs = chars_of(html);
    let out = expand_links_chars(&cs);
    string_of(&out)
}


// ---------------------------------------------------------------------------
// Comment rows
// ---------------------------------------------------------------------------

/// Where the next comment row starts: the `<tr` before the first
/// `class="athing comtr"` (or, when there is none, `class='athing comtr'`),
/// or that class attribute itself when no `<tr` precedes it.
pub open spec fn comment_start(html: Seq<char>) -> Option<int> {
    match find_either(html, "class=\"athing comtr\""@, "class='athing comtr'"@) {
        None => None,
        Some(p) => match rfind(html.subrange(0, p), "<tr"@) {
            Some(q) => Some(q),
            None => Some(p),
        },
    }
}

pub proof fn lemma_comment_start(html: Seq<char>)
    ensures
        match comment_start(html) {
            Some(s) => 0 <= s < html.len(),
            None => true,
        },
{
    reveal_strlit("class=\"athing comtr\"");
    reveal_strlit("class='athing comtr'");
    lemma_find(html, "class=\"athing comtr\""@);
    lemma_find(html, "class='athing comtr'"@);
    match find_either(html, "class=\"athing comtr\""@, "class='athing comtr'"@) {
        None => {},
        Some(p) => {
            lemma_rfind(html.subrange(0, p), "<tr"@);
        },
    }
}

/// Start and end of the first comment row of `html`: a row runs from its
/// start to the start of the next row, or to the end of `html`.
pub open spec fn row_bounds(html: Seq<char>) -> Option<(int, int)> {
    match comment_start(html) {
        None => None,
        Some(st) => {
            let r = html.subrange(st, html.len() as int);
            let next = match comment_start(r.drop_first()) {
                Some(o) => o + 1,
                None => r.len() as int,
            };
            Some((st, st + next))
        },
    }
}

pub proof fn lemma_row_bounds(html: Seq<char>)
    ensures
        match row_bounds(html) {
            Some((a, b)) => 0 <= a < b <= html.len(),
            None => true,
        },
{
    lemma_comment_start(html);
    match comment_start(html) {
        None => {},
        Some(st) => {
            let r = html.subrange(st, html.len() as int);
            lemma_comment_start(r.drop_first());
        },
    }
}

/// The comment a row holds: its body as cleaned text (with link elements
/// replaced by their targets), the row's `indent` as depth (0 when missing),
/// the user name (`unknown` when missing) and the first link of the text.
/// A row without a body, or with an empty one, holds no comment.
pub open spec fn row_comment(chunk: Seq<char>) -> Option<CommentView> {
    match commtext(chunk) {
        None => None,
        Some(h) => {
            let text = cleaned(html_text(expanded_links(h)));
            if text.len() == 0 {
                None
            } else {
                Some(
                    CommentView {
                        author: match hn_user(chunk) {
                            Some(a) => a,
                            None => "unknown"@,
                        },
                        depth: match usize_attr(chunk, "indent"@) {
                            Some(d) => d as usize,
                            None => 0,
                        },
                        text,
                        url: first_url(text),
                    },
                )
            }
        },
    }
}

/// The comments of a discussion page, in page order.
pub open spec fn page_comments(html: Seq<char>) -> Seq<CommentView>
    decreases html.len(),
{
    match row_bounds(html) {
        None => seq![],
        Some((a, b)) => {
            proof {
                lemma_row_bounds(html);
            }
            let rest = page_comments(html.subrange(b, html.len() as int));
            match row_comment(html.subrange(a, b)) {
                Some(c) => seq![c] + rest,
                None => rest,
            }
        },
    }
}

fn comment_start_exec(html: &[char]) -> (r: Option<usize>)
    ensures
        opt_int(r) == comment_start(html@),
{
    let dq = chars_of("class=\"athing comtr\"");
    let sq = chars_of("class='athing comtr'");
    proof {
        lemma_find(html@, dq@);
        lemma_find(html@, sq@);
        reveal_strlit("class=\"athing comtr\"");
        reveal_strlit("class='athing comtr'");
    }
    let p = match find_either_exec(html, &dq, &sq) {
        Some(p) => p,
        None => return None,
    };
    let before = slice_vec(html, 0, p);
    let tr = chars_of("<tr");
    match rfind_exec(&before, &tr) {
        Some(q) => Some(q),
        None => Some(p),
    }
}

/// The position of the next comment row in `html`.
pub fn find_hn_comment_start(html: &str) -> (r: Option<usize>)
    ensures
        opt_int(r) == comment_start(html@),
{
    let cs = chars_of(html);
    comment_start_exec(&cs)
}

fn row_bounds_exec(html: &[char]) -> (r: Option<(usize, usize)>)
    ensures
        match r {
            Some((a, b)) => row_bounds(html@) == Some((a as int, b as int)),
            None => row_bounds(html@) is None,
        },
{
    proof {
        lemma_comment_start(html@);
    }
    let st = match comment_start_exec(html) {
        Some(st) => st,
        None => return None,
    };
    let hl = html.len();
    let r1 = slice_vec(html, st + 1, html.len());
    assert(r1@ =~= html@.subrange(st as int, html@.len() as int).drop_first());
    proof {
        lemma_comment_start(r1@);
    }
    let next = match comment_start_exec(&r1) {
        Some(o) => o + 1,
        None => html.len() - st,
    };
    Some((st, st + next))
}

fn row_comment_exec(chunk: &[char]) -> (r: Option<Comment>)
    ensures
        match r {
            Some(c) => row_comment(chunk@) == Some(c@),
            None => row_comment(chunk@) is None,
        },
{
    let indent = chars_of("indent");
    let depth = match usize_attr_chars(chunk, &indent) {
        Some(d) => d,
        None => 0,
    };
    let author = match hn_user_chars(chunk) {
        Some(a) => string_of(&a),
        None => string_of(&chars_of("unknown")),
    };
    let (a, b) = match commtext_range(chunk) {
        Some(p) => p,
        None => return None,
    };
    let body = slice_vec(chunk, a, b);
    let expanded = expand_links_chars(&body);
    let plain = html_text_chars(&expanded);
    let text = clean_comment_chars(&plain);
    if text.len() == 0 {
        return None;
    }
    let url = match first_url_chars(&text) {
        Some(u) => Some(string_of(&u)),
        None => None,
    };
    let c = Comment { author, depth, text: string_of(&text), url };
    assert(c@ == row_comment(chunk@)->0);
    Some(c)
}

/// The comment a comment row holds, if its body has any text.
pub fn parse_hn_comment_chunk(chunk: &str) -> (r: Option<Comment>)
    ensures
        match r {
            Some(c) => row_comment(chunk@) == Some(c@),
            None => row_comment(chunk@) is None,
        },
{
    let cs = chars_of(chunk);
    row_comment_exec(&cs)
}

/// The comments of a Hacker News discussion page, in page order.
pub fn parse_hn_comments_html(html: &str) -> (r: Vec<Comment>)
    ensures
        r.deep_view() == page_comments(html@),
{
    let cs = chars_of(html);
    let mut out: Vec<Comment> = Vec::new();
    let mut rest = cs;
    loop
        invariant
            out.deep_view() + page_comments(rest@) == page_comments(html@),
        ensures
            out.deep_view() == page_comments(html@),
        decreases rest.len(),
    {
        let (a, b) = match row_bounds_exec(&rest) {
            Some(p) => p,
            None => {
                assert(out.deep_view() + page_comments(rest@) =~= out.deep_view());
                break;
            },
        };
        proof {
            lemma_row_bounds(rest@);
        }
        let ghost before = out.deep_view();
        let ghost old_rest = rest@;
        let chunk = slice_vec(&rest, a, b);
        match row_comment_exec(&chunk) {
            Some(c) => {
                out.push(c);
                assert(out.deep_view() =~= before.push(c@));
            },
            None => {},
        }
        rest = slice_vec(&rest, b, rest.len());
        assert(out.deep_view() + page_comments(rest@) =~= before + page_comments(old_rest));
    }
    out
}

} // verus!
