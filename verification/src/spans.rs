//! How the lines of a thread are coloured: links, rails, author names.
use vstd::prelude::*;
use vstd::string::StringSliceAdditionalSpecFns;
use crate::chars::{
    chars_of, find, find_exec, has_prefix, lemma_find, lemma_word_end, matches_at, opt_int,
    push_all, slice_vec, starts_with, string_of, word_end,
};
use crate::layout::CommentLine;
use crate::model::Comment;
use crate::text::{http_scheme, https_scheme, is_closing_mark, trim_closing};

verus! {

/// What a piece of a line shows, which decides its colour.
#[derive(Clone, Copy, Debug, PartialEq, Eq, Structural)]
pub enum Role {
    /// Ordinary text.
    Text,
    /// A web link.
    Link,
    /// Tree rails and lines between comments.
    Rail,
    /// An author name, in the colour of this palette slot.
    Author(usize),
    /// The selected comment: its marker and its author name.
    Selected,
    /// A post title.
    Title,
    /// Labels and separators around post details.
    Muted,
    /// A post's author.
    Byline,
    /// A post's score.
    Score,
    /// A post's comment count.
    Count,
    /// A post's id and tags.
    Tag,
}

/// A piece of a line and what it shows.
#[derive(Clone, Debug)]
pub struct Span {
    pub text: String,
    pub role: Role,
}

/// What a span says.
pub type SpanView = (Seq<char>, Role);

impl DeepView for Span {
    type V = SpanView;

    open spec fn deep_view(&self) -> SpanView {
        (self.text@, self.role)
    }
}

fn span_of(text: &[char], role: Role) -> (r: Span)
    ensures
        r.deep_view() == (text@, role),
{
    Span { text: string_of(text), role }
}

// ---------------------------------------------------------------------------
// Links in text
// ---------------------------------------------------------------------------

/// Where the first `http://` or `https://` of `s` starts.
pub open spec fn link_start(s: Seq<char>) -> Option<int> {
    match (find(s, http_scheme()), find(s, https_scheme())) {
        (Some(a), Some(b)) => Some(
            if a < b {
                a
            } else {
                b
            },
        ),
        (Some(a), None) => Some(a),
        (None, Some(b)) => Some(b),
        (None, None) => None,
    }
}

pub proof fn lemma_link_start(s: Seq<char>)
    ensures
        match link_start(s) {
            Some(k) => 0 <= k < s.len() && s[k] == 'h',
            None => true,
        },
{
    lemma_find(s, http_scheme());
    lemma_find(s, https_scheme());
    match find(s, http_scheme()) {
        Some(a) => {
            assert(s.subrange(a, a + 7)[0] == 'h');
        },
        None => {},
    }
    match find(s, https_scheme()) {
        Some(b) => {
            assert(s.subrange(b, b + 8)[0] == 'h');
        },
        None => {},
    }
}

/// The pieces of `text` with its web links picked out: a link runs from
/// `http://` or `https://` to the next whitespace, without the closing
/// punctuation at its end, which stays ordinary text.
pub open spec fn link_pieces(text: Seq<char>) -> Seq<SpanView>
    decreases text.len(),
{
    match link_start(text) {
        None => if text.len() > 0 {
            seq![(text, Role::Text)]
        } else {
            seq![]
        },
        Some(st) => {
            let tail = text.subrange(st, text.len() as int);
            let te = word_end(tail, 0);
            proof {
                lemma_link_start(text);
                lemma_word_end(tail, 0);
            }
            let token = tail.subrange(0, te);
            let url = trim_closing(token);
            let before: Seq<SpanView> = if st > 0 {
                seq![(text.subrange(0, st), Role::Text)]
            } else {
                seq![]
            };
            let link: Seq<SpanView> = if url.len() > 0 {
                seq![(url, Role::Link)]
            } else {
                seq![]
            };
            let after: Seq<SpanView> = if url.len() < token.len() {
                seq![(token.subrange(url.len() as int, token.len() as int), Role::Text)]
            } else {
                seq![]
            };
            before + link + after + link_pieces(tail.subrange(te, tail.len() as int))
        },
    }
}

pub proof fn lemma_trim_closing_prefix(t: Seq<char>)
    ensures
        trim_closing(t).len() <= t.len(),
        trim_closing(t) == t.subrange(0, trim_closing(t).len() as int),
    decreases t.len(),
{
    if t.len() > 0 && is_closing_mark(t.last()) {
        lemma_trim_closing_prefix(t.drop_last());
        assert(t.drop_last().subrange(0, trim_closing(t).len() as int) =~= t.subrange(
            0,
            trim_closing(t).len() as int,
        ));
    } else {
        assert(t.subrange(0, t.len() as int) =~= t);
    }
}

fn link_start_exec(s: &[char]) -> (r: Option<usize>)
    ensures
        opt_int(r) == link_start(s@),
{
    let http = chars_of("http://");
    let https = chars_of("https://");
    proof {
        reveal_strlit("http://");
        reveal_strlit("https://");
        assert(http@ =~= http_scheme());
        assert(https@ =~= https_scheme());
    }
    match (find_exec(s, &http), find_exec(s, &https)) {
        (Some(a), Some(b)) => Some(
            if a < b {
                a
            } else {
                b
            },
        ),
        (Some(a), None) => Some(a),
        (None, Some(b)) => Some(b),
        (None, None) => None,
    }
}

pub(crate) fn push_span(out: &mut Vec<Span>, text: &[char], role: Role)
    ensures
        final(out).deep_view() == old(out).deep_view().push((text@, role)),
{
    let ghost before = out.deep_view();
    out.push(span_of(text, role));
    assert(out.deep_view() =~= before.push((text@, role)));
}

/// Appends the pieces of `text` with its web links picked out.
pub fn push_link_pieces(out: &mut Vec<Span>, text: &[char])
    ensures
        final(out).deep_view() == old(out).deep_view() + link_pieces(text@),
{
    let mut rest = slice_vec(text, 0, text.len());
    assert(rest@ =~= text@);
    loop
        invariant_except_break
            out.deep_view() + link_pieces(rest@) == old(out).deep_view() + link_pieces(text@),
        ensures
            out.deep_view() == old(out).deep_view() + link_pieces(text@),
        decreases rest.len(),
    {
        let ghost before = out.deep_view();
        let ghost r0 = rest@;
        proof {
            lemma_link_start(rest@);
        }
        let st = match link_start_exec(&rest) {
            Some(st) => st,
            None => {
                if rest.len() > 0 {
                    push_span(out, &rest, Role::Text);
                    assert(out.deep_view() =~= before + link_pieces(r0));
                } else {
                    assert(before + link_pieces(r0) =~= before);
                }
                break;
            },
        };
        let tail = slice_vec(&rest, st, rest.len());
        proof {
            lemma_word_end(tail@, 0);
        }
        let mut te: usize = 0;
        while te < tail.len() && !crate::chars::is_whitespace(tail[te])
            invariant
                te <= tail.len(),
                word_end(tail@, 0) == word_end(tail@, te as int),
            decreases tail.len() - te,
        {
            te = te + 1;
        }
        let token = slice_vec(&tail, 0, te);
        let mut ul = token.len();
        assert(token@.subrange(0, token@.len() as int) =~= token@);
        while ul > 0 && crate::text::is_closing_mark_exec(token[ul - 1])
            invariant
                ul <= token.len(),
                trim_closing(token@) == trim_closing(token@.subrange(0, ul as int)),
            decreases ul,
        {
            assert(token@.subrange(0, ul as int).drop_last() =~= token@.subrange(0, ul - 1));
            ul = ul - 1;
        }
        proof {
            assert(token@.subrange(0, token@.len() as int) =~= token@);
            lemma_trim_closing_prefix(token@);
        }
        let url = slice_vec(&token, 0, ul);
        assert(url@ == trim_closing(token@.subrange(0, ul as int)));
        if st > 0 {
            let b = slice_vec(&rest, 0, st);
            push_span(out, &b, Role::Text);
        }
        if ul > 0 {
            push_span(out, &url, Role::Link);
        }
        if ul < token.len() {
            let a = slice_vec(&token, ul, token.len());
            push_span(out, &a, Role::Text);
        }
        let next = slice_vec(&tail, te, tail.len());
        proof {
            let before_s: Seq<SpanView> = if st > 0 {
                seq![(r0.subrange(0, st as int), Role::Text)]
            } else {
                seq![]
            };
            let link_s: Seq<SpanView> = if ul > 0 {
                seq![(url@, Role::Link)]
            } else {
                seq![]
            };
            let after_s: Seq<SpanView> = if ul < token.len() {
                seq![(token@.subrange(ul as int, token@.len() as int), Role::Text)]
            } else {
                seq![]
            };
            assert(link_pieces(r0) == before_s + link_s + after_s + link_pieces(next@));
            assert(out.deep_view() =~= before + before_s + link_s + after_s);
        }
        rest = next;
        assert(out.deep_view() + link_pieces(rest@) =~= before + link_pieces(r0));
    }
}

/// The pieces of `text`, its web links picked out.
pub fn link_spans(text: &str) -> (r: Vec<Span>)
    ensures
        r.deep_view() == link_pieces(text@),
{
    let mut out: Vec<Span> = Vec::new();
    push_link_pieces(&mut out, &chars_of(text));
    assert(Seq::<SpanView>::empty() + link_pieces(text@) =~= link_pieces(text@));
    out
}


// ---------------------------------------------------------------------------
// Author colours
// ---------------------------------------------------------------------------

/// How many colours author names are drawn in.
pub const PALETTE_SIZE: usize = 8;

/// The rolling hash of `bytes`: times 31 plus the byte, wrapping.
pub open spec fn rolling_hash(bytes: Seq<u8>) -> usize
    decreases bytes.len(),
{
    if bytes.len() == 0 {
        0
    } else {
        rolling_hash(bytes.drop_last()).wrapping_mul(31).wrapping_add(bytes.last() as usize)
    }
}

/// The palette slot of an author name: the rolling hash of its UTF-8 bytes,
/// modulo the palette size, so that a name always gets the same colour.
pub open spec fn palette_slot(author: Seq<char>) -> usize {
    (rolling_hash(vstd::utf8::encode_utf8(author)) % (PALETTE_SIZE as usize)) as usize
}

/// The palette slot of an author name.
pub fn author_color(author: &str) -> (r: usize)
    ensures
        r == palette_slot(author@),
        r < PALETTE_SIZE,
{
    let bytes = author.as_bytes();
    let mut hash: usize = 0;
    let mut i: usize = 0;
    while i < bytes.len()
        invariant
            i <= bytes.len(),
            hash == rolling_hash(bytes@.subrange(0, i as int)),
        decreases bytes.len() - i,
    {
        assert(bytes@.subrange(0, i + 1).drop_last() =~= bytes@.subrange(0, i as int));
        hash = hash.wrapping_mul(31).wrapping_add(bytes[i] as usize);
        i = i + 1;
    }
    assert(bytes@.subrange(0, bytes@.len() as int) =~= bytes@);
    hash % PALETTE_SIZE
}

// ---------------------------------------------------------------------------
// Thread lines
// ---------------------------------------------------------------------------

/// How many characters at the start of a line are rails: for an author
/// line, two for a selected top-level comment, none for another top-level
/// one, three per level for a reply; for a text line, three per level for a
/// reply and two for a top-level comment.
pub open spec fn rail_width(depth: usize, header: bool, is_selected: bool) -> int {
    if header {
        if is_selected && depth == 0 {
            2
        } else if depth == 0 {
            0
        } else {
            depth * 3
        }
    } else if depth > 0 {
        depth * 3
    } else {
        2
    }
}

/// The pieces of a thread line. A line between comments is all rail; a
/// line of an unknown comment is all text. Otherwise the rails come first;
/// on an author line follows the author name (in its palette colour, or
/// highlighted when selected) and any text after `": "`; other lines hold
/// text with its links picked out.
pub open spec fn line_spans(line: (Seq<char>, Option<usize>), cs: Seq<Comment>, selected: Option<usize>, header: bool) -> Seq<SpanView> {
    match line.1 {
        None => seq![(line.0, Role::Rail)],
        Some(index) => if index >= cs.len() {
            seq![(line.0, Role::Text)]
        } else {
            let c = cs[index as int];
            let is_sel = selected == Some(index);
            let w = rail_width(c.depth, header, is_sel);
            let k = if w < line.0.len() {
                w
            } else {
                line.0.len() as int
            };
            let prefix = line.0.subrange(0, k);
            let body = line.0.subrange(k, line.0.len() as int);
            let rail: Seq<SpanView> = if prefix.len() > 0 {
                seq![(prefix, Role::Rail)]
            } else {
                seq![]
            };
            rail + if header {
                if is_sel && c.author@.len() > 0 {
                    if has_prefix(body, c.author@) {
                        seq![(c.author@, Role::Selected)] + link_pieces(
                            body.subrange(c.author@.len() as int, body.len() as int),
                        )
                    } else {
                        link_pieces(body)
                    }
                } else {
                    match find(body, ": "@) {
                        Some(i) => seq![(body.subrange(0, i) + ": "@, Role::Author(palette_slot(c.author@)))]
                            + link_pieces(body.subrange(i + ": "@.len(), body.len() as int)),
                        None => seq![(body, Role::Author(palette_slot(c.author@)))],
                    }
                }
            } else {
                link_pieces(body)
            }
        },
    }
}

/// The pieces of one thread line; `header` says it is the first line of its comment.
pub fn comment_line(line: &CommentLine, comments: &[Comment], selected: Option<usize>, header: bool) -> (r: Vec<Span>)
    ensures
        r.deep_view() == line_spans(line.deep_view(), comments@, selected, header),
{
    let text = chars_of(line.text.as_str());
    let mut out: Vec<Span> = Vec::new();
    let index = match line.owner {
        None => {
            push_span(&mut out, &text, Role::Rail);
            assert(out.deep_view() =~= seq![(text@, Role::Rail)]);
            return out;
        },
        Some(i) => i,
    };
    if index >= comments.len() {
        push_span(&mut out, &text, Role::Text);
        assert(out.deep_view() =~= seq![(text@, Role::Text)]);
        return out;
    }
    let c = &comments[index];
    let is_sel = selected == Some(index);
    let w: usize = if header {
        if is_sel && c.depth == 0 {
            2
        } else if c.depth == 0 {
            0
        } else if c.depth <= usize::MAX / 3 {
            c.depth * 3
        } else {
            usize::MAX
        }
    } else if c.depth > 0 {
        if c.depth <= usize::MAX / 3 {
            c.depth * 3
        } else {
            usize::MAX
        }
    } else {
        2
    };
    let k = if w < text.len() {
        w
    } else {
        text.len()
    };
    assert(k as int == (if rail_width(c.depth, header, is_sel) < text@.len() {
        rail_width(c.depth, header, is_sel)
    } else {
        text@.len() as int
    }));
    let prefix = slice_vec(&text, 0, k);
    let body = slice_vec(&text, k, text.len());
    if k > 0 {
        push_span(&mut out, &prefix, Role::Rail);
    }
    let ghost rail_part = out.deep_view();
    let author = chars_of(c.author.as_str());
    if header {
        if is_sel && author.len() > 0 {
            if crate::chars::starts_with(&body, &author) {
                push_span(&mut out, &author, Role::Selected);
                let rest = slice_vec(&body, author.len(), body.len());
                push_link_pieces(&mut out, &rest);
            } else {
                push_link_pieces(&mut out, &body);
            }
        } else {
            let sep = chars_of(": ");
            proof {
                lemma_find(body@, sep@);
            }
            let slot = author_color(c.author.as_str());
            match find_exec(&body, &sep) {
                Some(i) => {
                    assert(matches_at(body@, sep@, i as int));
                    let mut a = slice_vec(&body, 0, i);
                    crate::chars::push_all(&mut a, &sep);
                    push_span(&mut out, &a, Role::Author(slot));
                    let rest = slice_vec(&body, i + sep.len(), body.len());
                    push_link_pieces(&mut out, &rest);
                },
                None => {
                    push_span(&mut out, &body, Role::Author(slot));
                },
            }
        }
    } else {
        push_link_pieces(&mut out, &body);
    }
    proof {
        if k == 0 {
            assert(prefix@ =~= Seq::<char>::empty());
        }
        assert(out.deep_view() =~= line_spans(line.deep_view(), comments@, selected, header));
    }
    out
}

/// A line is the first of its comment: it has an owner, unlike the line before.
pub open spec fn is_first_of_comment(lines: Seq<(Seq<char>, Option<usize>)>, i: int) -> bool {
    lines[i].1 is Some && (i == 0 || lines[i - 1].1 != lines[i].1)
}

/// The pieces of every line of a thread.
pub fn comment_lines_text(lines: &[CommentLine], comments: &[Comment], selected: Option<usize>) -> (r: Vec<Vec<Span>>)
    ensures
        r@.len() == lines@.len(),
        forall|i: int| 0 <= i < r@.len() ==> #[trigger] r@[i].deep_view() == line_spans(
            lines.deep_view()[i],
            comments@,
            selected,
            is_first_of_comment(lines.deep_view(), i),
        ),
{
    let ghost lv = lines.deep_view();
    let mut out: Vec<Vec<Span>> = Vec::new();
    let mut i: usize = 0;
    while i < lines.len()
        invariant
            i <= lines.len(),
            lv == lines.deep_view(),
            out@.len() == i,
            forall|j: int| 0 <= j < i ==> #[trigger] out@[j].deep_view() == line_spans(
                lv[j],
                comments@,
                selected,
                is_first_of_comment(lv, j),
            ),
        decreases lines.len() - i,
    {
        let owner = lines[i].owner;
        let header = owner.is_some() && (i == 0 || lines[i - 1].owner != owner);
        assert(lv[i as int] == lines@[i as int].deep_view());
        if i > 0 {
            assert(lv[i - 1] == lines@[i - 1].deep_view());
        }
        assert(header == is_first_of_comment(lv, i as int));
        out.push(comment_line(&lines[i], comments, selected, header));
        i = i + 1;
    }
    out
}



// ---------------------------------------------------------------------------
// Terminal hyperlinks
// ---------------------------------------------------------------------------

/// A link a terminal can carry in an OSC 8 hyperlink: a web link made of
/// printable ASCII only.
pub open spec fn osc8_safe(text: Seq<char>) -> bool {
    (has_prefix(text, http_scheme()) || has_prefix(text, https_scheme())) && forall|i: int|
        0 <= i < text.len() ==> 32 <= #[trigger] (text[i] as u32) <= 126
}

/// Whether `text` can be the target of a terminal hyperlink.
pub fn is_osc8_uri(text: &str) -> (r: bool)
    ensures
        r == osc8_safe(text@),
{
    let cs = chars_of(text);
    if !crate::text::is_web_link_exec(&cs) {
        return false;
    }
    let mut i: usize = 0;
    while i < cs.len()
        invariant
            i <= cs.len(),
            cs@ == text@,
            crate::text::is_web_link(text@),
            forall|j: int| 0 <= j < i ==> 32 <= #[trigger] (cs@[j] as u32) <= 126,
        decreases cs.len() - i,
    {
        let u = cs[i] as u32;
        if u < 32 || u > 126 {
            return false;
        }
        i = i + 1;
    }
    true
}

/// The OSC 8 escape sequence that shows `text` as a link to `url`.
pub open spec fn osc8(url: Seq<char>, text: Seq<char>) -> Seq<char> {
    seq!['\x1b', ']', '8', ';', ';'] + url + seq!['\x1b', '\\'] + text + seq![
        '\x1b',
        ']',
        '8',
        ';',
        ';',
        '\x1b',
        '\\',
    ]
}

/// `text` wrapped in a terminal hyperlink to `url`.
pub fn osc8_link(url: &str, text: &str) -> (r: String)
    ensures
        r@ == osc8(url@, text@),
{
    let mut out = vec!['\x1b', ']', '8', ';', ';'];
    crate::chars::push_all(&mut out, &chars_of(url));
    out.push('\x1b');
    out.push('\\');
    crate::chars::push_all(&mut out, &chars_of(text));
    let tail = vec!['\x1b', ']', '8', ';', ';', '\x1b', '\\'];
    crate::chars::push_all(&mut out, &tail);
    assert(out@ =~= osc8(url@, text@));
    string_of(&out)
}

pub proof fn lemma_encode_utf8_append(a: Seq<char>, b: Seq<char>)
    ensures
        vstd::utf8::encode_utf8(a + b) == vstd::utf8::encode_utf8(a) + vstd::utf8::encode_utf8(b),
    decreases a.len(),
{
    if a.len() > 0 {
        lemma_encode_utf8_append(a.drop_first(), b);
        assert((a + b).drop_first() =~= a.drop_first() + b);
        assert(vstd::utf8::encode_scalar(a[0] as u32) + (vstd::utf8::encode_utf8(a.drop_first())
            + vstd::utf8::encode_utf8(b)) =~= vstd::utf8::encode_scalar(a[0] as u32)
            + vstd::utf8::encode_utf8(a.drop_first()) + vstd::utf8::encode_utf8(b));
    } else {
        assert(a + b =~= b);
    }
}

/// The byte offset, in UTF-8, of character `char_index` of `text` (its byte
/// length when the index is past the end).
pub fn byte_at_char(text: &str, char_index: usize) -> (r: usize)
    ensures
        r == vstd::utf8::encode_utf8(text@.subrange(
            0,
            if char_index < text@.len() {
                char_index as int
            } else {
                text@.len() as int
            },
        )).len(),
{
    let cs = chars_of(text);
    let n = if char_index < cs.len() {
        char_index
    } else {
        cs.len()
    };
    let total = text.as_bytes().len();
    proof {
        assert(text@.subrange(0, text@.len() as int) =~= text@);
        lemma_encode_utf8_append(text@.subrange(0, n as int), text@.subrange(n as int, text@.len() as int));
        assert(text@.subrange(0, n as int) + text@.subrange(n as int, text@.len() as int) =~= text@);
    }
    let mut bytes: usize = 0;
    let mut i: usize = 0;
    while i < n
        invariant
            i <= n <= cs.len(),
            cs@ == text@,
            bytes == vstd::utf8::encode_utf8(cs@.subrange(0, i as int)).len(),
            vstd::utf8::encode_utf8(cs@.subrange(0, n as int)).len() <= total,
        decreases n - i,
    {
        let u = cs[i] as u32;
        let w: usize = if u < 0x80 {
            1
        } else if u < 0x800 {
            2
        } else if u < 0x10000 {
            3
        } else {
            4
        };
        proof {
            vstd::utf8::char_is_scalar(cs@[i as int]);
            assert(vstd::utf8::encode_utf8(seq![cs@[i as int]]) =~= vstd::utf8::encode_scalar(u)
                + vstd::utf8::encode_utf8(seq![cs@[i as int]].drop_first()));
            assert(vstd::utf8::encode_utf8(seq![cs@[i as int]]).len() == w);
            lemma_encode_utf8_append(cs@.subrange(0, i as int), seq![cs@[i as int]]);
            assert(cs@.subrange(0, i as int) + seq![cs@[i as int]] =~= cs@.subrange(0, i + 1));
            lemma_encode_utf8_append(cs@.subrange(0, i + 1), cs@.subrange(i + 1, n as int));
            assert(cs@.subrange(0, i + 1) + cs@.subrange(i + 1, n as int) =~= cs@.subrange(0, n as int));
        }
        bytes = bytes + w;
        i = i + 1;
    }
    bytes
}


// ---------------------------------------------------------------------------
// Link ranges
// ---------------------------------------------------------------------------

/// A link covering characters `start..end` of a line.
#[derive(Clone, Debug)]
pub struct CommentLink {
    pub start: usize,
    pub end: usize,
    pub url: String,
}

/// What a link range says.
pub type LinkView = (usize, usize, Seq<char>);

impl DeepView for CommentLink {
    type V = LinkView;

    open spec fn deep_view(&self) -> LinkView {
        (self.start, self.end, self.url@)
    }
}

/// The part of `link` inside `start..end`, counted from `start`.
pub open spec fn clipped(link: LinkView, start: int, end: int) -> Option<LinkView> {
    let a = if link.0 > start {
        link.0 as int
    } else {
        start
    };
    let b = if link.1 < end {
        link.1 as int
    } else {
        end
    };
    if a < b {
        Some(((a - start) as usize, (b - start) as usize, link.2))
    } else {
        None
    }
}

/// The links of `links` that reach into `start..end`, clipped to it and
/// counted from `start`, in order.
pub open spec fn clip_links(links: Seq<LinkView>, start: int, end: int) -> Seq<LinkView>
    decreases links.len(),
{
    if links.len() == 0 {
        seq![]
    } else {
        let rest = clip_links(links.drop_last(), start, end);
        match clipped(links.last(), start, end) {
            Some(l) => rest.push(l),
            None => rest,
        }
    }
}

/// The links that reach into the `len` characters from `start`, clipped to
/// them and counted from `start`.
pub fn links_in_range(links: &[CommentLink], start: usize, len: usize) -> (r: Vec<CommentLink>)
    requires
        start + len <= usize::MAX,
    ensures
        r.deep_view() == clip_links(links.deep_view(), start as int, start + len),
{
    let end = start + len;
    let mut out: Vec<CommentLink> = Vec::new();
    let mut i: usize = 0;
    while i < links.len()
        invariant
            i <= links.len(),
            end == start + len,
            out.deep_view() == clip_links(links.deep_view().subrange(0, i as int), start as int, end as int),
        decreases links.len() - i,
    {
        let link = &links[i];
        assert(links.deep_view().subrange(0, i + 1).drop_last() =~= links.deep_view().subrange(0, i as int));
        assert(links.deep_view().subrange(0, i + 1).last() == link.deep_view());
        let a = if link.start > start {
            link.start
        } else {
            start
        };
        let b = if link.end < end {
            link.end
        } else {
            end
        };
        if a < b {
            let ghost before = out.deep_view();
            out.push(CommentLink { start: a - start, end: b - start, url: link.url.clone() });
            assert(out.deep_view() =~= before.push(((a - start) as usize, (b - start) as usize, link.url@)));
        }
        i = i + 1;
    }
    assert(links.deep_view().subrange(0, links@.len() as int) =~= links.deep_view());
    out
}

/// `x` clamped to `0..=n`.
pub open spec fn clamp(x: int, n: int) -> int {
    if x < n {
        x
    } else {
        n
    }
}

/// The pieces of `text` from character `cursor` on, when `links` mark
/// character ranges as links: the text before each marked range has its web
/// links picked out, each marked range is a link, and the text after the
/// last one has its web links picked out. Ranges are cut at the end of the
/// text.
pub open spec fn ranged_pieces(text: Seq<char>, links: Seq<LinkView>, cursor: int) -> Seq<SpanView>
    decreases links.len(),
{
    let n = text.len() as int;
    if links.len() == 0 {
        if cursor < n {
            link_pieces(text.subrange(clamp(cursor, n), n))
        } else {
            seq![]
        }
    } else {
        let l = links[0];
        let before = if cursor < l.0 {
            link_pieces(text.subrange(clamp(cursor, n), clamp(l.0 as int, n)))
        } else {
            seq![]
        };
        before + seq![(text.subrange(clamp(l.0 as int, n), clamp(l.1 as int, n)), Role::Link)] + ranged_pieces(
            text,
            links.drop_first(),
            l.1 as int,
        )
    }
}

/// The pieces of `text` with the character ranges of `links` shown as
/// links; each range must not end before it starts.
pub fn link_spans_with_ranges(text: &str, links: &[CommentLink]) -> (r: Vec<Span>)
    requires
        forall|i: int| 0 <= i < links@.len() ==> #[trigger] links@[i].start <= links@[i].end,
    ensures
        r.deep_view() == ranged_pieces(text@, links.deep_view(), 0),
{
    let cs = chars_of(text);
    let n = cs.len();
    let mut out: Vec<Span> = Vec::new();
    let mut cursor: usize = 0;
    let mut i: usize = 0;
    assert(links.deep_view().subrange(0, links@.len() as int) =~= links.deep_view());
    while i < links.len()
        invariant
            i <= links.len(),
            n == cs@.len(),
            cs@ == text@,
            forall|k: int| 0 <= k < links@.len() ==> #[trigger] links@[k].start <= links@[k].end,
            out.deep_view() + ranged_pieces(text@, links.deep_view().subrange(i as int, links@.len() as int), cursor as int)
                == ranged_pieces(text@, links.deep_view(), 0),
        decreases links.len() - i,
    {
        let ghost before = out.deep_view();
        let ghost rest = links.deep_view().subrange(i as int, links@.len() as int);
        assert(rest[0] == links@[i as int].deep_view());
        assert(rest.drop_first() =~= links.deep_view().subrange(i + 1, links@.len() as int));
        let l = &links[i];
        let a = if cursor < n {
            cursor
        } else {
            n
        };
        let b = if l.start < n {
            l.start
        } else {
            n
        };
        let e = if l.end < n {
            l.end
        } else {
            n
        };
        if cursor < l.start {
            push_link_pieces(&mut out, &slice_vec(&cs, a, b));
        }
        push_span(&mut out, &slice_vec(&cs, b, e), Role::Link);
        assert(out.deep_view() + ranged_pieces(text@, rest.drop_first(), l.end as int) =~= before
            + ranged_pieces(text@, rest, cursor as int));
        cursor = l.end;
        i = i + 1;
    }
    let ghost before = out.deep_view();
    if cursor < n {
        push_link_pieces(&mut out, &slice_vec(&cs, cursor, n));
    }
    assert(links.deep_view().subrange(i as int, links@.len() as int) =~= Seq::<LinkView>::empty());
    assert(out.deep_view() =~= before + ranged_pieces(text@, Seq::<LinkView>::empty(), cursor as int));
    out
}

// ---------------------------------------------------------------------------
// Hyperlinks on the screen
// ---------------------------------------------------------------------------

/// One cell of a screen row: what it shows, and whether it is drawn as a link.
pub struct ScreenCell {
    pub symbol: String,
    pub link: bool,
}

/// What a cell says.
pub type CellView = (Seq<char>, bool);

impl DeepView for ScreenCell {
    type V = CellView;

    open spec fn deep_view(&self) -> CellView {
        (self.symbol@, self.link)
    }
}

/// A run of link cells that becomes one terminal hyperlink: cells
/// `start..end` of its row, showing `text`.
pub struct LinkRun {
    pub start: usize,
    pub end: usize,
    pub text: String,
}

impl DeepView for LinkRun {
    type V = (usize, usize, Seq<char>);

    open spec fn deep_view(&self) -> (usize, usize, Seq<char>) {
        (self.start, self.end, self.text@)
    }
}

/// Where the run of link cells that includes cell `x` ends.
pub open spec fn run_end(cells: Seq<CellView>, x: int) -> int
    decreases cells.len() - x,
{
    if 0 <= x < cells.len() && cells[x].1 {
        run_end(cells, x + 1)
    } else {
        x
    }
}

/// What cells `a..b` show, one after the other.
pub open spec fn cells_text(cells: Seq<CellView>, a: int, b: int) -> Seq<char>
    decreases b - a,
{
    if a >= b {
        seq![]
    } else {
        cells_text(cells, a, b - 1) + cells[b - 1].0
    }
}

pub proof fn lemma_run_end(cells: Seq<CellView>, x: int)
    requires
        0 <= x <= cells.len(),
    ensures
        x <= run_end(cells, x) <= cells.len(),
        x < cells.len() && cells[x].1 ==> x < run_end(cells, x),
        run_end(cells, x) < cells.len() ==> !cells[run_end(cells, x)].1,
        forall|k: int| x <= k < run_end(cells, x) ==> #[trigger] cells[k].1,
    decreases cells.len() - x,
{
    if x < cells.len() && cells[x].1 {
        lemma_run_end(cells, x + 1);
    }
}

/// The hyperlinks of a row from cell `x` on: each maximal run of link cells
/// whose text can be the target of a terminal hyperlink, left to right.
pub open spec fn runs_from(cells: Seq<CellView>, x: int) -> Seq<(usize, usize, Seq<char>)>
    decreases cells.len() - x,
{
    if x < 0 || x >= cells.len() {
        seq![]
    } else if !cells[x].1 {
        runs_from(cells, x + 1)
    } else {
        let e = run_end(cells, x);
        proof {
            lemma_run_end(cells, x);
        }
        let t = cells_text(cells, x, e);
        if osc8_safe(t) {
            seq![(x as usize, e as usize, t)] + runs_from(cells, e)
        } else {
            runs_from(cells, e)
        }
    }
}

/// The runs of link cells of a screen row that become terminal hyperlinks.
pub fn hyperlink_runs(cells: &[ScreenCell]) -> (r: Vec<LinkRun>)
    ensures
        r.deep_view() == runs_from(cells.deep_view(), 0),
{
    let ghost cv = cells.deep_view();
    let mut out: Vec<LinkRun> = Vec::new();
    let mut x: usize = 0;
    while x < cells.len()
        invariant
            x <= cells.len(),
            cv == cells.deep_view(),
            out.deep_view() + runs_from(cv, x as int) == runs_from(cv, 0),
        decreases cells.len() - x,
    {
        assert(cv[x as int] == cells@[x as int].deep_view());
        if !cells[x].link {
            x = x + 1;
        } else {
            let start = x;
            let mut text: Vec<char> = Vec::new();
            proof {
                lemma_run_end(cv, start as int);
            }
            while x < cells.len() && cells[x].link
                invariant
                    start <= x <= cells.len(),
                    cv == cells.deep_view(),
                    run_end(cv, start as int) == run_end(cv, x as int),
                    text@ == cells_text(cv, start as int, x as int),
                decreases cells.len() - x,
            {
                assert(cv[x as int] == cells@[x as int].deep_view());
                crate::chars::push_all(&mut text, &chars_of(cells[x].symbol.as_str()));
                x = x + 1;
            }
            if x < cells.len() {
                assert(cv[x as int] == cells@[x as int].deep_view());
            }
            let t = string_of(&text);
            let ghost before = out.deep_view();
            if is_osc8_uri(t.as_str()) {
                out.push(LinkRun { start, end: x, text: t });
                assert(out.deep_view() =~= before.push((start, x, text@)));
                assert(out.deep_view() + runs_from(cv, x as int) =~= before + runs_from(cv, start as int));
            }
        }
    }
    assert(out.deep_view() + runs_from(cv, x as int) =~= out.deep_view());
    out
}

} // verus!
