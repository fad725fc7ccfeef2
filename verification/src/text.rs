//! Plain text from HTML fragments, whitespace folding, link finding and
//! comment-text cleanup.
use vstd::prelude::*;
use crate::chars::{
    chars_of, has_prefix, is_ascii_ws, is_whitespace, is_ws, string_of, matches_at_exec, parse_unsigned, parse_unsigned_exec, push_all, slice_vec,
    starts_with, words, words_exec, trim_start, split_lines, split_lines_exec, trim_start_from,
    is_blank, is_blank_exec, join, join_exec,
};

verus! {

// ---------------------------------------------------------------------------
// HTML entities
// ---------------------------------------------------------------------------

/// A valid Unicode scalar value: not a surrogate and at most `0x10FFFF`.
pub open spec fn is_scalar(v: nat) -> bool {
    v < 0xD800 || (0xE000 <= v && v <= 0x10FFFF)
}

/// Trusted, not proved: std's `char::from_u32` gives the character whose
/// scalar value is `v`, and `None` when `v` is a surrogate or lies above
/// `0x10FFFF`, as its documentation says.
#[verifier::external_body]
fn char_from_u32(v: u32) -> (r: Option<char>)
    ensures
        match r {
            Some(c) => is_scalar(v as nat) && c == (v as char),
            None => !is_scalar(v as nat),
        },
{
    char::from_u32(v)
}

/// The scalar value a numeric entity name (`#x27`, `#X27`, `#39`) spells:
/// hexadecimal after `#x` or `#X`, else decimal after `#`.
pub open spec fn numeric_entity_value(name: Seq<char>) -> Option<nat> {
    let hex = if has_prefix(name, seq!['#', 'x']) || has_prefix(name, seq!['#', 'X']) {
        parse_unsigned(name.subrange(2, name.len() as int), 16, u32::MAX as nat)
    } else {
        None
    };
    match hex {
        Some(v) => Some(v),
        None => if has_prefix(name, seq!['#']) {
            parse_unsigned(name.drop_first(), 10, u32::MAX as nat)
        } else {
            None
        },
    }
}

/// The character an entity name stands for, if this reader knows it.
pub open spec fn entity_char(name: Seq<char>) -> Option<char> {
    if name == seq!['a', 'm', 'p'] {
        Some('&')
    } else if name == seq!['l', 't'] {
        Some('<')
    } else if name == seq!['g', 't'] {
        Some('>')
    } else if name == seq!['q', 'u', 'o', 't'] {
        Some('"')
    } else if name == seq!['a', 'p', 'o', 's'] || name == seq!['n', 'b', 's', 'p'] {
        Some(' ')
    } else {
        match numeric_entity_value(name) {
            Some(v) => if is_scalar(v) {
                Some(v as char)
            } else {
                None
            },
            None => None,
        }
    }
}

/// The text an entity `&name;` becomes: its character, or the entity as written.
pub open spec fn entity_text(name: Seq<char>) -> Seq<char> {
    match entity_char(name) {
        Some(c) => seq![c],
        None => seq!['&'] + name + seq![';'],
    }
}

fn seq_is(s: &[char], lit: &[char]) -> (r: bool)
    ensures
        r == (s@ == lit@),
{
    if s.len() != lit.len() {
        return false;
    }
    let r = matches_at_exec(s, lit, 0);
    assert(s@.subrange(0, s@.len() as int) =~= s@);
    r
}

/// The character an entity name stands for.
pub fn entity_char_exec(name: &[char]) -> (r: Option<char>)
    ensures
        r == entity_char(name@),
{
    let amp = ['a', 'm', 'p'];
    let lt = ['l', 't'];
    let gt = ['g', 't'];
    let quot = ['q', 'u', 'o', 't'];
    let apos = ['a', 'p', 'o', 's'];
    let nbsp = ['n', 'b', 's', 'p'];
    assert(amp@ == seq!['a', 'm', 'p']);
    assert(lt@ == seq!['l', 't']);
    assert(gt@ == seq!['g', 't']);
    assert(quot@ == seq!['q', 'u', 'o', 't']);
    assert(apos@ == seq!['a', 'p', 'o', 's']);
    assert(nbsp@ == seq!['n', 'b', 's', 'p']);
    if seq_is(name, &amp) {
        return Some('&');
    }
    if seq_is(name, &lt) {
        return Some('<');
    }
    if seq_is(name, &gt) {
        return Some('>');
    }
    if seq_is(name, &quot) {
        return Some('"');
    }
    if seq_is(name, &apos) || seq_is(name, &nbsp) {
        return Some(' ');
    }
    let hx = ['#', 'x'];
    let hx_upper = ['#', 'X'];
    let hash = ['#'];
    assert(hx@ == seq!['#', 'x']);
    assert(hx_upper@ == seq!['#', 'X']);
    assert(hash@ == seq!['#']);
    let mut value: Option<u64> = None;
    if starts_with(name, &hx) || starts_with(name, &hx_upper) {
        let digits = slice_vec(name, 2, name.len());
        value = parse_unsigned_exec(&digits, 16, 0xFFFF_FFFF);
    }
    if value.is_none() && starts_with(name, &hash) {
        let digits = slice_vec(name, 1, name.len());
        assert(digits@ =~= name@.drop_first());
        value = parse_unsigned_exec(&digits, 10, 0xFFFF_FFFF);
    }
    match value {
        Some(v) => {
            assert(v <= u32::MAX);
            char_from_u32(v as u32)
        },
        None => None,
    }
}

/// Appends the text of entity `&name;` to `out`.
pub fn push_entity(out: &mut Vec<char>, name: &[char])
    ensures
        final(out)@ == old(out)@ + entity_text(name@),
{
    match entity_char_exec(name) {
        Some(c) => {
            out.push(c);
            assert(old(out)@.push(c) =~= old(out)@ + seq![c]);
        },
        None => {
            out.push('&');
            push_all(out, name);
            out.push(';');
            assert(old(out)@.push('&') + name@ + seq![';'] =~= old(out)@ + (seq!['&'] + name@
                + seq![';']));
            assert((old(out)@.push('&') + name@).push(';') =~= old(out)@.push('&') + name@
                + seq![';']);
        },
    }
}

/// Appends the decoded text of the HTML entity named `entity` to `out`:
/// `&amp;`, `&lt;`, `&gt;`, `&quot;`, `&apos;`, `&nbsp;` and numeric entities;
/// an unknown entity is written back as `&entity;`.
pub fn push_html_entity(out: &mut String, entity: &str)
    ensures
        final(out)@ == old(out)@ + entity_text(entity@),
{
    let name = chars_of(entity);
    let mut decoded: Vec<char> = Vec::new();
    push_entity(&mut decoded, &name);
    assert(decoded@ =~= entity_text(entity@));
    let mut i: usize = 0;
    while i < decoded.len()
        invariant
            i <= decoded.len(),
            out@ == old(out)@ + decoded@.subrange(0, i as int),
        decreases decoded.len() - i,
    {
        out.push(decoded[i]);
        i = i + 1;
        assert(decoded@.subrange(0, i as int) =~= decoded@.subrange(0, i - 1).push(
            decoded@[i - 1],
        ));
    }
    assert(decoded@.subrange(0, decoded@.len() as int) =~= decoded@);
}


// ---------------------------------------------------------------------------
// Tags that break paragraphs
// ---------------------------------------------------------------------------

/// After a tag name: `>`, `/` or ASCII whitespace.
pub open spec fn ends_tag_name(rest: Seq<char>) -> bool {
    rest.len() > 0 && (rest[0] == '>' || rest[0] == '/' || is_ascii_ws(rest[0]))
}

/// `u` starts with the tag name `name`, followed by the end of the name.
pub open spec fn names_tag(u: Seq<char>, name: Seq<char>) -> bool {
    has_prefix(u, name) && ends_tag_name(u.subrange(name.len() as int, u.len() as int))
}

/// `t` starts with an opening or closing `p`, `br`, `div`, `li` or `pre` tag.
pub open spec fn is_break_tag(t: Seq<char>) -> bool {
    t.len() > 0 && t[0] == '<' && {
        let u0 = t.drop_first();
        let u = if u0.len() > 0 && u0[0] == '/' {
            u0.drop_first()
        } else {
            u0
        };
        ||| names_tag(u, seq!['p'])
        ||| names_tag(u, seq!['b', 'r'])
        ||| names_tag(u, seq!['d', 'i', 'v'])
        ||| names_tag(u, seq!['l', 'i'])
        ||| names_tag(u, seq!['p', 'r', 'e'])
    }
}

fn names_tag_at(s: &[char], at: usize, name: &[char]) -> (r: bool)
    requires
        at <= s.len(),
    ensures
        r == names_tag(s@.subrange(at as int, s@.len() as int), name@),
{
    let ghost u = s@.subrange(at as int, s@.len() as int);
    if !matches_at_exec(s, name, at) {
        assert(!has_prefix(u, name@)) by {
            if has_prefix(u, name@) {
                assert(u.subrange(0, name@.len() as int) =~= s@.subrange(
                    at as int,
                    at + name@.len(),
                ));
            }
        }
        return false;
    }
    assert(u.subrange(0, name@.len() as int) =~= s@.subrange(at as int, at + name@.len()));
    let k = at + name.len();
    assert(u.subrange(name@.len() as int, u.len() as int) =~= s@.subrange(
        k as int,
        s@.len() as int,
    ));
    if k >= s.len() {
        return false;
    }
    let c = s[k];
    c == '>' || c == '/' || c == ' ' || c == '\t' || c == '\n' || c == '\x0C' || c == '\r'
}

/// Whether `s[at..]` starts with a tag that breaks a paragraph.
pub fn is_break_tag_at(s: &[char], at: usize) -> (r: bool)
    requires
        at <= s.len(),
    ensures
        r == is_break_tag(s@.subrange(at as int, s@.len() as int)),
{
    let ghost t = s@.subrange(at as int, s@.len() as int);
    if at >= s.len() || s[at] != '<' {
        return false;
    }
    let mut k = at + 1;
    if k < s.len() && s[k] == '/' {
        k = k + 1;
    }
    assert(s@.subrange(k as int, s@.len() as int) =~= (if t.drop_first().len() > 0
        && t.drop_first()[0] == '/' {
        t.drop_first().drop_first()
    } else {
        t.drop_first()
    }));
    let p = ['p'];
    let br = ['b', 'r'];
    let div = ['d', 'i', 'v'];
    let li = ['l', 'i'];
    let pre = ['p', 'r', 'e'];
    assert(p@ == seq!['p']);
    assert(br@ == seq!['b', 'r']);
    assert(div@ == seq!['d', 'i', 'v']);
    assert(li@ == seq!['l', 'i']);
    assert(pre@ == seq!['p', 'r', 'e']);
    names_tag_at(s, k, &p) || names_tag_at(s, k, &br) || names_tag_at(s, k, &div)
        || names_tag_at(s, k, &li) || names_tag_at(s, k, &pre)
}

/// Whether `tag` starts with an opening or closing `p`, `br`, `div`, `li` or
/// `pre` tag, whose name is followed by `>`, `/` or ASCII whitespace.
pub fn starts_html_break_tag(tag: &str) -> (r: bool)
    ensures
        r == is_break_tag(tag@),
{
    let cs = chars_of(tag);
    assert(cs@.subrange(0, cs@.len() as int) =~= cs@);
    is_break_tag_at(&cs, 0)
}

// ---------------------------------------------------------------------------
// Tag stripping
// ---------------------------------------------------------------------------

/// `&` followed by an entity name that was never closed by `;`.
pub open spec fn flush_entity(entity: Option<Seq<char>>) -> Seq<char> {
    match entity {
        Some(name) => seq!['&'] + name,
        None => seq![],
    }
}

/// The state of a scan over HTML: text so far, inside a tag, entity being read.
pub type HtmlScan = (Seq<char>, bool, Option<Seq<char>>);

/// What the character at position `i` of `html` does to the scan. A tag
/// becomes a space, or, when `breaks` holds and the tag breaks a paragraph,
/// a blank line; text inside tags is dropped; entities are decoded.
pub open spec fn html_step(html: Seq<char>, i: int, st: HtmlScan, breaks: bool) -> HtmlScan {
    let (out, in_tag, entity) = st;
    let c = html[i];
    if c == '<' {
        let gap = if breaks && is_break_tag(html.subrange(i, html.len() as int)) {
            seq!['\n', '\n']
        } else {
            seq![' ']
        };
        (out + flush_entity(entity) + gap, true, None)
    } else if c == '>' {
        (out, false, entity)
    } else if c == '&' && !in_tag {
        (out + flush_entity(entity), in_tag, Some(Seq::empty()))
    } else if c == ';' && !in_tag && entity is Some {
        (out + entity_text(entity->0), in_tag, None)
    } else if !in_tag && entity is Some {
        (out, in_tag, Some(entity->0.push(c)))
    } else if !in_tag {
        (out.push(c), in_tag, entity)
    } else {
        st
    }
}

/// The scan after the first `n` characters of `html`.
pub open spec fn html_scan(html: Seq<char>, n: int, breaks: bool) -> HtmlScan
    decreases n,
{
    if n <= 0 {
        (Seq::empty(), false, None)
    } else {
        html_step(html, n - 1, html_scan(html, n - 1, breaks), breaks)
    }
}

/// The text of `html` before whitespace is folded.
pub open spec fn html_raw_text(html: Seq<char>, breaks: bool) -> Seq<char> {
    let st = html_scan(html, html.len() as int, breaks);
    st.0 + flush_entity(st.2)
}

/// The characters of an optional vector.
pub open spec fn opt_chars(e: Option<Vec<char>>) -> Option<Seq<char>> {
    match e {
        Some(v) => Some(v@),
        None => None,
    }
}

fn flush_entity_exec(out: &mut Vec<char>, entity: Option<Vec<char>>)
    ensures
        final(out)@ == old(out)@ + flush_entity(opt_chars(entity)),
{
    match entity {
        Some(name) => {
            out.push('&');
            push_all(out, &name);
            assert(old(out)@.push('&') + name@ =~= old(out)@ + (seq!['&'] + name@));
        },
        None => {
            assert(old(out)@ + seq![] =~= old(out)@);
        },
    }
}

/// The characters of `html` with tags removed and entities decoded.
pub fn strip_tags(html: &[char], breaks: bool) -> (r: Vec<char>)
    ensures
        r@ == html_raw_text(html@, breaks),
{
    let mut out: Vec<char> = Vec::new();
    let mut in_tag = false;
    let mut entity: Option<Vec<char>> = None;
    let mut i: usize = 0;
    while i < html.len()
        invariant
            i <= html.len(),
            html_scan(html@, i as int, breaks) == (out@, in_tag, opt_chars(entity)),
        decreases html.len() - i,
    {
        let c = html[i];
        let ghost before = html_scan(html@, i as int, breaks);
        if c == '<' {
            let e = entity;
            entity = None;
            flush_entity_exec(&mut out, e);
            in_tag = true;
            if breaks && is_break_tag_at(html, i) {
                out.push('\n');
                out.push('\n');
                assert(out@ =~= before.0 + flush_entity(before.2) + seq!['\n', '\n']);
            } else {
                out.push(' ');
                assert(out@ =~= before.0 + flush_entity(before.2) + seq![' ']);
            }
        } else if c == '>' {
            in_tag = false;
        } else if c == '&' && !in_tag {
            let e = entity;
            flush_entity_exec(&mut out, e);
            entity = Some(Vec::new());
            assert(opt_chars(entity) =~= Some(Seq::<char>::empty()));
        } else if c == ';' && !in_tag && entity.is_some() {
            let e = entity.unwrap();
            push_entity(&mut out, &e);
            entity = None;
        } else if !in_tag && entity.is_some() {
            let mut e = entity.unwrap();
            e.push(c);
            entity = Some(e);
        } else if !in_tag {
            out.push(c);
        }
        i = i + 1;
    }
    let e = entity;
    flush_entity_exec(&mut out, e);
    out
}

// ---------------------------------------------------------------------------
// Whitespace folding
// ---------------------------------------------------------------------------

/// `n` newlines.
pub open spec fn newlines(n: nat) -> Seq<char>
    decreases n,
{
    if n == 0 {
        seq![]
    } else {
        newlines((n - 1) as nat).push('\n')
    }
}

/// Folding state: text so far, a space pending, newlines pending (at most two).
pub type FoldScan = (Seq<char>, bool, nat);

/// What character `c` does to paragraph-preserving whitespace folding: runs of
/// spaces become one space, runs of newlines become at most one blank line,
/// and whitespace at either end is dropped.
pub open spec fn fold_step(st: FoldScan, c: char) -> FoldScan {
    let (out, space, nl) = st;
    if c == '\n' {
        (out, false, if out.len() > 0 {
            if nl + 1 < 2 {
                (nl + 1) as nat
            } else {
                2
            }
        } else {
            nl
        })
    } else if is_ws(c) {
        (out, out.len() > 0 && nl == 0, nl)
    } else {
        let gap = if nl == 0 && space {
            seq![' ']
        } else {
            seq![]
        };
        (out + newlines(nl) + gap.push(c), false, 0)
    }
}

/// Paragraph-preserving folding of the first `n` characters of `s`.
pub open spec fn fold_scan(s: Seq<char>, n: int) -> FoldScan
    decreases n,
{
    if n <= 0 {
        (Seq::empty(), false, 0)
    } else {
        fold_step(fold_scan(s, n - 1), s[n - 1])
    }
}

/// `s` with whitespace folded: single spaces between words, at most one
/// blank line between paragraphs, nothing at either end.
pub open spec fn folded(s: Seq<char>) -> Seq<char> {
    fold_scan(s, s.len() as int).0
}

/// What character `c` does to single-line whitespace folding.
pub open spec fn flat_step(st: (Seq<char>, bool), c: char) -> (Seq<char>, bool) {
    let (out, space) = st;
    if is_ws(c) {
        (out, out.len() > 0)
    } else if space {
        (out.push(' ').push(c), false)
    } else {
        (out.push(c), false)
    }
}

/// Single-line folding of the first `n` characters of `s`.
pub open spec fn flat_scan(s: Seq<char>, n: int) -> (Seq<char>, bool)
    decreases n,
{
    if n <= 0 {
        (Seq::empty(), false)
    } else {
        flat_step(flat_scan(s, n - 1), s[n - 1])
    }
}

/// `s` with every run of whitespace turned into one space and none at either end.
pub open spec fn flattened(s: Seq<char>) -> Seq<char> {
    flat_scan(s, s.len() as int).0
}

/// Paragraph-preserving whitespace folding on characters.
pub fn fold_chars(s: &[char]) -> (r: Vec<char>)
    ensures
        r@ == folded(s@),
{
    let mut out: Vec<char> = Vec::new();
    let mut space = false;
    let mut nl: usize = 0;
    let mut i: usize = 0;
    while i < s.len()
        invariant
            i <= s.len(),
            fold_scan(s@, i as int) == (out@, space, nl as nat),
            nl <= 2,
        decreases s.len() - i,
    {
        let c = s[i];
        let ghost before = out@;
        if c == '\n' {
            if out.len() > 0 {
                nl = if nl + 1 < 2 {
                    nl + 1
                } else {
                    2
                };
            }
            space = false;
        } else if is_whitespace(c) {
            space = out.len() > 0 && nl == 0;
        } else {
            let mut k: usize = 0;
            while k < nl
                invariant
                    k <= nl <= 2,
                    out@ == before + newlines(k as nat),
                decreases nl - k,
            {
                out.push('\n');
                k = k + 1;
            }
            if nl == 0 && space {
                out.push(' ');
            }
            out.push(c);
            proof {
                let gap = if nl == 0 && space {
                    seq![' ']
                } else {
                    seq![]
                };
                assert(out@ =~= before + newlines(nl as nat) + gap.push(c));
            }
            space = false;
            nl = 0;
        }
        i = i + 1;
    }
    out
}

/// Single-line whitespace folding on characters.
pub fn flatten_chars(s: &[char]) -> (r: Vec<char>)
    ensures
        r@ == flattened(s@),
{
    let mut out: Vec<char> = Vec::new();
    let mut space = false;
    let mut i: usize = 0;
    while i < s.len()
        invariant
            i <= s.len(),
            flat_scan(s@, i as int) == (out@, space),
        decreases s.len() - i,
    {
        let c = s[i];
        if is_whitespace(c) {
            space = out.len() > 0;
        } else {
            if space {
                out.push(' ');
            }
            out.push(c);
            space = false;
        }
        i = i + 1;
    }
    out
}

/// The plain text of an HTML fragment, as paragraphs: tags are removed,
/// paragraph-breaking tags become blank lines, entities are decoded and
/// whitespace is folded.
pub open spec fn html_text(html: Seq<char>) -> Seq<char> {
    folded(html_raw_text(html, true))
}

/// The plain text of an HTML fragment on one line: tags are removed,
/// entities are decoded and all whitespace is folded to single spaces.
pub open spec fn html_line(html: Seq<char>) -> Seq<char> {
    flattened(html_raw_text(html, false))
}

/// The plain text of an HTML fragment, as paragraphs.
pub fn html_text_chars(html: &[char]) -> (r: Vec<char>)
    ensures
        r@ == html_text(html@),
{
    let raw = strip_tags(html, true);
    fold_chars(&raw)
}

/// The plain text of an HTML fragment, keeping paragraph breaks.
pub fn html_to_text(html: &str) -> (r: String)
    ensures
        r@ == html_text(html@),
{
    let cs = chars_of(html);
    let out = html_text_chars(&cs);
    string_of(&out)
}

/// The plain text of an HTML fragment on a single line.
pub fn html_to_line(html: &str) -> (r: String)
    ensures
        r@ == html_line(html@),
{
    let cs = chars_of(html);
    let raw = strip_tags(&cs, false);
    let out = flatten_chars(&raw);
    string_of(&out)
}

/// `text` with runs of spaces folded to one, at most one blank line between
/// paragraphs, and no whitespace at either end.
pub fn collapse_spaces(text: &str) -> (r: String)
    ensures
        r@ == folded(text@),
{
    let cs = chars_of(text);
    let out = fold_chars(&cs);
    string_of(&out)
}

/// `text` with every run of whitespace folded to one space and none at either end.
pub fn collapse_whitespace(text: &str) -> (r: String)
    ensures
        r@ == flattened(text@),
{
    let cs = chars_of(text);
    let out = flatten_chars(&cs);
    string_of(&out)
}


// ---------------------------------------------------------------------------
// Links
// ---------------------------------------------------------------------------

/// Characters stripped from the front of a word before it is read as a link.
pub open spec fn is_opening_mark(c: char) -> bool {
    c == '(' || c == '[' || c == '{' || c == '<' || c == '"' || c == '\''
}

/// Characters stripped from the end of a word before it is read as a link.
pub open spec fn is_closing_mark(c: char) -> bool {
    c == '.' || c == ',' || c == ')' || c == ';' || c == ']' || c == '}' || c == '>' || c == '"'
        || c == '\''
}

pub open spec fn trim_opening(t: Seq<char>) -> Seq<char>
    decreases t.len(),
{
    if t.len() > 0 && is_opening_mark(t[0]) {
        trim_opening(t.drop_first())
    } else {
        t
    }
}

pub open spec fn trim_closing(t: Seq<char>) -> Seq<char>
    decreases t.len(),
{
    if t.len() > 0 && is_closing_mark(t.last()) {
        trim_closing(t.drop_last())
    } else {
        t
    }
}

/// `http://`
pub open spec fn http_scheme() -> Seq<char> {
    seq!['h', 't', 't', 'p', ':', '/', '/']
}

/// `https://`
pub open spec fn https_scheme() -> Seq<char> {
    seq!['h', 't', 't', 'p', 's', ':', '/', '/']
}

/// `t` starts with `http://` or `https://`.
pub open spec fn is_web_link(t: Seq<char>) -> bool {
    has_prefix(t, http_scheme()) || has_prefix(t, https_scheme())
}

/// A word with surrounding brackets, quotes and trailing punctuation removed.
pub open spec fn link_candidate(w: Seq<char>) -> Seq<char> {
    trim_closing(trim_opening(w))
}

/// The first of `ws` that is a web link once its punctuation is removed.
pub open spec fn first_link(ws: Seq<Seq<char>>) -> Option<Seq<char>>
    decreases ws.len(),
{
    if ws.len() == 0 {
        None
    } else if is_web_link(link_candidate(ws[0])) {
        Some(link_candidate(ws[0]))
    } else {
        first_link(ws.drop_first())
    }
}

/// The first web link among the whitespace-separated words of `text`.
pub open spec fn first_url(text: Seq<char>) -> Option<Seq<char>> {
    first_link(words(text))
}

pub fn is_opening_mark_exec(c: char) -> (r: bool)
    ensures
        r == is_opening_mark(c),
{
    c == '(' || c == '[' || c == '{' || c == '<' || c == '"' || c == '\''
}

pub fn is_closing_mark_exec(c: char) -> (r: bool)
    ensures
        r == is_closing_mark(c),
{
    c == '.' || c == ',' || c == ')' || c == ';' || c == ']' || c == '}' || c == '>' || c == '"'
        || c == '\''
}

/// A word with surrounding brackets, quotes and trailing punctuation removed.
pub fn link_candidate_exec(w: &[char]) -> (r: Vec<char>)
    ensures
        r@ == link_candidate(w@),
{
    let mut a: usize = 0;
    assert(w@.subrange(0, w@.len() as int) =~= w@);
    while a < w.len() && is_opening_mark_exec(w[a])
        invariant
            a <= w.len(),
            trim_opening(w@) == trim_opening(w@.subrange(a as int, w@.len() as int)),
        decreases w.len() - a,
    {
        assert(w@.subrange(a as int, w@.len() as int).drop_first() =~= w@.subrange(
            a + 1,
            w@.len() as int,
        ));
        a = a + 1;
    }
    assert(trim_opening(w@.subrange(a as int, w@.len() as int)) == w@.subrange(
        a as int,
        w@.len() as int,
    ));
    let mut b: usize = w.len();
    while b > a && is_closing_mark_exec(w[b - 1])
        invariant
            a <= b <= w.len(),
            trim_closing(w@.subrange(a as int, w@.len() as int)) == trim_closing(
                w@.subrange(a as int, b as int),
            ),
        decreases b,
    {
        assert(w@.subrange(a as int, b as int).drop_last() =~= w@.subrange(a as int, b - 1));
        b = b - 1;
    }
    slice_vec(w, a, b)
}

fn http_scheme_exec() -> (r: Vec<char>)
    ensures
        r@ == http_scheme(),
{
    let r = vec!['h', 't', 't', 'p', ':', '/', '/'];
    assert(r@ =~= http_scheme());
    r
}

fn https_scheme_exec() -> (r: Vec<char>)
    ensures
        r@ == https_scheme(),
{
    let r = vec!['h', 't', 't', 'p', 's', ':', '/', '/'];
    assert(r@ =~= https_scheme());
    r
}

/// Whether `t` starts with `http://` or `https://`.
pub fn is_web_link_exec(t: &[char]) -> (r: bool)
    ensures
        r == is_web_link(t@),
{
    starts_with(t, &http_scheme_exec()) || starts_with(t, &https_scheme_exec())
}

/// The first web link among the words of `text`.
pub fn first_url_chars(text: &[char]) -> (r: Option<Vec<char>>)
    ensures
        opt_chars(r) == first_url(text@),
{
    let ws = words_exec(text);
    let mut i: usize = 0;
    assert(ws.deep_view().subrange(0, ws@.len() as int) =~= ws.deep_view());
    while i < ws.len()
        invariant
            i <= ws.len(),
            first_url(text@) == first_link(ws.deep_view().subrange(i as int, ws@.len() as int)),
        decreases ws.len() - i,
    {
        let ghost rest = ws.deep_view().subrange(i as int, ws@.len() as int);
        assert(rest[0] == ws[i as int]@);
        assert(rest.drop_first() =~= ws.deep_view().subrange(i + 1, ws@.len() as int));
        let t = link_candidate_exec(ws[i].as_slice());
        if is_web_link_exec(&t) {
            return Some(t);
        }
        i = i + 1;
    }
    None
}

/// The first word of `text` that is an `http://` or `https://` link, without
/// the brackets, quotes and trailing punctuation around it.
pub fn extract_first_url(text: &str) -> (r: Option<String>)
    ensures
        match r {
            Some(u) => first_url(text@) == Some(u@),
            None => first_url(text@) is None,
        },
{
    let cs = chars_of(text);
    match first_url_chars(&cs) {
        Some(u) => Some(string_of(&u)),
        None => None,
    }
}

// ---------------------------------------------------------------------------
// Comment text
// ---------------------------------------------------------------------------

/// Three backticks.
pub open spec fn fence() -> Seq<char> {
    seq!['`', '`', '`']
}

/// A line that opens or closes a code fence.
pub open spec fn is_fence_line(line: Seq<char>) -> bool {
    has_prefix(trim_start(line), fence())
}

/// `line` without backticks.
pub open spec fn strip_backticks(line: Seq<char>) -> Seq<char>
    decreases line.len(),
{
    if line.len() == 0 {
        seq![]
    } else {
        let r = strip_backticks(line.drop_last());
        if line.last() == '`' {
            r
        } else {
            r.push(line.last())
        }
    }
}

/// The lines that are not code fences, without backticks.
pub open spec fn unfenced_lines(ls: Seq<Seq<char>>) -> Seq<Seq<char>>
    decreases ls.len(),
{
    if ls.len() == 0 {
        seq![]
    } else {
        let r = unfenced_lines(ls.drop_last());
        if is_fence_line(ls.last()) {
            r
        } else {
            r.push(strip_backticks(ls.last()))
        }
    }
}

/// `ls` without its trailing blank lines.
pub open spec fn drop_blank_tail(ls: Seq<Seq<char>>) -> Seq<Seq<char>>
    decreases ls.len(),
{
    if ls.len() > 0 && is_blank(ls.last()) {
        drop_blank_tail(ls.drop_last())
    } else {
        ls
    }
}

/// Comment text for display: code-fence lines dropped, backticks removed,
/// trailing blank lines dropped, lines joined with `'\n'`.
pub open spec fn cleaned(text: Seq<char>) -> Seq<char> {
    join(drop_blank_tail(unfenced_lines(split_lines(text))), seq!['\n'])
}

fn strip_backticks_exec(line: &[char]) -> (r: Vec<char>)
    ensures
        r@ == strip_backticks(line@),
{
    let mut r: Vec<char> = Vec::new();
    let mut i: usize = 0;
    while i < line.len()
        invariant
            i <= line.len(),
            r@ == strip_backticks(line@.subrange(0, i as int)),
        decreases line.len() - i,
    {
        assert(line@.subrange(0, i + 1).drop_last() =~= line@.subrange(0, i as int));
        if line[i] != '`' {
            r.push(line[i]);
        }
        i = i + 1;
    }
    assert(line@.subrange(0, line@.len() as int) =~= line@);
    r
}

/// The lines of `text` cleaned for display.
pub fn cleaned_lines(text: &[char]) -> (r: Vec<Vec<char>>)
    ensures
        r.deep_view() == drop_blank_tail(unfenced_lines(split_lines(text@))),
{
    let ls = split_lines_exec(text);
    let f = fence_exec();
    let mut kept: Vec<Vec<char>> = Vec::new();
    let mut i: usize = 0;
    while i < ls.len()
        invariant
            i <= ls.len(),
            f@ == fence(),
            kept.deep_view() == unfenced_lines(ls.deep_view().subrange(0, i as int)),
        decreases ls.len() - i,
    {
        let ghost pre = ls.deep_view().subrange(0, i as int);
        assert(ls.deep_view().subrange(0, i + 1).drop_last() =~= pre);
        assert(ls.deep_view().subrange(0, i + 1).last() == ls[i as int]@);
        let line = ls[i].as_slice();
        let k = trim_start_from(line, 0);
        assert(line@.subrange(0, line@.len() as int) =~= line@);
        let rest = slice_vec(line, k, line.len());
        if !starts_with(&rest, &f) {
            let cleaned_line = strip_backticks_exec(line);
            let ghost before = kept.deep_view();
            assert(cleaned_line.deep_view() =~= cleaned_line@);
            kept.push(cleaned_line);
            assert(kept.deep_view() =~= before.push(strip_backticks(line@)));
        }
        i = i + 1;
    }
    assert(ls.deep_view().subrange(0, ls@.len() as int) =~= ls.deep_view());
    loop
        invariant
            drop_blank_tail(kept.deep_view()) == drop_blank_tail(
                unfenced_lines(split_lines(text@)),
            ),
        ensures
            kept.deep_view() == drop_blank_tail(unfenced_lines(split_lines(text@))),
        decreases kept.len(),
    {
        if kept.len() == 0 {
            break;
        }
        let last = kept.len() - 1;
        assert(kept.deep_view().last() == kept[last as int]@);
        if !is_blank_exec(kept[last].as_slice()) {
            break;
        }
        let ghost before = kept.deep_view();
        kept.pop();
        assert(kept.deep_view() =~= before.drop_last());
    }
    kept
}

fn fence_exec() -> (r: Vec<char>)
    ensures
        r@ == fence(),
{
    let r = vec!['`', '`', '`'];
    assert(r@ =~= fence());
    r
}

/// Comment text cleaned for display.
pub fn clean_comment_chars(text: &[char]) -> (r: Vec<char>)
    ensures
        r@ == cleaned(text@),
{
    let ls = cleaned_lines(text);
    let nl = vec!['\n'];
    assert(nl@ =~= seq!['\n']);
    join_exec(&ls, &nl)
}

/// Comment text for display: code-fence lines are dropped, backticks are
/// removed, trailing blank lines are dropped.
pub fn clean_comment_text(text: &str) -> (r: String)
    ensures
        r@ == cleaned(text@),
{
    let cs = chars_of(text);
    let out = clean_comment_chars(&cs);
    string_of(&out)
}

} // verus!
