//! The reading rules of the library stated in plain terms: which tags break
//! paragraphs, how an attribute's value is read, and where a line breaks.
use vstd::prelude::*;
use crate::chars::{find, has_prefix, is_ascii_ws, is_ws, lemma_find, matches_at};
use crate::hn::attr_value;
use crate::layout::{break_point, lemma_last_space_below};
use crate::text::{is_break_tag, names_tag};

verus! {

/// The two ways a tag opens: `<` and `</`.
pub open spec fn tag_openers() -> Seq<Seq<char>> {
    seq![seq!['<'], seq!['<', '/']]
}

/// The names of the tags that break paragraphs.
pub open spec fn break_names() -> Seq<Seq<char>> {
    seq![seq!['p'], seq!['b', 'r'], seq!['d', 'i', 'v'], seq!['l', 'i'], seq!['p', 'r', 'e']]
}

/// `tag` starts with `lead`, and the character right after it is `>`, `/`
/// or ASCII whitespace.
pub open spec fn opens_with(tag: Seq<char>, lead: Seq<char>) -> bool {
    &&& has_prefix(tag, lead)
    &&& tag.len() > lead.len()
    &&& {
        let c = tag[lead.len() as int];
        c == '>' || c == '/' || is_ascii_ws(c)
    }
}

proof fn lemma_opens_with(tag: Seq<char>, s: Seq<char>, n: Seq<char>)
    requires
        has_prefix(tag, s),
    ensures
        opens_with(tag, s + n) <==> names_tag(tag.subrange(s.len() as int, tag.len() as int), n),
{
    let u = tag.subrange(s.len() as int, tag.len() as int);
    if has_prefix(u, n) {
        assert(tag.subrange(0, (s + n).len() as int) =~= s + n) by {
            assert(tag.subrange(0, s.len() as int) == s);
            assert(u.subrange(0, n.len() as int) == n);
        }
    }
    if has_prefix(tag, s + n) {
        assert(u.subrange(0, n.len() as int) =~= n) by {
            assert forall|j: int| 0 <= j < n.len() implies u.subrange(0, n.len() as int)[j] == n[j] by {
                assert(tag.subrange(0, (s + n).len() as int)[s.len() + j] == (s + n)[s.len() + j]);
            }
        }
    }
    if u.len() > n.len() {
        assert(u.subrange(n.len() as int, u.len() as int)[0] == tag[(s + n).len() as int]);
    }
}

/// A tag breaks a paragraph exactly when it starts with `<` or `</`, then
/// one of `p`, `br`, `div`, `li`, `pre`, followed by `>`, `/` or ASCII
/// whitespace.
pub proof fn law_break_tags(tag: Seq<char>)
    ensures
        is_break_tag(tag) <==> exists|a: int, b: int|
            0 <= a < 2 && 0 <= b < 5 && #[trigger] opens_with(tag, tag_openers()[a] + break_names()[b]),
{
    let ns = break_names();
    let os = tag_openers();
    if tag.len() > 0 && tag[0] == '<' {
        let u0 = tag.drop_first();
        assert(has_prefix(tag, os[0])) by {
            assert(tag.subrange(0, 1) =~= os[0]);
        }
        assert(u0 =~= tag.subrange(1, tag.len() as int));
        if u0.len() > 0 && u0[0] == '/' {
            let u = u0.drop_first();
            assert(has_prefix(tag, os[1])) by {
                assert(tag.subrange(0, 2) =~= os[1]);
            }
            assert(u =~= tag.subrange(2, tag.len() as int));
            assert forall|b: int| 0 <= b < 5 implies (opens_with(tag, os[1] + ns[b]) <==> names_tag(u, ns[b]))
                && !opens_with(tag, os[0] + ns[b]) by {
                lemma_opens_with(tag, os[1], ns[b]);
                lemma_opens_with(tag, os[0], ns[b]);
                assert(ns[b][0] != '/');
                if has_prefix(u0, ns[b]) {
                    assert(u0[0] == ns[b][0]);
                }
            }
            if is_break_tag(tag) {
                let b = if names_tag(u, ns[0]) { 0int } else if names_tag(u, ns[1]) { 1 } else if names_tag(u, ns[2]) { 2 } else if names_tag(u, ns[3]) { 3 } else { 4 };
                assert(opens_with(tag, os[1] + ns[b]));
            }
            if exists|a: int, b: int| 0 <= a < 2 && 0 <= b < 5 && #[trigger] opens_with(tag, os[a] + ns[b]) {
                let (a, b) = choose|a: int, b: int| 0 <= a < 2 && 0 <= b < 5 && #[trigger] opens_with(tag, os[a] + ns[b]);
                assert(a == 1);
                assert(names_tag(u, ns[b]));
            }
        } else {
            assert forall|b: int| 0 <= b < 5 implies (opens_with(tag, os[0] + ns[b]) <==> names_tag(u0, ns[b]))
                && !opens_with(tag, os[1] + ns[b]) by {
                lemma_opens_with(tag, os[0], ns[b]);
                if has_prefix(tag, os[1] + ns[b]) {
                    assert(tag.subrange(0, (os[1] + ns[b]).len() as int)[1] == tag[1]);
                    assert((os[1] + ns[b])[1] == '/');
                    assert(u0[0] == tag[1]);
                }
            }
            if is_break_tag(tag) {
                let b = if names_tag(u0, ns[0]) { 0int } else if names_tag(u0, ns[1]) { 1 } else if names_tag(u0, ns[2]) { 2 } else if names_tag(u0, ns[3]) { 3 } else { 4 };
                assert(opens_with(tag, os[0] + ns[b]));
            }
            if exists|a: int, b: int| 0 <= a < 2 && 0 <= b < 5 && #[trigger] opens_with(tag, os[a] + ns[b]) {
                let (a, b) = choose|a: int, b: int| 0 <= a < 2 && 0 <= b < 5 && #[trigger] opens_with(tag, os[a] + ns[b]);
                assert(a == 0);
                assert(names_tag(u0, ns[b]));
            }
        }
    } else {
        assert forall|a: int, b: int| 0 <= a < 2 && 0 <= b < 5 implies !#[trigger] opens_with(tag, os[a] + ns[b]) by {
            if has_prefix(tag, os[a] + ns[b]) {
                assert(tag.subrange(0, (os[a] + ns[b]).len() as int)[0] == tag[0]);
                assert((os[a] + ns[b])[0] == '<');
            }
        }
    }
}

/// An attribute's value is read after the first occurrence of the
/// attribute's name: there must follow `=`, a quote, the value, and the
/// same quote again, the value holding no such quote; otherwise there is no
/// value.
pub proof fn law_attribute_values(html: Seq<char>, attr: Seq<char>, v: Seq<char>)
    ensures
        attr_value(html, attr) == Some(v) <==> match find(html, attr) {
            Some(k) => {
                let p = k + attr.len();
                &&& p + 2 + v.len() < html.len()
                &&& html[p] == '='
                &&& (html[p + 1] == '"' || html[p + 1] == '\'')
                &&& html.subrange(p + 2, p + 2 + v.len()) == v
                &&& !v.contains(html[p + 1])
                &&& html[p + 2 + v.len()] == html[p + 1]
            },
            None => false,
        },
{
    lemma_find(html, attr);
    match find(html, attr) {
        None => {},
        Some(k) => {
            let p = k + attr.len();
            let v0 = html.subrange(p, html.len() as int);
            if v0.len() > 0 && v0[0] == '=' {
                let vv = v0.drop_first();
                if vv.len() > 0 && (vv[0] == '"' || vv[0] == '\'') {
                    let q = vv[0];
                    let w = vv.drop_first();
                    assert(w =~= html.subrange(p + 2, html.len() as int));
                    assert(q == html[p + 1]);
                    lemma_find(w, seq![q]);
                    match find(w, seq![q]) {
                        Some(e) => {
                            assert(w.subrange(e, e + 1)[0] == w[e]);
                            if attr_value(html, attr) == Some(v) {
                                assert(v == w.subrange(0, e));
                                assert(html.subrange(p + 2, p + 2 + v.len()) =~= v);
                                assert(html[p + 2 + v.len()] == w[e]);
                                if v.contains(q) {
                                    let j = choose|j: int| 0 <= j < v.len() && v[j] == q;
                                    assert(w.subrange(j, j + 1) =~= seq![q]);
                                    assert(matches_at(w, seq![q], j));
                                }
                            }
                            if p + 2 + v.len() < html.len() && html.subrange(p + 2, p + 2 + v.len()) == v
                                && !v.contains(q) && html[p + 2 + v.len()] == q {
                                assert(w[v.len() as int] == q);
                                assert(w.subrange(v.len() as int, v.len() as int + 1) =~= seq![q]);
                                assert(matches_at(w, seq![q], v.len() as int));
                                if e < v.len() {
                                    assert(v[e] == w[e]);
                                }
                                assert(e == v.len());
                                assert(w.subrange(0, e) =~= v);
                            }
                        },
                        None => {
                            if p + 2 + v.len() < html.len() && html[p + 2 + v.len()] == q {
                                assert(w.subrange(v.len() as int, v.len() as int + 1) =~= seq![q]);
                                assert(matches_at(w, seq![q], v.len() as int));
                            }
                        },
                    }
                }
            }
        },
    }
}

proof fn lemma_encode_utf8_len(s: Seq<char>)
    ensures
        vstd::utf8::encode_utf8(s).len() >= s.len(),
    decreases s.len(),
{
    if s.len() > 0 {
        lemma_encode_utf8_len(s.drop_first());
        assert(vstd::utf8::encode_scalar(s[0] as u32).len() >= 1);
    }
}

/// Where a line breaks to fit `width` characters: the whole text when it is
/// short enough; else at the last whitespace before character `width` (but
/// not at the start), else at character `width`. The break is at a
/// character, so as a byte offset (the UTF-8 length of what comes before)
/// it falls on a character boundary, and it is past the start for a
/// non-empty text and a width of at least one.
pub proof fn law_line_breaks(t: Seq<char>, width: int)
    ensures
        ({
            let k = break_point(t, width);
            &&& 0 <= k <= t.len() || width < 0
            &&& t.len() <= width ==> k == t.len()
            &&& 0 <= width < t.len() ==> {
                ||| (1 <= k < width && is_ws(t[k]) && forall|m: int| k < m < width ==> !is_ws(#[trigger] t[m]))
                ||| (k == width && forall|m: int| 1 <= m < width ==> !is_ws(#[trigger] t[m]))
            }
            &&& width >= 1 && t.len() > 0 ==> k > 0 && vstd::utf8::encode_utf8(t.subrange(0, k)).len() > 0
        }),
{
    let k = break_point(t, width);
    if width < t.len() {
        lemma_last_space_below(t, width);
    }
    if width >= 1 && t.len() > 0 {
        lemma_encode_utf8_len(t.subrange(0, k));
    }
}

} // verus!
