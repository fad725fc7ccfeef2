//! What the library keeps of its input: the words of folded and wrapped
//! text, and every character of a styled line.
use vstd::prelude::*;
use crate::chars::{is_ws, split_lines, lines_from, line_end, lemma_line_end, strip_cr, trim_end, trim_start};
use crate::layout::{break_point, lemma_last_space_below, line_pieces, lines_pieces, room, wrap_pieces, wrapped, wrapped_cont};
use crate::chars::{find, has_prefix, lemma_find, lemma_trim_start_suffix, lemma_word_end, matches_at, word_end};
use crate::laws::lemma_trim_closing_end;
use crate::layout::LineView;
use crate::model::Comment;
use crate::spans::{lemma_link_start, lemma_trim_closing_prefix, line_spans, link_pieces, link_start, palette_slot, rail_width, Role, SpanView};
use crate::text::{http_scheme, https_scheme, is_closing_mark, is_web_link, trim_closing, flat_scan, flattened, fold_scan, folded, html_raw_text, html_text, newlines};

verus! {

/// `s` without its whitespace: the characters that folding and wrapping
/// must keep, in order.
pub open spec fn strip_ws(s: Seq<char>) -> Seq<char>
    decreases s.len(),
{
    if s.len() == 0 {
        seq![]
    } else if is_ws(s.last()) {
        strip_ws(s.drop_last())
    } else {
        strip_ws(s.drop_last()).push(s.last())
    }
}

/// The pieces `ps` one after the other.
pub open spec fn concat_all(ps: Seq<Seq<char>>) -> Seq<char>
    decreases ps.len(),
{
    if ps.len() == 0 {
        seq![]
    } else {
        concat_all(ps.drop_last()) + ps.last()
    }
}

pub proof fn lemma_strip_append(a: Seq<char>, b: Seq<char>)
    ensures
        strip_ws(a + b) == strip_ws(a) + strip_ws(b),
    decreases b.len(),
{
    if b.len() == 0 {
        assert(a + b =~= a);
        assert(strip_ws(a) + strip_ws(b) =~= strip_ws(a));
    } else {
        lemma_strip_append(a, b.drop_last());
        assert((a + b).drop_last() =~= a + b.drop_last());
        assert((a + b).last() == b.last());
        if !is_ws(b.last()) {
            assert(strip_ws(a) + strip_ws(b) =~= (strip_ws(a) + strip_ws(b.drop_last())).push(b.last()));
        }
    }
}

pub proof fn lemma_concat_append(a: Seq<Seq<char>>, b: Seq<Seq<char>>)
    ensures
        concat_all(a + b) == concat_all(a) + concat_all(b),
    decreases b.len(),
{
    if b.len() == 0 {
        assert(a + b =~= a);
        assert(concat_all(a) + concat_all(b) =~= concat_all(a));
    } else {
        lemma_concat_append(a, b.drop_last());
        assert((a + b).drop_last() =~= a + b.drop_last());
        assert((a + b).last() == b.last());
        assert(concat_all(a) + concat_all(b) =~= concat_all(a) + concat_all(b.drop_last()) + b.last());
    }
}

proof fn lemma_strip_all_ws(s: Seq<char>)
    requires
        forall|i: int| 0 <= i < s.len() ==> is_ws(#[trigger] s[i]),
    ensures
        strip_ws(s) == Seq::<char>::empty(),
    decreases s.len(),
{
    if s.len() > 0 {
        lemma_strip_all_ws(s.drop_last());
    }
}

proof fn lemma_newlines_ws(n: nat)
    ensures
        strip_ws(newlines(n)) == Seq::<char>::empty(),
    decreases n,
{
    if n > 0 {
        lemma_newlines_ws((n - 1) as nat);
        assert(newlines(n).drop_last() =~= newlines((n - 1) as nat));
    }
}

proof fn lemma_fold_scan_keeps(s: Seq<char>, n: int)
    requires
        0 <= n <= s.len(),
    ensures
        strip_ws(fold_scan(s, n).0) == strip_ws(s.subrange(0, n)),
    decreases n,
{
    if n > 0 {
        lemma_fold_scan_keeps(s, n - 1);
        let (out, space, nl) = fold_scan(s, n - 1);
        let c = s[n - 1];
        assert(s.subrange(0, n).drop_last() =~= s.subrange(0, n - 1));
        if c != '\n' && !is_ws(c) {
            let gap: Seq<char> = if nl == 0 && space {
                seq![' ']
            } else {
                seq![]
            };
            lemma_newlines_ws(nl);
            lemma_strip_append(out, newlines(nl));
            lemma_strip_append(out + newlines(nl), gap.push(c));
            assert(gap.push(c).drop_last() =~= gap);
            lemma_strip_all_ws(gap);
        }
    }
}

proof fn lemma_flat_scan_keeps(s: Seq<char>, n: int)
    requires
        0 <= n <= s.len(),
    ensures
        strip_ws(flat_scan(s, n).0) == strip_ws(s.subrange(0, n)),
    decreases n,
{
    if n > 0 {
        lemma_flat_scan_keeps(s, n - 1);
        let (out, space) = flat_scan(s, n - 1);
        let c = s[n - 1];
        assert(s.subrange(0, n).drop_last() =~= s.subrange(0, n - 1));
        if !is_ws(c) {
            if space {
                assert(out.push(' ').push(c).drop_last() =~= out.push(' '));
                assert(out.push(' ').drop_last() =~= out);
                assert(strip_ws(out.push(' ')) == strip_ws(out));
            } else {
                assert(out.push(c).drop_last() =~= out);
            }
        }
    }
}

/// Folding, with or without paragraph breaks, keeps every character that is
/// not whitespace, in order: only whitespace is dropped or changed.
pub proof fn law_folding_keeps_the_words(s: Seq<char>)
    ensures
        strip_ws(folded(s)) == strip_ws(s),
        strip_ws(flattened(s)) == strip_ws(s),
        strip_ws(html_text(s)) == strip_ws(html_raw_text(s, true)),
{
    lemma_fold_scan_keeps(s, s.len() as int);
    lemma_flat_scan_keeps(s, s.len() as int);
    assert(s.subrange(0, s.len() as int) =~= s);
    let raw = html_raw_text(s, true);
    lemma_fold_scan_keeps(raw, raw.len() as int);
    assert(raw.subrange(0, raw.len() as int) =~= raw);
}

proof fn lemma_strip_one(c: char)
    ensures
        is_ws(c) ==> strip_ws(seq![c]) == Seq::<char>::empty(),
        !is_ws(c) ==> strip_ws(seq![c]) == seq![c],
{
    let e = seq![c].drop_last();
    assert(e.len() == 0);
    assert(strip_ws(e) =~= Seq::<char>::empty());
    assert(seq![c].last() == c);
    assert(strip_ws(seq![c]) == (if is_ws(c) { strip_ws(e) } else { strip_ws(e).push(c) }));
    assert(strip_ws(e).push(c) =~= seq![c]);
}

proof fn lemma_concat_one(x: Seq<char>)
    ensures
        concat_all(seq![x]) == x,
{
    let e = seq![x].drop_last();
    assert(e.len() == 0);
    assert(concat_all(e) =~= Seq::<char>::empty());
    assert(seq![x].last() == x);
    assert(concat_all(seq![x]) == concat_all(e) + x);
    assert(concat_all(e) + x =~= x);
}

pub proof fn lemma_strip_trim_end(s: Seq<char>)
    ensures
        strip_ws(trim_end(s)) == strip_ws(s),
    decreases s.len(),
{
    if s.len() > 0 && is_ws(s.last()) {
        lemma_strip_trim_end(s.drop_last());
    }
}

pub proof fn lemma_strip_trim_start(s: Seq<char>)
    ensures
        strip_ws(trim_start(s)) == strip_ws(s),
    decreases s.len(),
{
    if s.len() > 0 && is_ws(s[0]) {
        lemma_strip_trim_start(s.drop_first());
        assert(s =~= seq![s[0]] + s.drop_first());
        lemma_strip_append(seq![s[0]], s.drop_first());
        lemma_strip_one(s[0]);
        assert(Seq::<char>::empty() + strip_ws(s.drop_first()) =~= strip_ws(s.drop_first()));
    }
}

pub proof fn lemma_strip_split(s: Seq<char>, k: int)
    requires
        0 <= k <= s.len(),
    ensures
        strip_ws(s) == strip_ws(s.subrange(0, k)) + strip_ws(s.subrange(k, s.len() as int)),
{
    assert(s =~= s.subrange(0, k) + s.subrange(k, s.len() as int));
    lemma_strip_append(s.subrange(0, k), s.subrange(k, s.len() as int));
}

pub proof fn lemma_concat_first(ps: Seq<Seq<char>>)
    requires
        ps.len() > 0,
    ensures
        concat_all(ps) == ps[0] + concat_all(ps.drop_first()),
{
    assert(ps =~= seq![ps[0]] + ps.drop_first());
    lemma_concat_append(seq![ps[0]], ps.drop_first());
    lemma_concat_one(ps[0]);
}

proof fn lemma_wrap_pieces_keep(rest: Seq<char>, avail: int)
    ensures
        strip_ws(concat_all(wrap_pieces(rest, avail))) == strip_ws(rest),
    decreases rest.len(),
{
    let ps = wrap_pieces(rest, avail);
    if rest.len() == 0 {
    } else if rest.len() <= avail || avail < 1 {
        lemma_concat_one(rest);
    } else {
        let k = break_point(rest, avail);
        lemma_last_space_below(rest, avail);
        lemma_trim_start_suffix(rest.subrange(k, rest.len() as int));
        let head = trim_end(rest.subrange(0, k));
        let next = trim_start(rest.subrange(k, rest.len() as int));
        lemma_wrap_pieces_keep(next, avail);
        assert(ps == seq![head] + wrap_pieces(next, avail));
        lemma_concat_first(ps);
        assert(ps.drop_first() =~= wrap_pieces(next, avail));
        lemma_strip_append(head, concat_all(wrap_pieces(next, avail)));
        lemma_strip_trim_end(rest.subrange(0, k));
        lemma_strip_trim_start(rest.subrange(k, rest.len() as int));
        lemma_strip_split(rest, k);
    }
}

proof fn lemma_line_pieces_keep(raw: Seq<char>, avail: int)
    ensures
        strip_ws(concat_all(line_pieces(raw, avail))) == strip_ws(raw),
{
    lemma_strip_trim_end(raw);
    let r = trim_end(raw);
    if r.len() == 0 {
        lemma_concat_one(Seq::<char>::empty());
    } else {
        lemma_wrap_pieces_keep(r, avail);
    }
}

proof fn lemma_lines_pieces_keep(ls: Seq<Seq<char>>, avail: int)
    ensures
        strip_ws(concat_all(lines_pieces(ls, avail))) == strip_ws(concat_all(ls)),
    decreases ls.len(),
{
    if ls.len() > 0 {
        lemma_lines_pieces_keep(ls.drop_last(), avail);
        lemma_line_pieces_keep(ls.last(), avail);
        lemma_concat_append(lines_pieces(ls.drop_last(), avail), line_pieces(ls.last(), avail));
        lemma_strip_append(concat_all(lines_pieces(ls.drop_last(), avail)), concat_all(line_pieces(ls.last(), avail)));
        lemma_strip_append(concat_all(ls.drop_last()), ls.last());
    }
}

proof fn lemma_lines_from_keep(s: Seq<char>, i: int)
    requires
        0 <= i <= s.len(),
    ensures
        strip_ws(concat_all(lines_from(s, i))) == strip_ws(s.subrange(i, s.len() as int)),
    decreases s.len() - i,
{
    if i < s.len() {
        let j = line_end(s, i);
        lemma_line_end(s, i);
        if j < s.len() {
            lemma_lines_from_keep(s, j + 1);
            let first = strip_cr(s.subrange(i, j));
            let ls = lines_from(s, i);
            lemma_concat_first(ls);
            assert(ls.drop_first() == lines_from(s, j + 1));
            lemma_strip_append(first, concat_all(lines_from(s, j + 1)));
            let x = s.subrange(i, j);
            if x.len() > 0 && x.last() == '\r' {
                assert(strip_ws(x) == strip_ws(x.drop_last()));
            }
            let t = s.subrange(i, s.len() as int);
            lemma_strip_split(t, j - i);
            let u = t.subrange(j - i, t.len() as int);
            lemma_strip_split(u, 1);
            assert(t.subrange(0, j - i) =~= x);
            assert(u.subrange(1, u.len() as int) =~= s.subrange(j + 1, s.len() as int));
            assert(u.subrange(0, 1) =~= seq!['\n']);
            lemma_strip_one('\n');
            assert(Seq::<char>::empty() + strip_ws(s.subrange(j + 1, s.len() as int)) =~= strip_ws(s.subrange(j + 1, s.len() as int)));
        } else {
            lemma_concat_one(s.subrange(i, s.len() as int));
        }
    } else {
        assert(s.subrange(i, s.len() as int) =~= Seq::<char>::empty());
    }
}

/// The bodies of the lines `text` takes after `prefix`: what follows the
/// prefix on each line.
pub open spec fn wrap_bodies(prefix: Seq<char>, text: Seq<char>, width: int) -> Seq<Seq<char>> {
    lines_pieces(split_lines(text), room(prefix, width))
}

/// Wrapping keeps the words: each wrapped line is the prefix followed by a
/// body, and the bodies hold every character of the text that is not
/// whitespace, in order.
pub proof fn law_wrapping_keeps_the_words(prefix: Seq<char>, text: Seq<char>, width: int, owner: Option<usize>)
    ensures
        wrapped(prefix, text, width, owner).len() == wrap_bodies(prefix, text, width).len(),
        forall|i: int| 0 <= i < wrapped(prefix, text, width, owner).len() ==> #[trigger] wrapped(prefix, text, width, owner)[i]
            == (prefix + wrap_bodies(prefix, text, width)[i], owner),
        strip_ws(concat_all(wrap_bodies(prefix, text, width))) == strip_ws(text),
{
    lemma_lines_pieces_keep(split_lines(text), room(prefix, width));
    lemma_lines_from_keep(text, 0);
    assert(text.subrange(0, text.len() as int) =~= text);
}

/// The bodies of the lines `text` takes when its first line comes after
/// one prefix and the later lines after another.
pub open spec fn cont_bodies(first: Seq<char>, cont: Seq<char>, text: Seq<char>, width: int) -> Seq<Seq<char>> {
    let ls = split_lines(text);
    if ls.len() == 0 {
        seq![]
    } else {
        let r = trim_end(ls[0]);
        let af = room(first, width);
        let ac = room(cont, width);
        let head: Seq<Seq<char>> = if r.len() == 0 {
            seq![seq![]]
        } else if r.len() <= af {
            seq![r]
        } else {
            let k = break_point(r, af);
            seq![trim_end(r.subrange(0, k))] + wrap_pieces(trim_start(r.subrange(k, r.len() as int)), ac)
        };
        head + lines_pieces(ls.drop_first(), ac)
    }
}

/// Wrapping with a continuation prefix keeps the words: the first line is
/// the first prefix followed by a body, every later line the continuation
/// prefix followed by a body, and the bodies hold every character of the
/// text that is not whitespace, in order.
pub proof fn law_continued_wrapping_keeps_the_words(first: Seq<char>, cont: Seq<char>, text: Seq<char>, width: int, owner: Option<usize>)
    ensures
        wrapped_cont(first, cont, text, width, owner).len() == cont_bodies(first, cont, text, width).len(),
        forall|i: int| 0 <= i < wrapped_cont(first, cont, text, width, owner).len() ==> #[trigger] wrapped_cont(first, cont, text, width, owner)[i]
            == ((if i == 0 { first } else { cont }) + cont_bodies(first, cont, text, width)[i], owner),
        strip_ws(concat_all(cont_bodies(first, cont, text, width))) == strip_ws(text),
{
    let ls = split_lines(text);
    lemma_lines_from_keep(text, 0);
    assert(text.subrange(0, text.len() as int) =~= text);
    if ls.len() > 0 {
        let r = trim_end(ls[0]);
        let af = room(first, width);
        let ac = room(cont, width);
        let rest = lines_pieces(ls.drop_first(), ac);
        lemma_lines_pieces_keep(ls.drop_first(), ac);
        lemma_concat_first(ls);
        lemma_strip_append(ls[0], concat_all(ls.drop_first()));
        lemma_strip_trim_end(ls[0]);
        let b = cont_bodies(first, cont, text, width);
        let w = wrapped_cont(first, cont, text, width, owner);
        if r.len() == 0 || r.len() <= af {
            let head: Seq<Seq<char>> = if r.len() == 0 { seq![seq![]] } else { seq![r] };
            assert(b == head + rest);
            lemma_concat_append(head, rest);
            lemma_concat_one(head[0]);
            assert(head =~= seq![head[0]]);
            lemma_strip_append(head[0], concat_all(rest));
            if r.len() == 0 {
                assert(first + Seq::<char>::empty() =~= first);
            }
            assert forall|i: int| 0 <= i < w.len() implies #[trigger] w[i]
                == ((if i == 0 { first } else { cont }) + b[i], owner) by {
                if i > 0 {
                    assert(b[i] == rest[i - 1]);
                }
            }
        } else {
            let k = break_point(r, af);
            lemma_last_space_below(r, af);
            lemma_trim_start_suffix(r.subrange(k, r.len() as int));
            let h = trim_end(r.subrange(0, k));
            let next = trim_start(r.subrange(k, r.len() as int));
            let tailp = wrap_pieces(next, ac);
            let head = seq![h] + tailp;
            assert(b == head + rest);
            lemma_concat_append(head, rest);
            lemma_concat_first(head);
            assert(head.drop_first() =~= tailp);
            lemma_wrap_pieces_keep(next, ac);
            lemma_strip_append(h, concat_all(tailp));
            lemma_strip_append(concat_all(head), concat_all(rest));
            lemma_strip_trim_end(r.subrange(0, k));
            lemma_strip_trim_start(r.subrange(k, r.len() as int));
            lemma_strip_split(r, k);
            assert forall|i: int| 0 <= i < w.len() implies #[trigger] w[i]
                == ((if i == 0 { first } else { cont }) + b[i], owner) by {
                if i == 0 {
                } else if i < 1 + tailp.len() {
                    assert(b[i] == tailp[i - 1]);
                } else {
                    assert(b[i] == rest[i - 1 - tailp.len()]);
                }
            }
        }
    }
}

/// The texts of `ps` one after the other.
pub open spec fn span_texts(ps: Seq<SpanView>) -> Seq<char>
    decreases ps.len(),
{
    if ps.len() == 0 {
        seq![]
    } else {
        span_texts(ps.drop_last()) + ps.last().0
    }
}

proof fn lemma_span_texts_append(a: Seq<SpanView>, b: Seq<SpanView>)
    ensures
        span_texts(a + b) == span_texts(a) + span_texts(b),
    decreases b.len(),
{
    if b.len() == 0 {
        assert(a + b =~= a);
        assert(span_texts(a) + span_texts(b) =~= span_texts(a));
    } else {
        lemma_span_texts_append(a, b.drop_last());
        assert((a + b).drop_last() =~= a + b.drop_last());
        assert((a + b).last() == b.last());
        assert(span_texts(a) + span_texts(b) =~= span_texts(a) + span_texts(b.drop_last()) + b.last().0);
    }
}

proof fn lemma_span_texts_one(p: SpanView)
    ensures
        span_texts(seq![p]) == p.0,
{
    let e = seq![p].drop_last();
    assert(e.len() == 0);
    assert(span_texts(e) =~= Seq::<char>::empty());
    assert(seq![p].last() == p);
    assert(span_texts(seq![p]) == span_texts(e) + p.0);
    assert(span_texts(e) + p.0 =~= p.0);
}

/// The pieces of a piece list are what link spans are made of: none is
/// empty, each is text or a link, and each link starts with `http://` or
/// `https://`.
pub open spec fn well_pieced(ps: Seq<SpanView>) -> bool {
    forall|k: int| 0 <= k < ps.len() ==> {
        &&& (#[trigger] ps[k]).0.len() > 0
        &&& (ps[k].1 == Role::Text || ps[k].1 == Role::Link)
        &&& ps[k].1 == Role::Link ==> link_shaped(ps[k].0)
    }
}

/// What a link piece looks like: a web link without whitespace that does
/// not end in closing punctuation.
pub open spec fn link_shaped(t: Seq<char>) -> bool {
    &&& is_web_link(t)
    &&& forall|m: int| 0 <= m < t.len() ==> !is_ws(#[trigger] t[m])
    &&& !is_closing_mark(t.last())
}

proof fn lemma_well_pieced_append(a: Seq<SpanView>, b: Seq<SpanView>)
    requires
        well_pieced(a),
        well_pieced(b),
    ensures
        well_pieced(a + b),
{
    assert forall|k: int| 0 <= k < (a + b).len() implies {
        &&& (#[trigger] (a + b)[k]).0.len() > 0
        &&& ((a + b)[k].1 == Role::Text || (a + b)[k].1 == Role::Link)
        &&& (a + b)[k].1 == Role::Link ==> link_shaped((a + b)[k].0)
    } by {
        if k < a.len() {
            assert((a + b)[k] == a[k]);
        } else {
            assert((a + b)[k] == b[k - a.len()]);
        }
    }
}

proof fn lemma_trim_closing_keeps(t: Seq<char>, m: int)
    requires
        0 <= m < t.len(),
        !is_closing_mark(t[m]),
    ensures
        trim_closing(t).len() > m,
    decreases t.len(),
{
    if t.len() > 0 && is_closing_mark(t.last()) {
        assert(m < t.len() - 1);
        lemma_trim_closing_keeps(t.drop_last(), m);
    }
}

proof fn lemma_link_token(text: Seq<char>, st: int)
    requires
        link_start(text) == Some(st),
    ensures
        0 <= st < text.len(),
        1 <= word_end(text.subrange(st, text.len() as int), 0) <= text.len() - st,
        trim_closing(text.subrange(st, text.len() as int).subrange(0, word_end(text.subrange(st, text.len() as int), 0))).len() > 0,
        link_shaped(trim_closing(text.subrange(st, text.len() as int).subrange(0, word_end(text.subrange(st, text.len() as int), 0)))),
        trim_closing(text.subrange(st, text.len() as int).subrange(0, word_end(text.subrange(st, text.len() as int), 0)))
            == text.subrange(st, text.len() as int).subrange(0, word_end(text.subrange(st, text.len() as int), 0)).subrange(
                0,
                trim_closing(text.subrange(st, text.len() as int).subrange(0, word_end(text.subrange(st, text.len() as int), 0))).len() as int,
            ),
{
            lemma_link_start(text);
            lemma_find(text, http_scheme());
            lemma_find(text, https_scheme());
            let tail = text.subrange(st, text.len() as int);
            let te = word_end(tail, 0);
            lemma_word_end(tail, 0);
            let token = tail.subrange(0, te);
            let url = trim_closing(token);
            lemma_trim_closing_prefix(token);
            let scheme = if find(text, http_scheme()) == Some(st) {
                http_scheme()
            } else {
                https_scheme()
            };
            assert(matches_at(text, scheme, st));
            assert forall|j: int| 0 <= j < scheme.len() implies tail[j] == scheme[j] by {
                assert(tail[j] == text[st + j]);
                assert(text.subrange(st, st + scheme.len())[j] == text[st + j]);
            }
            assert(!is_ws(tail[6]) && !is_ws(tail[0]));
            if te < scheme.len() {
                assert(is_ws(tail[te]));
                assert(tail[te] == scheme[te]);
            }
            assert(te >= scheme.len());
            assert(token[scheme.len() - 1] == '/');
            lemma_trim_closing_keeps(token, scheme.len() - 1);
            assert forall|j: int| 0 <= j < scheme.len() implies url[j] == scheme[j] by {
                assert(url[j] == token.subrange(0, url.len() as int)[j]);
                assert(token[j] == tail[j]);
            }
            assert(url.subrange(0, scheme.len() as int) =~= scheme);
            assert(is_web_link(url));
            lemma_trim_closing_end(token);
            assert forall|m: int| 0 <= m < url.len() implies !is_ws(#[trigger] url[m]) by {
                assert(url[m] == token.subrange(0, url.len() as int)[m]);
                assert(token[m] == tail[m]);
            }
}

proof fn lemma_piece_or_none(t: Seq<char>, role: Role, keep: bool)
    requires
        keep <==> t.len() > 0,
        role == Role::Text || role == Role::Link,
        role == Role::Link ==> link_shaped(t),
    ensures
        span_texts(if keep { seq![(t, role)] } else { Seq::<SpanView>::empty() }) == t,
        well_pieced(if keep { seq![(t, role)] } else { Seq::<SpanView>::empty() }),
{
    if keep {
        lemma_span_texts_one((t, role));
    } else {
        assert(span_texts(Seq::<SpanView>::empty()) =~= t);
    }
}

#[verifier::spinoff_prover]
#[verifier::rlimit(80)]
proof fn lemma_link_pieces(text: Seq<char>)
    ensures
        span_texts(link_pieces(text)) == text,
        well_pieced(link_pieces(text)),
    decreases text.len(),
{
    match link_start(text) {
        None => {
            lemma_piece_or_none(text, Role::Text, text.len() > 0);
        },
        Some(st) => {
            lemma_link_token(text, st);
            let tail = text.subrange(st, text.len() as int);
            let te = word_end(tail, 0);
            let token = tail.subrange(0, te);
            let url = trim_closing(token);
            lemma_trim_closing_prefix(token);
            let rest = tail.subrange(te, tail.len() as int);
            lemma_link_pieces(rest);
            let bt = text.subrange(0, st);
            let at = token.subrange(url.len() as int, token.len() as int);
            let before: Seq<SpanView> = if st > 0 { seq![(bt, Role::Text)] } else { seq![] };
            let link: Seq<SpanView> = seq![(url, Role::Link)];
            let after: Seq<SpanView> = if url.len() < token.len() { seq![(at, Role::Text)] } else { seq![] };
            lemma_piece_or_none(bt, Role::Text, st > 0);
            lemma_piece_or_none(url, Role::Link, true);
            lemma_piece_or_none(at, Role::Text, url.len() < token.len());
            assert(link_pieces(text) == before + link + after + link_pieces(rest));
            lemma_span_texts_append(before + link + after, link_pieces(rest));
            lemma_span_texts_append(before + link, after);
            lemma_span_texts_append(before, link);
            assert(url + at =~= token);
            assert(bt + token + rest =~= text);
            assert(bt + url + at + rest =~= text);
            lemma_well_pieced_append(before, link);
            lemma_well_pieced_append(before + link, after);
            lemma_well_pieced_append(before + link + after, link_pieces(rest));
        },
    }
}

/// The spans of a text with its links picked out put the text back
/// together: none is empty, each is text or a link, and each link starts
/// with `http://` or `https://`, holds no whitespace and does not end in
/// closing punctuation.
pub proof fn law_link_spans_cover_the_text(text: Seq<char>)
    ensures
        span_texts(link_pieces(text)) == text,
        forall|k: int| 0 <= k < link_pieces(text).len() ==> (#[trigger] link_pieces(text)[k]).0.len() > 0,
        forall|k: int| 0 <= k < link_pieces(text).len() ==> (#[trigger] link_pieces(text)[k]).1 == Role::Text
            || link_pieces(text)[k].1 == Role::Link,
        forall|k: int| 0 <= k < link_pieces(text).len() && (#[trigger] link_pieces(text)[k]).1 == Role::Link
            ==> link_shaped(link_pieces(text)[k].0),
{
    lemma_link_pieces(text);
}

/// Colouring a thread line never adds, drops or reorders a character: its
/// spans put the line back together.
proof fn lemma_header_body_spans(body: Seq<char>, author: Seq<char>, is_sel: bool)
    ensures
        span_texts(
            if is_sel && author.len() > 0 {
                if has_prefix(body, author) {
                    seq![(author, Role::Selected)] + link_pieces(body.subrange(author.len() as int, body.len() as int))
                } else {
                    link_pieces(body)
                }
            } else {
                match find(body, ": "@) {
                    Some(i) => seq![(body.subrange(0, i) + ": "@, Role::Author(palette_slot(author)))]
                        + link_pieces(body.subrange(i + ": "@.len(), body.len() as int)),
                    None => seq![(body, Role::Author(palette_slot(author)))],
                }
            },
        ) == body,
{
    if is_sel && author.len() > 0 {
        if has_prefix(body, author) {
            let r2 = body.subrange(author.len() as int, body.len() as int);
            lemma_span_texts_append(seq![(author, Role::Selected)], link_pieces(r2));
            lemma_span_texts_one((author, Role::Selected));
            lemma_link_pieces(r2);
            assert(author + r2 =~= body);
        } else {
            lemma_link_pieces(body);
        }
    } else {
        lemma_find(body, ": "@);
        match find(body, ": "@) {
            Some(i) => {
                let a = body.subrange(0, i) + ": "@;
                let r2 = body.subrange(i + ": "@.len(), body.len() as int);
                let slot = Role::Author(palette_slot(author));
                lemma_span_texts_append(seq![(a, slot)], link_pieces(r2));
                lemma_span_texts_one((a, slot));
                lemma_link_pieces(r2);
                assert(matches_at(body, ": "@, i));
                assert(body.subrange(0, i) + body.subrange(i, i + ": "@.len()) + r2 =~= body);
            },
            None => {
                lemma_span_texts_one((body, Role::Author(palette_slot(author))));
            },
        }
    }
}

/// Colouring a thread line never adds, drops or reorders a character: its
/// spans put the line back together.
pub proof fn law_line_spans_cover_the_line(line: LineView, cs: Seq<Comment>, selected: Option<usize>, header: bool)
    ensures
        span_texts(line_spans(line, cs, selected, header)) == line.0,
{
    let t = line.0;
    let sp = line_spans(line, cs, selected, header);
    if line.1 is None {
        assert(sp == seq![(t, Role::Rail)]);
        lemma_span_texts_one((t, Role::Rail));
    } else {
        let index = line.1->0;
        if index >= cs.len() {
            assert(sp == seq![(t, Role::Text)]);
            lemma_span_texts_one((t, Role::Text));
        } else {
            let c = cs[index as int];
            let is_sel = selected == Some(index);
            let w = rail_width(c.depth, header, is_sel);
            let k = if w < t.len() {
                w
            } else {
                t.len() as int
            };
            let prefix = t.subrange(0, k);
            let body = t.subrange(k, t.len() as int);
            let rail: Seq<SpanView> = if prefix.len() > 0 {
                seq![(prefix, Role::Rail)]
            } else {
                seq![]
            };
            if prefix.len() > 0 {
                lemma_span_texts_one((prefix, Role::Rail));
            } else {
                assert(span_texts(rail) =~= prefix);
            }
            let rest: Seq<SpanView> = if header {
                if is_sel && c.author@.len() > 0 {
                    if has_prefix(body, c.author@) {
                        seq![(c.author@, Role::Selected)] + link_pieces(body.subrange(c.author@.len() as int, body.len() as int))
                    } else {
                        link_pieces(body)
                    }
                } else {
                    match find(body, ": "@) {
                        Some(i) => seq![(body.subrange(0, i) + ": "@, Role::Author(palette_slot(c.author@)))]
                            + link_pieces(body.subrange(i + ": "@.len(), body.len() as int)),
                        None => seq![(body, Role::Author(palette_slot(c.author@)))],
                    }
                }
            } else {
                link_pieces(body)
            };
            assert(sp == rail + rest);
            lemma_span_texts_append(rail, rest);
            if header {
                lemma_header_body_spans(body, c.author@, is_sel);
            } else {
                lemma_link_pieces(body);
            }
            assert(prefix + body =~= t);
        }
    }
}

} // verus!
