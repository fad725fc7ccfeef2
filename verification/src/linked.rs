//! Wrapping comment text whose links are known by character ranges: each
//! wrapped line carries the part of each link that falls on it.
use vstd::prelude::*;
use crate::chars::{chars_of, has_prefix, lemma_trim_end_prefix, lemma_trim_start_suffix, push_all, slice_vec, string_of, trim_end, trim_end_to, trim_start, trim_start_from};
use crate::layout::{break_point, lemma_last_space_below, room, room_exec, split_width_chars, CommentLine};
use crate::content::{concat_all, lemma_concat_first, lemma_strip_append, lemma_strip_split, lemma_strip_trim_end, lemma_strip_trim_start, strip_ws};
use crate::spans::{clip_links, clipped, CommentLink, LinkView};

verus! {

/// A link in a line of text, over characters `start..end` of the line.
pub struct TextLink {
    pub start: usize,
    pub end: usize,
    pub url: String,
}

impl DeepView for TextLink {
    type V = LinkView;

    open spec fn deep_view(&self) -> LinkView {
        (self.start, self.end, self.url@)
    }
}

/// A line of text for a thread, with the links on it.
pub struct LinkedLine {
    pub line: CommentLine,
    pub links: Vec<CommentLink>,
}

/// What a linked line says: its text, its owner and its links.
pub type LinkedView = (Seq<char>, Option<usize>, Seq<LinkView>);

impl DeepView for LinkedLine {
    type V = LinkedView;

    open spec fn deep_view(&self) -> LinkedView {
        (self.line.text@, self.line.owner, self.links.deep_view())
    }
}

/// The links of a segment `start..end` of a line, counted from the start of
/// the segment and moved right by `shift` (the prefix before it).
pub open spec fn segment_links(links: Seq<LinkView>, start: int, end: int, shift: int) -> Seq<LinkView> {
    clip_links(links, start, end).map_values(|l: LinkView| ((l.0 + shift) as usize, (l.1 + shift) as usize, l.2))
}

/// The character ranges of `r` that its wrapped pieces cover, from
/// position `s` on: the first with room `now`, the later ones with room
/// `later`. Each piece is broken as `break_point` says and loses its
/// trailing whitespace; the next one starts after the whitespace that
/// follows the break.
pub open spec fn ranges_from(r: Seq<char>, s: int, now: int, later: int) -> Seq<(int, int)>
    decreases r.len() - s,
{
    if s < 0 || s >= r.len() {
        seq![]
    } else {
        let rest = r.subrange(s, r.len() as int);
        if rest.len() <= now || now < 1 || later < 1 {
            seq![(s, r.len() as int)]
        } else {
            let k = break_point(rest, now);
            proof {
                lemma_last_space_below(rest, now);
                lemma_trim_start_suffix(rest.subrange(k, rest.len() as int));
                lemma_trim_end_prefix(rest.subrange(0, k));
            }
            let h = trim_end(rest.subrange(0, k)).len();
            let s2 = r.len() - trim_start(rest.subrange(k, rest.len() as int)).len();
            seq![(s, s + h)] + ranges_from(r, s2, later, later)
        }
    }
}

/// The line a segment `a..b` of `r` makes after `prefix`.
pub open spec fn segment_line(prefix: Seq<char>, r: Seq<char>, links: Seq<LinkView>, owner: Option<usize>, ab: (int, int)) -> LinkedView {
    (prefix + r.subrange(ab.0, ab.1), owner, segment_links(links, ab.0, ab.1, prefix.len() as int))
}

/// The lines segments `rs` of `r` make: the first after `first`, the rest
/// after `cont`.
pub open spec fn segment_lines(first: Seq<char>, cont: Seq<char>, r: Seq<char>, links: Seq<LinkView>, owner: Option<usize>, rs: Seq<(int, int)>) -> Seq<LinkedView>
    decreases rs.len(),
{
    if rs.len() == 0 {
        seq![]
    } else {
        seq![segment_line(first, r, links, owner, rs[0])] + segment_lines(cont, cont, r, links, owner, rs.drop_first())
    }
}

/// The lines one line of text `raw` with links `links` takes, the first
/// after `first` and the rest after `cont`: a line that is blank once its
/// trailing whitespace is removed gives one line holding the prefix alone.
pub open spec fn line_linked(first: Seq<char>, cont: Seq<char>, raw: Seq<char>, links: Seq<LinkView>, width: int, owner: Option<usize>) -> Seq<LinkedView> {
    let r = trim_end(raw);
    if r.len() == 0 {
        seq![(first, owner, seq![])]
    } else {
        segment_lines(first, cont, r, links, owner, ranges_from(r, 0, room(first, width), room(cont, width)))
    }
}

/// The lines all of `text` takes: its first line after `first`, every
/// later line after `cont`.
pub open spec fn linked_wrapped(first: Seq<char>, cont: Seq<char>, text: Seq<(Seq<char>, Seq<LinkView>)>, width: int, owner: Option<usize>) -> Seq<LinkedView>
    decreases text.len(),
{
    if text.len() == 0 {
        seq![]
    } else {
        line_linked(first, cont, text[0].0, text[0].1, width, owner) + linked_wrapped(cont, cont, text.drop_first(), width, owner)
    }
}

proof fn lemma_clip_links_bounded(links: Seq<LinkView>, start: int, end: int, shift: int)
    requires
        0 <= start <= end,
    ensures
        forall|i: int| 0 <= i < clip_links(links, start, end).len() ==> {
            &&& (#[trigger] clip_links(links, start, end)[i]).1 <= end - start
            &&& clip_links(links, start, end)[i].0 <= clip_links(links, start, end)[i].1
        },
    decreases links.len(),
{
    if links.len() > 0 {
        lemma_clip_links_bounded(links.drop_last(), start, end, shift);
        let rest = clip_links(links.drop_last(), start, end);
        match clipped(links.last(), start, end) {
            Some(l) => {
                assert forall|i: int| 0 <= i < rest.push(l).len() implies {
                    &&& (#[trigger] rest.push(l)[i]).1 <= end - start
                    &&& rest.push(l)[i].0 <= rest.push(l)[i].1
                } by {
                    if i < rest.len() {
                        assert(rest.push(l)[i] == rest[i]);
                    }
                }
            },
            None => {},
        }
    }
}

/// Appends the line a piece `text` of a raw line makes after `prefix`; the
/// piece starts at character `start` of the raw line, and the line gets
/// the parts of `links` that fall on the piece, counted on the line.
pub fn push_wrapped_segment(
    lines: &mut Vec<LinkedLine>,
    owner: Option<usize>,
    prefix: &[char],
    links: &[TextLink],
    start: usize,
    text: &[char],
)
    requires
        start + text.len() + prefix.len() <= usize::MAX,
    ensures
        final(lines).deep_view() == old(lines).deep_view().push(
            (prefix@ + text@, owner, segment_links(links.deep_view(), start as int, start + text.len(), prefix.len() as int)),
        ),
{
    let end = start + text.len();
    let shift = prefix.len();
    let mut out: Vec<CommentLink> = Vec::new();
    let mut i: usize = 0;
    let ghost lv = links.deep_view();
    proof {
        lemma_clip_links_bounded(lv, start as int, end as int, shift as int);
    }
    while i < links.len()
        invariant
            i <= links.len(),
            lv == links.deep_view(),
            end == start + text.len(),
            shift == prefix.len(),
            end + shift <= usize::MAX,
            out.deep_view() == segment_links(lv.subrange(0, i as int), start as int, end as int, shift as int),
        decreases links.len() - i,
    {
        let l = &links[i];
        let ghost pre = lv.subrange(0, i as int);
        assert(lv.subrange(0, i + 1).drop_last() =~= pre);
        assert(lv.subrange(0, i + 1).last() == l.deep_view());
        assert(lv[i as int] == l.deep_view());
        let a = if l.start > start { l.start } else { start };
        let b = if l.end < end { l.end } else { end };
        if a < b {
            let ghost before = out.deep_view();
            out.push(CommentLink { start: a - start + shift, end: b - start + shift, url: l.url.clone() });
            assert(out.deep_view() =~= before.push(((a - start + shift) as usize, (b - start + shift) as usize, l.url@)));
        }
        assert(segment_links(lv.subrange(0, i + 1), start as int, end as int, shift as int) =~= out.deep_view());
        i = i + 1;
    }
    assert(lv.subrange(0, lv.len() as int) =~= lv);
    let mut t = slice_vec(prefix, 0, prefix.len());
    push_all(&mut t, text);
    assert(t@ =~= prefix@ + text@);
    let ghost before = lines.deep_view();
    lines.push(LinkedLine { line: CommentLine::new(string_of(&t), owner), links: out });
    assert(lines.deep_view() =~= before.push((prefix@ + text@, owner, segment_links(lv, start as int, end as int, shift as int))));
}

/// A line of text with the links on it.
pub struct TextLine {
    pub text: String,
    pub links: Vec<TextLink>,
}

impl DeepView for TextLine {
    type V = (Seq<char>, Seq<LinkView>);

    open spec fn deep_view(&self) -> (Seq<char>, Seq<LinkView>) {
        (self.text@, self.links.deep_view())
    }
}

fn push_ranges(
    lines: &mut Vec<LinkedLine>,
    owner: Option<usize>,
    first: &[char],
    cont: &[char],
    r: &[char],
    links: &[TextLink],
    now: usize,
    later: usize,
)
    requires
        now >= 1,
        later >= 1,
        r.len() + first.len() <= usize::MAX,
        r.len() + cont.len() <= usize::MAX,
    ensures
        final(lines).deep_view() == old(lines).deep_view() + segment_lines(
            first@,
            cont@,
            r@,
            links.deep_view(),
            owner,
            ranges_from(r@, 0, now as int, later as int),
        ),
{
    let ghost total = segment_lines(first@, cont@, r@, links.deep_view(), owner, ranges_from(r@, 0, now as int, later as int));
    let mut s: usize = 0;
    let mut avail = now;
    let mut use_first = true;
    loop
        invariant_except_break
            s <= r.len(),
            avail >= 1,
            later >= 1,
            use_first ==> avail == now,
            !use_first ==> avail == later,
            r.len() + first.len() <= usize::MAX,
            r.len() + cont.len() <= usize::MAX,
            lines.deep_view() + segment_lines(
                if use_first { first@ } else { cont@ },
                cont@,
                r@,
                links.deep_view(),
                owner,
                ranges_from(r@, s as int, avail as int, later as int),
            ) == old(lines).deep_view() + total,
        ensures
            lines.deep_view() == old(lines).deep_view() + total,
        decreases r.len() - s,
    {
        let ghost before = lines.deep_view();
        let ghost pv = if use_first { first@ } else { cont@ };
        let p: &[char] = if use_first { first } else { cont };
        assert(p@ == pv);
        if s >= r.len() {
            assert(before + segment_lines(pv, cont@, r@, links.deep_view(), owner, seq![]) =~= before);
            break;
        }
        let rest = slice_vec(r, s, r.len());
        if rest.len() <= avail {
            push_wrapped_segment(lines, owner, p, links, s, &rest);
            proof {
                let rs = ranges_from(r@, s as int, avail as int, later as int);
                assert(rs == seq![(s as int, r@.len() as int)]);
                assert(rs.drop_first() =~= Seq::<(int, int)>::empty());
                assert(segment_lines(cont@, cont@, r@, links.deep_view(), owner, rs.drop_first()) =~= Seq::<LinkedView>::empty());
                assert(lines.deep_view() =~= before + segment_lines(pv, cont@, r@, links.deep_view(), owner, rs));
            }
            break;
        }
        let k = split_width_chars(&rest, avail);
        proof {
            lemma_last_space_below(rest@, avail as int);
        }
        let h = trim_end_to(&rest, k);
        let ts = trim_start_from(&rest, k);
        proof {
            lemma_trim_end_prefix(rest@.subrange(0, k as int));
            lemma_trim_start_suffix(rest@.subrange(k as int, rest@.len() as int));
        }
        let piece = slice_vec(&rest, 0, h);
        push_wrapped_segment(lines, owner, p, links, s, &piece);
        proof {
            let rs = ranges_from(r@, s as int, avail as int, later as int);
            assert(rest@ == r@.subrange(s as int, r@.len() as int));
            assert(h == trim_end(rest@.subrange(0, k as int)).len());
            assert(rest@.subrange(ts as int, rest@.len() as int) == trim_start(rest@.subrange(k as int, rest@.len() as int)));
            assert(rs == seq![(s as int, s + h)] + ranges_from(r@, s + ts, later as int, later as int));
            assert(rs[0] == (s as int, s + h));
            assert(rs.drop_first() =~= ranges_from(r@, s + ts, later as int, later as int));
            assert(piece@ =~= r@.subrange(s as int, s + h));
            assert(lines.deep_view() == before.push(segment_line(pv, r@, links.deep_view(), owner, rs[0])));
            assert(before + segment_lines(pv, cont@, r@, links.deep_view(), owner, rs) =~= lines.deep_view()
                + segment_lines(cont@, cont@, r@, links.deep_view(), owner, rs.drop_first()));
        }
        s = s + ts;
        avail = later;
        use_first = false;
    }
}

/// Appends to `lines` the lines `text` takes on lines `width` characters
/// wide, all owned by `owner`: its first line after `first_prefix`, every
/// later one after `continuation_prefix`. Each line of `text` is wrapped on
/// its own, and each wrapped line carries the parts of its line's links
/// that fall on it.
pub fn push_wrapped_link_lines_with_continuation(
    lines: &mut Vec<LinkedLine>,
    owner: Option<usize>,
    first_prefix: &str,
    continuation_prefix: &str,
    text: &[TextLine],
    width: usize,
)
    requires
        forall|i: int| 0 <= i < text@.len() ==> (#[trigger] text@[i]).text@.len() + first_prefix@.len()
            + continuation_prefix@.len() <= usize::MAX,
    ensures
        final(lines).deep_view() == old(lines).deep_view() + linked_wrapped(
            first_prefix@,
            continuation_prefix@,
            text.deep_view(),
            width as int,
            owner,
        ),
{
    let f = chars_of(first_prefix);
    let c = chars_of(continuation_prefix);
    let ac = room_exec(&c, width);
    let ghost tv = text.deep_view();
    let mut use_first = true;
    let mut i: usize = 0;
    assert(tv.subrange(0, tv.len() as int) =~= tv);
    while i < text.len()
        invariant
            i <= text.len(),
            tv == text.deep_view(),
            ac == room(c@, width as int),
            ac >= 1,
            f@ == first_prefix@,
            c@ == continuation_prefix@,
            i > 0 ==> !use_first,
            i == 0 ==> use_first,
            forall|j: int| 0 <= j < text@.len() ==> (#[trigger] text@[j]).text@.len() + first_prefix@.len()
                + continuation_prefix@.len() <= usize::MAX,
            lines.deep_view() + linked_wrapped(if use_first { f@ } else { c@ }, c@, tv.subrange(i as int, tv.len() as int), width as int, owner)
                == old(lines).deep_view() + linked_wrapped(f@, c@, tv, width as int, owner),
        decreases text.len() - i,
    {
        let ghost before = lines.deep_view();
        let ghost pv = if use_first { f@ } else { c@ };
        let p: &[char] = if use_first { &f } else { &c };
        let item = &text[i];
        assert(tv[i as int] == item.deep_view());
        let raw = chars_of(item.text.as_str());
        let e = trim_end_to(&raw, raw.len());
        assert(raw@.subrange(0, raw@.len() as int) =~= raw@);
        let r = slice_vec(&raw, 0, e);
        assert(r@ == trim_end(raw@));
        let now = room_exec(p, width);
        let ghost rest_t = tv.subrange(i as int, tv.len() as int);
        assert(rest_t[0] == tv[i as int]);
        assert(rest_t.drop_first() =~= tv.subrange(i + 1, tv.len() as int));
        if e == 0 {
            let ghost b2 = lines.deep_view();
            let no_links: Vec<CommentLink> = Vec::new();
            assert(no_links.deep_view() =~= Seq::<LinkView>::empty());
            let ll = LinkedLine { line: CommentLine::new(string_of(p), owner), links: no_links };
            assert(ll.deep_view() == (pv, owner, Seq::<LinkView>::empty()));
            lines.push(ll);
            assert(lines.deep_view() =~= b2.push((pv, owner, Seq::<LinkView>::empty())));
            assert(line_linked(pv, c@, raw@, item.links.deep_view(), width as int, owner) =~= seq![(pv, owner, Seq::<LinkView>::empty())]);
        } else {
            push_ranges(lines, owner, p, &c, &r, item.links.as_slice(), now, ac);
        }
        assert(lines.deep_view() == before + line_linked(pv, c@, rest_t[0].0, rest_t[0].1, width as int, owner));
        assert(before + linked_wrapped(pv, c@, rest_t, width as int, owner) =~= lines.deep_view()
            + linked_wrapped(c@, c@, rest_t.drop_first(), width as int, owner));
        use_first = false;
        i = i + 1;
    }
    assert(lines.deep_view() + linked_wrapped(if use_first { f@ } else { c@ }, c@, tv.subrange(i as int, tv.len() as int), width as int, owner)
        =~= lines.deep_view()) by {
        assert(tv.subrange(i as int, tv.len() as int) =~= Seq::<(Seq<char>, Seq<LinkView>)>::empty());
    }
}

/// The pieces of `r` that ranges `rs` cover.
pub open spec fn range_pieces(r: Seq<char>, rs: Seq<(int, int)>) -> Seq<Seq<char>> {
    rs.map_values(|ab: (int, int)| r.subrange(ab.0, ab.1))
}

proof fn lemma_ranges_from(r: Seq<char>, s: int, now: int, later: int)
    requires
        0 <= s <= r.len(),
    ensures
        forall|j: int| 0 <= j < ranges_from(r, s, now, later).len() ==> {
            let ab = #[trigger] ranges_from(r, s, now, later)[j];
            s <= ab.0 <= ab.1 <= r.len()
        },
        strip_ws(concat_all(range_pieces(r, ranges_from(r, s, now, later)))) == strip_ws(r.subrange(s, r.len() as int)),
    decreases r.len() - s,
{
    let rs = ranges_from(r, s, now, later);
    if s >= r.len() {
        assert(range_pieces(r, rs) =~= Seq::<Seq<char>>::empty());
        assert(r.subrange(s, r.len() as int) =~= Seq::<char>::empty());
        assert(strip_ws(Seq::<char>::empty()) =~= Seq::<char>::empty());
    } else {
        let rest = r.subrange(s, r.len() as int);
        if rest.len() <= now || now < 1 || later < 1 {
            assert(range_pieces(r, rs) =~= seq![rest]);
            lemma_concat_first(seq![rest]);
            assert(seq![rest].drop_first() =~= Seq::<Seq<char>>::empty());
            assert(concat_all(Seq::<Seq<char>>::empty()) =~= Seq::<char>::empty());
            assert(rest + Seq::<char>::empty() =~= rest);
        } else {
            let k = break_point(rest, now);
            lemma_last_space_below(rest, now);
            let t = rest.subrange(k, rest.len() as int);
            lemma_trim_start_suffix(t);
            lemma_trim_end_prefix(rest.subrange(0, k));
            let h = trim_end(rest.subrange(0, k)).len();
            let s2 = r.len() - trim_start(t).len();
            lemma_ranges_from(r, s2, later, later);
            let tail = ranges_from(r, s2, later, later);
            assert(rs == seq![(s, s + h)] + tail);
            let ps = range_pieces(r, rs);
            assert(ps =~= seq![r.subrange(s, s + h)] + range_pieces(r, tail));
            lemma_concat_first(ps);
            assert(ps.drop_first() =~= range_pieces(r, tail));
            lemma_strip_append(r.subrange(s, s + h), concat_all(range_pieces(r, tail)));
            assert(r.subrange(s, s + h) =~= trim_end(rest.subrange(0, k)));
            lemma_strip_trim_end(rest.subrange(0, k));
            assert(r.subrange(s2, r.len() as int) =~= trim_start(t));
            lemma_strip_trim_start(t);
            lemma_strip_split(rest, k);
            assert forall|j: int| 0 <= j < rs.len() implies {
                let ab = #[trigger] rs[j];
                s <= ab.0 <= ab.1 <= r.len()
            } by {
                if j > 0 {
                    assert(rs[j] == tail[j - 1]);
                }
            }
        }
    }
}

proof fn lemma_segment_lines_index(first: Seq<char>, cont: Seq<char>, r: Seq<char>, links: Seq<LinkView>, owner: Option<usize>, rs: Seq<(int, int)>)
    ensures
        segment_lines(first, cont, r, links, owner, rs).len() == rs.len(),
        forall|j: int| 0 <= j < rs.len() ==> #[trigger] segment_lines(first, cont, r, links, owner, rs)[j]
            == segment_line(if j == 0 { first } else { cont }, r, links, owner, rs[j]),
    decreases rs.len(),
{
    if rs.len() > 0 {
        lemma_segment_lines_index(cont, cont, r, links, owner, rs.drop_first());
        let l = segment_lines(first, cont, r, links, owner, rs);
        assert forall|j: int| 0 <= j < rs.len() implies #[trigger] l[j]
            == segment_line(if j == 0 { first } else { cont }, r, links, owner, rs[j]) by {
            if j > 0 {
                assert(l[j] == segment_lines(cont, cont, r, links, owner, rs.drop_first())[j - 1]);
                assert(rs.drop_first()[j - 1] == rs[j]);
            }
        }
    }
}

/// One line of text with links, wrapped: a line blank once its trailing
/// whitespace is removed gives the first prefix alone, without links;
/// otherwise each wrapped line is its prefix (the first prefix, then the
/// continuation prefix) followed by a range of the line, the ranges lie in
/// order inside the line, each wrapped line carries exactly the parts of
/// the links that overlap its range, counted on the wrapped line, and the
/// ranges together hold every character of the line that is not
/// whitespace, in order.
pub proof fn law_linked_line(first: Seq<char>, cont: Seq<char>, raw: Seq<char>, links: Seq<LinkView>, width: int, owner: Option<usize>)
    ensures
        ({
            let l = line_linked(first, cont, raw, links, width, owner);
            let r = trim_end(raw);
            let rs = ranges_from(r, 0, room(first, width), room(cont, width));
            &&& r.len() == 0 ==> l == seq![(first, owner, Seq::<LinkView>::empty())]
            &&& r.len() > 0 ==> {
                &&& l.len() == rs.len()
                &&& forall|j: int| 0 <= j < rs.len() ==> {
                    let ab = #[trigger] rs[j];
                    let p = if j == 0 { first } else { cont };
                    &&& 0 <= ab.0 <= ab.1 <= r.len()
                    &&& j > 0 ==> rs[j - 1].1 <= ab.0
                    &&& l[j] == (p + r.subrange(ab.0, ab.1), owner, segment_links(links, ab.0, ab.1, p.len() as int))
                }
                &&& strip_ws(concat_all(range_pieces(r, rs))) == strip_ws(raw)
            }
        }),
{
    let r = trim_end(raw);
    lemma_strip_trim_end(raw);
    if r.len() > 0 {
        let rs = ranges_from(r, 0, room(first, width), room(cont, width));
        lemma_ranges_from(r, 0, room(first, width), room(cont, width));
        lemma_ranges_ordered(r, 0, room(first, width), room(cont, width));
        lemma_segment_lines_index(first, cont, r, links, owner, rs);
        assert(r.subrange(0, r.len() as int) =~= r);
    }
}

proof fn lemma_ranges_ordered(r: Seq<char>, s: int, now: int, later: int)
    requires
        0 <= s <= r.len(),
    ensures
        forall|j: int| 0 < j < ranges_from(r, s, now, later).len() ==> ranges_from(r, s, now, later)[j - 1].1
            <= (#[trigger] ranges_from(r, s, now, later)[j]).0,
    decreases r.len() - s,
{
    let rs = ranges_from(r, s, now, later);
    if s < r.len() {
        let rest = r.subrange(s, r.len() as int);
        if !(rest.len() <= now || now < 1 || later < 1) {
            let k = break_point(rest, now);
            lemma_last_space_below(rest, now);
            let t = rest.subrange(k, rest.len() as int);
            lemma_trim_start_suffix(t);
            lemma_trim_end_prefix(rest.subrange(0, k));
            let h = trim_end(rest.subrange(0, k)).len();
            let s2 = r.len() - trim_start(t).len();
            lemma_ranges_ordered(r, s2, later, later);
            lemma_ranges_from(r, s2, later, later);
            let tail = ranges_from(r, s2, later, later);
            assert forall|j: int| 0 < j < rs.len() implies rs[j - 1].1 <= (#[trigger] rs[j]).0 by {
                assert(rs[j] == tail[j - 1]);
                if j > 1 {
                    assert(rs[j - 1] == tail[j - 2]);
                }
            }
        }
    }
}

/// Wrapped lines with links belong to their owner; the first starts with
/// the first prefix and every later one with the continuation prefix.
pub proof fn law_linked_lines_prefixes(first: Seq<char>, cont: Seq<char>, text: Seq<(Seq<char>, Seq<LinkView>)>, width: int, owner: Option<usize>)
    ensures
        forall|k: int| 0 <= k < linked_wrapped(first, cont, text, width, owner).len() ==> {
            let l = #[trigger] linked_wrapped(first, cont, text, width, owner)[k];
            &&& l.1 == owner
            &&& has_prefix(l.0, if k == 0 { first } else { cont })
        },
    decreases text.len(),
{
    if text.len() > 0 {
        law_linked_lines_prefixes(cont, cont, text.drop_first(), width, owner);
        let a = line_linked(first, cont, text[0].0, text[0].1, width, owner);
        let b = linked_wrapped(cont, cont, text.drop_first(), width, owner);
        let r = trim_end(text[0].0);
        if r.len() > 0 {
            let rs = ranges_from(r, 0, room(first, width), room(cont, width));
            lemma_segment_lines_index(first, cont, r, text[0].1, owner, rs);
        }
        assert forall|k: int| 0 <= k < (a + b).len() implies {
            let l = #[trigger] (a + b)[k];
            &&& l.1 == owner
            &&& has_prefix(l.0, if k == 0 { first } else { cont })
        } by {
            if k < a.len() {
                assert((a + b)[k] == a[k]);
                let p = if k == 0 { first } else { cont };
                if r.len() > 0 {
                    let rs = ranges_from(r, 0, room(first, width), room(cont, width));
                    let x = r.subrange(rs[k].0, rs[k].1);
                    assert((p + x).subrange(0, p.len() as int) =~= p);
                } else {
                    assert(first.subrange(0, first.len() as int) =~= first);
                }
            } else {
                assert((a + b)[k] == b[k - a.len()]);
                assert(a.len() > 0) by {
                    if r.len() > 0 {
                        let rs = ranges_from(r, 0, room(first, width), room(cont, width));
                        assert(rs.len() > 0);
                    }
                }
            }
        }
    }
}

} // verus!
