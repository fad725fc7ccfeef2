//! What the screen says about posts: the list entries, the header above a
//! discussion, the title bar and the status bar.
use vstd::prelude::*;
use crate::chars::{chars_of, decimal, join, join_exec, push_all, push_decimal, split_lines, split_lines_exec};
use crate::model::{Mode, Post, PostView, Source};
use crate::spans::{link_pieces, push_link_pieces, Role, Span, SpanView};
use crate::text::{clean_comment_chars, cleaned};

verus! {

/// Where a post leads: its link, or its discussion when it has none.
pub open spec fn post_link(p: PostView) -> Seq<char> {
    match p.url {
        Some(u) => u,
        None => p.discussion_url,
    }
}

/// The decimal representation of a signed number, with a minus sign when
/// it is negative.
pub open spec fn signed_decimal(n: i64) -> Seq<char> {
    if n < 0 {
        seq!['-'] + decimal((-n) as nat)
    } else {
        decimal(n as nat)
    }
}

/// The lines of the header above a discussion: the post's title; its
/// author, score, comment count and id; its link; and, when it has text
/// that is not empty once cleaned, a blank line and that text line by line
/// with its links picked out. Without a post, a single muted line.
pub open spec fn header_lines(post: Option<PostView>) -> Seq<Seq<SpanView>> {
    match post {
        None => seq![seq![("No post selected"@, Role::Muted)]],
        Some(p) => {
            let base = seq![
                seq![(p.title, Role::Title)],
                seq![
                    ("by "@, Role::Muted),
                    (p.author, Role::Byline),
                    (" | "@, Role::Muted),
                    (signed_decimal(p.score) + " points"@, Role::Score),
                    (" | "@, Role::Muted),
                    (decimal(p.comment_count as nat) + " comments"@, Role::Count),
                    (" | id "@, Role::Muted),
                    (p.id, Role::Tag),
                ],
                seq![("url: "@, Role::Muted), (post_link(p), Role::Link)],
            ];
            match p.text {
                Some(t) => if cleaned(t).len() > 0 {
                    base + seq![Seq::<SpanView>::empty()] + split_lines(cleaned(t)).map_values(
                        |l: Seq<char>| link_pieces(l),
                    )
                } else {
                    base
                },
                None => base,
            }
        },
    }
}

/// The two lines of a post in the list: its title; then its score, comment
/// count, author and link, and its tags when it has any.
pub open spec fn list_item_lines(p: PostView) -> Seq<Seq<SpanView>> {
    let meta = seq![
        ("  "@ + signed_decimal(p.score) + " points"@, Role::Score),
        (" | "@, Role::Muted),
        (decimal(p.comment_count as nat) + " comments"@, Role::Count),
        (" | by "@, Role::Muted),
        (p.author, Role::Byline),
        (" | "@, Role::Muted),
        (post_link(p), Role::Link),
    ];
    seq![
        seq![(p.title, Role::Title)],
        if p.tags.len() > 0 {
            meta + seq![(" | tags: "@, Role::Muted), (join(p.tags, ", "@), Role::Tag)]
        } else {
            meta
        },
    ]
}

/// A post as the list shows it; entries at even positions are shaded.
pub struct PostItem {
    pub lines: Vec<Vec<Span>>,
    pub shaded: bool,
}

fn span_of_chars(text: &[char], role: Role) -> (r: Span)
    ensures
        r.deep_view() == (text@, role),
{
    Span { text: crate::chars::string_of(text), role }
}

fn span_of_str(text: &str, role: Role) -> (r: Span)
    ensures
        r.deep_view() == (text@, role),
{
    Span { text: text.to_string(), role }
}

fn push_signed_decimal(out: &mut Vec<char>, n: i64)
    ensures
        final(out)@ == old(out)@ + signed_decimal(n),
{
    if n < 0 {
        out.push('-');
        let ghost mid = out@;
        let m: i128 = -(n as i128);
        push_decimal(out, m as u64);
        assert(out@ =~= old(out)@ + signed_decimal(n));
    } else {
        push_decimal(out, n as u64);
    }
}

fn number_text(lead: &str, n: i64, tail: &str) -> (r: Vec<char>)
    ensures
        r@ == lead@ + signed_decimal(n) + tail@,
{
    let mut t = chars_of(lead);
    push_signed_decimal(&mut t, n);
    push_all(&mut t, &chars_of(tail));
    t
}

fn count_text(n: usize, tail: &str) -> (r: Vec<char>)
    ensures
        r@ == decimal(n as nat) + tail@,
{
    let mut t: Vec<char> = Vec::new();
    push_decimal(&mut t, n as u64);
    push_all(&mut t, &chars_of(tail));
    assert(t@ =~= decimal(n as nat) + tail@);
    t
}

fn link_of(post: &Post) -> (r: &str)
    ensures
        r@ == post_link(post@),
{
    match &post.url {
        Some(u) => u.as_str(),
        None => post.discussion_url.as_str(),
    }
}

/// The lines of the header above a discussion.
pub fn post_header_text(post: Option<&Post>) -> (r: Vec<Vec<Span>>)
    ensures
        r.deep_view() == header_lines(
            match post {
                Some(p) => Some(p@),
                None => None,
            },
        ),
{
    let p = match post {
        None => {
            let mut line: Vec<Span> = Vec::new();
            line.push(span_of_str("No post selected", Role::Muted));
            let mut r: Vec<Vec<Span>> = Vec::new();
            let ghost l = line.deep_view();
            assert(l =~= seq![("No post selected"@, Role::Muted)]);
            r.push(line);
            assert(r.deep_view() =~= header_lines(None));
            return r;
        },
        Some(p) => p,
    };
    let mut lines: Vec<Vec<Span>> = Vec::new();
    let mut title: Vec<Span> = Vec::new();
    title.push(span_of_str(p.title.as_str(), Role::Title));
    let ghost l0 = title.deep_view();
    assert(l0 =~= seq![(p@.title, Role::Title)]);
    lines.push(title);
    let mut meta: Vec<Span> = Vec::new();
    meta.push(span_of_str("by ", Role::Muted));
    meta.push(span_of_str(p.author.as_str(), Role::Byline));
    meta.push(span_of_str(" | ", Role::Muted));
    meta.push(span_of_chars(&number_text("", p.score, " points"), Role::Score));
    meta.push(span_of_str(" | ", Role::Muted));
    meta.push(span_of_chars(&count_text(p.comment_count, " comments"), Role::Count));
    meta.push(span_of_str(" | id ", Role::Muted));
    meta.push(span_of_str(p.id.as_str(), Role::Tag));
    proof {
        reveal_strlit("");
        assert(""@ + signed_decimal(p.score) + " points"@ =~= signed_decimal(p.score) + " points"@);
    }
    let ghost l1 = meta.deep_view();
    assert(l1 =~= seq![
        ("by "@, Role::Muted),
        (p@.author, Role::Byline),
        (" | "@, Role::Muted),
        (signed_decimal(p@.score) + " points"@, Role::Score),
        (" | "@, Role::Muted),
        (decimal(p@.comment_count as nat) + " comments"@, Role::Count),
        (" | id "@, Role::Muted),
        (p@.id, Role::Tag),
    ]);
    lines.push(meta);
    let mut url: Vec<Span> = Vec::new();
    url.push(span_of_str("url: ", Role::Muted));
    url.push(span_of_str(link_of(p), Role::Link));
    let ghost l2 = url.deep_view();
    assert(l2 =~= seq![("url: "@, Role::Muted), (post_link(p@), Role::Link)]);
    lines.push(url);
    let ghost base = lines.deep_view();
    assert(base =~= seq![l0, l1, l2]);
    if let Some(t) = &p.text {
        let c = clean_comment_chars(&chars_of(t.as_str()));
        if c.len() > 0 {
            let blank: Vec<Span> = Vec::new();
            assert(blank.deep_view() =~= Seq::<SpanView>::empty());
            lines.push(blank);
            assert(lines.deep_view() =~= base + seq![Seq::<SpanView>::empty()] + Seq::<Seq<SpanView>>::empty());
            let ls = split_lines_exec(&c);
            let ghost pieces = split_lines(c@).map_values(|l: Seq<char>| link_pieces(l));
            let mut i: usize = 0;
            while i < ls.len()
                invariant
                    i <= ls.len(),
                    ls.deep_view() == split_lines(c@),
                    pieces == split_lines(c@).map_values(|l: Seq<char>| link_pieces(l)),
                    lines.deep_view() == base + seq![Seq::<SpanView>::empty()] + pieces.subrange(0, i as int),
                decreases ls.len() - i,
            {
                let mut line: Vec<Span> = Vec::new();
                push_link_pieces(&mut line, ls[i].as_slice());
                assert(ls.deep_view()[i as int] == ls[i as int]@);
                assert(line.deep_view() =~= link_pieces(ls[i as int]@));
                let ghost before = lines.deep_view();
                lines.push(line);
                assert(lines.deep_view() =~= before.push(pieces[i as int]));
                assert(pieces.subrange(0, i + 1) =~= pieces.subrange(0, i as int).push(pieces[i as int]));
                i = i + 1;
            }
            assert(pieces.subrange(0, ls@.len() as int) =~= pieces);
        }
    }
    lines
}

/// A post as the list shows it at position `index`.
pub fn post_list_item(post: &Post, index: usize) -> (r: PostItem)
    ensures
        r.lines.deep_view() == list_item_lines(post@),
        r.shaded == (index % 2 == 0),
{
    let mut meta: Vec<Span> = Vec::new();
    meta.push(span_of_chars(&number_text("  ", post.score, " points"), Role::Score));
    meta.push(span_of_str(" | ", Role::Muted));
    meta.push(span_of_chars(&count_text(post.comment_count, " comments"), Role::Count));
    meta.push(span_of_str(" | by ", Role::Muted));
    meta.push(span_of_str(post.author.as_str(), Role::Byline));
    meta.push(span_of_str(" | ", Role::Muted));
    meta.push(span_of_str(link_of(post), Role::Link));
    let ghost m0 = meta.deep_view();
    assert(m0 =~= seq![
        ("  "@ + signed_decimal(post@.score) + " points"@, Role::Score),
        (" | "@, Role::Muted),
        (decimal(post@.comment_count as nat) + " comments"@, Role::Count),
        (" | by "@, Role::Muted),
        (post@.author, Role::Byline),
        (" | "@, Role::Muted),
        (post_link(post@), Role::Link),
    ]);
    if post.tags.len() > 0 {
        let mut tags: Vec<Vec<char>> = Vec::new();
        let mut i: usize = 0;
        while i < post.tags.len()
            invariant
                i <= post.tags.len(),
                tags.deep_view() == post.tags.deep_view().subrange(0, i as int),
            decreases post.tags.len() - i,
        {
            let ghost before = tags.deep_view();
            let t = chars_of(post.tags[i].as_str());
            assert(t.deep_view() =~= t@);
            tags.push(t);
            assert(tags.deep_view() =~= before.push(post.tags[i as int]@));
            assert(post.tags.deep_view().subrange(0, i + 1) =~= post.tags.deep_view().subrange(0, i as int).push(post.tags[i as int]@));
            i = i + 1;
        }
        assert(post.tags.deep_view().subrange(0, post.tags.len() as int) =~= post.tags.deep_view());
        let joined = join_exec(&tags, &chars_of(", "));
        meta.push(span_of_str(" | tags: ", Role::Muted));
        meta.push(span_of_chars(&joined, Role::Tag));
        assert(meta.deep_view() =~= m0 + seq![(" | tags: "@, Role::Muted), (join(post@.tags, ", "@), Role::Tag)]);
    }
    let ghost m = meta.deep_view();
    let mut title: Vec<Span> = Vec::new();
    title.push(span_of_str(post.title.as_str(), Role::Title));
    let ghost t0 = title.deep_view();
    assert(t0 =~= seq![(post@.title, Role::Title)]);
    let mut lines: Vec<Vec<Span>> = Vec::new();
    lines.push(title);
    lines.push(meta);
    assert(lines.deep_view() =~= seq![t0, m]);
    assert(m == list_item_lines(post@)[1]);
    assert(lines.deep_view() =~= list_item_lines(post@));
    PostItem { lines, shaded: index % 2 == 0 }
}

/// The name of a view mode.
pub open spec fn mode_name(mode: Mode) -> Seq<char> {
    match mode {
        Mode::Posts => "posts"@,
        Mode::Comments => "comments"@,
    }
}

/// The title of a source's listing.
pub open spec fn listing_title(source: Source) -> Seq<char> {
    match source {
        Source::HackerNews => "Hacker News top"@,
        Source::Lobsters => "Lobsters hottest"@,
    }
}

/// The keys a view mode offers.
pub open spec fn key_help(mode: Mode) -> Seq<char> {
    match mode {
        Mode::Posts => "j/k/↑/↓ move · Enter comments · o open · c discussion · r refresh · Tab/1/2 source · q quit"@,
        Mode::Comments => "j/k/↑/↓ scroll · h/l/←/→ select · Space collapse · Esc posts · o open · c discussion · r reload · q quit"@,
    }
}

/// The title bar: the listing and the view mode.
pub fn title_bar(source: Source, mode: Mode) -> (r: String)
    ensures
        r@ == listing_title(source) + " | "@ + mode_name(mode),
{
    let mut t = chars_of(crate::model::source_title(source));
    push_all(&mut t, &chars_of(" | "));
    let m = match mode {
        Mode::Posts => "posts",
        Mode::Comments => "comments",
    };
    push_all(&mut t, &chars_of(m));
    crate::chars::string_of(&t)
}

/// The status bar: the status message, that the reader only reads, and the
/// keys of the view mode.
pub fn status_bar(status: &str, mode: Mode) -> (r: String)
    ensures
        r@ == status@ + " | read-only | "@ + key_help(mode),
{
    let mut t = chars_of(status);
    push_all(&mut t, &chars_of(" | read-only | "));
    let h = match mode {
        Mode::Posts => "j/k/↑/↓ move · Enter comments · o open · c discussion · r refresh · Tab/1/2 source · q quit",
        Mode::Comments => "j/k/↑/↓ scroll · h/l/←/→ select · Space collapse · Esc posts · o open · c discussion · r reload · q quit",
    };
    push_all(&mut t, &chars_of(h));
    crate::chars::string_of(&t)
}

/// The entry of the post list to highlight: the selected one, or the last
/// when the selection is past the end; none when the list is empty.
pub fn highlighted_post(post_count: usize, selected: usize) -> (r: Option<usize>)
    ensures
        post_count == 0 ==> r is None,
        post_count > 0 ==> r == Some(if selected < post_count {
            selected
        } else {
            (post_count - 1) as usize
        }),
{
    if post_count == 0 {
        None
    } else if selected < post_count {
        Some(selected)
    } else {
        Some(post_count - 1)
    }
}

} // verus!
