//! What each step of the reader and each conversion of a feed record does,
//! field by field, in terms of what went in.
use vstd::prelude::*;
use crate::chars::{decimal, has_prefix, is_blank};
use crate::hn::{commtext, expanded_links, hn_user, row_comment, usize_attr};
use crate::feed::{hn_posts_of, hn_comment, hn_post, lobsters_comment, lobsters_post, HnItem, LobstersComment, LobstersStory};
use crate::input::{key_step, KeyCode, KeyEvent};
use crate::model::{opt_string, Mode, Source};
use crate::layout::{block_height, lines_rows, owner_range, scroll_target, lemma_place_words, place_words, rows_needed, LineView};
use crate::reader::{fitted, AppView, Effect};
use crate::text::{cleaned, first_url, html_text};

verus! {

/// Everything but the selection and the scrolling is left as it was.
pub open spec fn same_but_position(a: AppView, b: AppView) -> bool {
    &&& b.source == a.source
    &&& b.mode == a.mode
    &&& b.posts == a.posts
    &&& b.comments == a.comments
    &&& b.collapsed == a.collapsed
    &&& b.status == a.status
    &&& b.comment_max_scroll == a.comment_max_scroll
}

/// `k` or Up moves one step up: to the post before the selected one (none
/// before the first), or one line of comments back (none before the
/// first), letting the view scroll freely.
pub proof fn law_up_moves_one_step(a: AppView, key: KeyEvent)
    requires
        key.press,
        key.code == KeyCode::Char('k') || key.code == KeyCode::Up,
    ensures
        ({
            let (b, e) = key_step(a, key);
            &&& e == Effect::Nothing
            &&& same_but_position(a, b)
            &&& b.comment_selected == a.comment_selected
            &&& a.mode == Mode::Posts ==> {
                &&& a.post_selected > 0 ==> b.post_selected + 1 == a.post_selected
                &&& a.post_selected == 0 ==> b.post_selected == 0
                &&& b.comment_scroll == a.comment_scroll
                &&& b.keep_visible == a.keep_visible
            }
            &&& a.mode == Mode::Comments ==> {
                &&& a.comment_scroll > 0 ==> b.comment_scroll + 1 == a.comment_scroll
                &&& a.comment_scroll == 0 ==> b.comment_scroll == 0
                &&& b.post_selected == a.post_selected
                &&& !b.keep_visible
            }
        }),
{
}

/// `j` or Down moves one step down: to the post after the selected one
/// (staying on the last), or one line of comments on (stopping at the
/// last line the view can show); nothing moves in an empty list.
pub proof fn law_down_moves_one_step(a: AppView, key: KeyEvent)
    requires
        key.press,
        key.code == KeyCode::Char('j') || key.code == KeyCode::Down,
        a.posts.len() <= usize::MAX,
    ensures
        ({
            let (b, e) = key_step(a, key);
            &&& e == Effect::Nothing
            &&& same_but_position(a, b)
            &&& b.comment_selected == a.comment_selected
            &&& a.mode == Mode::Posts ==> {
                &&& a.posts.len() > 0 && a.post_selected + 1 < a.posts.len() ==> b.post_selected == a.post_selected + 1
                &&& a.posts.len() > 0 && a.post_selected + 1 >= a.posts.len() ==> b.post_selected + 1 == a.posts.len()
                &&& a.posts.len() == 0 ==> b == a
                &&& b.comment_scroll == a.comment_scroll
            }
            &&& a.mode == Mode::Comments ==> {
                &&& a.comments.len() > 0 && a.comment_scroll + 1 < a.comment_max_scroll ==> b.comment_scroll == a.comment_scroll + 1
                &&& a.comments.len() > 0 && a.comment_scroll + 1 >= a.comment_max_scroll ==> b.comment_scroll == a.comment_max_scroll
                &&& a.comments.len() > 0 ==> !b.keep_visible
                &&& a.comments.len() == 0 ==> b == a
                &&& b.post_selected == a.post_selected
            }
        }),
{
}

/// `g` goes to the top: the first post, or the first comment selected and
/// shown from the first line; `G` to the bottom: the last post, or the
/// comments scrolled to their last line. Nothing moves in an empty list.
pub proof fn law_top_and_bottom(a: AppView, key: KeyEvent)
    requires
        key.press,
        key.code == KeyCode::Char('g') || key.code == KeyCode::Char('G'),
        a.posts.len() <= usize::MAX,
    ensures
        ({
            let (b, e) = key_step(a, key);
            let top = key.code == KeyCode::Char('g');
            &&& e == Effect::Nothing
            &&& same_but_position(a, b)
            &&& a.mode == Mode::Posts && a.posts.len() > 0 && top ==> b.post_selected == 0
            &&& a.mode == Mode::Posts && a.posts.len() > 0 && !top ==> b.post_selected + 1 == a.posts.len()
            &&& a.mode == Mode::Posts ==> b.comment_scroll == a.comment_scroll && b.comment_selected == a.comment_selected
            &&& a.mode == Mode::Comments && a.comments.len() > 0 && top ==> b.comment_scroll == 0
                && b.comment_selected == 0 && b.keep_visible
            &&& a.mode == Mode::Comments && a.comments.len() > 0 && !top ==> b.comment_scroll == a.comment_max_scroll
                && b.comment_selected == a.comment_selected && !b.keep_visible
            &&& a.mode == Mode::Comments ==> b.post_selected == a.post_selected
            &&& (a.mode == Mode::Posts && a.posts.len() == 0) || (a.mode == Mode::Comments && a.comments.len() == 0) ==> b == a
        }),
{
}

/// `o` opens the selected link and changes nothing else. In the post list
/// that is the selected post's link, or its discussion when it has none.
/// In a discussion it is the selected comment's own link; without one, the
/// first web link of its cleaned text; without that, the discussion of the
/// selected post. With nothing to open the status says so.
pub proof fn law_o_opens_the_selected_link(a: AppView, key: KeyEvent)
    requires
        key.press,
        key.code == KeyCode::Char('o'),
    ensures
        ({
            let (b, e) = key_step(a, key);
            &&& a.mode == Mode::Posts && a.post_selected < a.posts.len() ==> b == a && e == Effect::OpenUrl(
                match a.posts[a.post_selected as int].url {
                    Some(u) => u@,
                    None => a.posts[a.post_selected as int].discussion_url@,
                },
            )
            &&& a.mode == Mode::Comments && a.comment_selected < a.comments.len() ==> {
                let c = a.comments[a.comment_selected as int];
                &&& c.url is Some ==> b == a && e == Effect::OpenUrl(c.url->0@)
                &&& c.url is None && first_url(cleaned(c.text@)) is Some ==> b == a
                    && e == Effect::OpenUrl(first_url(cleaned(c.text@))->0)
                &&& c.url is None && first_url(cleaned(c.text@)) is None && a.post_selected < a.posts.len() ==> b == a
                    && e == Effect::OpenUrl(a.posts[a.post_selected as int].discussion_url@)
                &&& c.url is None && first_url(cleaned(c.text@)) is None && a.post_selected >= a.posts.len()
                    ==> e == Effect::Nothing && b.status == "No link selected"@
            }
            &&& (a.mode == Mode::Posts && a.post_selected >= a.posts.len()) || (a.mode == Mode::Comments
                && a.comment_selected >= a.comments.len()) ==> e == Effect::Nothing && b.status == "No link selected"@
        }),
{
}

/// `c` (without Control) opens the selected post's discussion, in either
/// view, and changes nothing else; with no post selected the status says
/// there is no link.
pub proof fn law_c_opens_the_discussion(a: AppView, key: KeyEvent)
    requires
        key.press,
        !key.control,
        key.code == KeyCode::Char('c'),
    ensures
        ({
            let (b, e) = key_step(a, key);
            &&& a.post_selected < a.posts.len() ==> b == a && e == Effect::OpenUrl(a.posts[a.post_selected as int].discussion_url@)
            &&& a.post_selected >= a.posts.len() ==> e == Effect::Nothing && b.status == "No link selected"@
        }),
{
}

/// Enter in the post list, and `r` in a discussion, ask for the comments
/// of the selected post and change nothing; with no post selected the
/// status says so. `r` in the post list asks for the posts of the shown
/// source again.
pub proof fn law_enter_and_reload(a: AppView, key: KeyEvent)
    requires
        key.press,
        (key.code == KeyCode::Enter && a.mode == Mode::Posts) || key.code == KeyCode::Char('r'),
    ensures
        ({
            let (b, e) = key_step(a, key);
            let loads = key.code == KeyCode::Enter || a.mode == Mode::Comments;
            &&& loads && a.post_selected < a.posts.len() ==> b == a && e == Effect::FetchComments(a.post_selected)
            &&& loads && a.post_selected >= a.posts.len() ==> e == Effect::Nothing && b.status == "No post selected"@
                && b.posts == a.posts && b.comments == a.comments && b.mode == a.mode
            &&& !loads ==> b == a && e == Effect::FetchPosts(a.source)
        }),
{
}

/// In the post list, Tab switches to the other source, and `1` and `2` to
/// Hacker News and Lobsters: the new source's posts are asked for, and
/// until they come the list is empty, nothing is selected, scrolled or
/// collapsed, and the status says they are loading. Choosing the source
/// already shown does nothing.
pub proof fn law_switching_sources(a: AppView, key: KeyEvent)
    requires
        key.press,
        a.mode == Mode::Posts,
        key.code == KeyCode::Tab || key.code == KeyCode::Char('1') || key.code == KeyCode::Char('2'),
    ensures
        ({
            let (b, e) = key_step(a, key);
            let target = if key.code == KeyCode::Char('1') {
                Source::HackerNews
            } else if key.code == KeyCode::Char('2') {
                Source::Lobsters
            } else if a.source == Source::HackerNews {
                Source::Lobsters
            } else {
                Source::HackerNews
            };
            &&& target == a.source ==> b == a && e == Effect::Nothing
            &&& target != a.source ==> {
                &&& e == Effect::FetchPosts(target)
                &&& b.source == target
                &&& b.posts.len() == 0 && b.comments.len() == 0 && b.collapsed.is_empty()
                &&& b.post_selected == 0 && b.comment_selected == 0 && b.comment_scroll == 0 && b.comment_max_scroll == 0
                &&& b.mode == Mode::Posts
                &&& b.status == "Loading "@ + (if target == Source::HackerNews { "Hacker News"@ } else { "Lobsters"@ }) + "..."@
            }
        }),
{
    crate::model::lemma_labels();
}

/// Esc and `b` leave a discussion for the post list and change nothing else.
pub proof fn law_escape_returns_to_posts(a: AppView, key: KeyEvent)
    requires
        key.press,
        a.mode == Mode::Comments,
        key.code == KeyCode::Esc || key.code == KeyCode::Char('b'),
    ensures
        key_step(a, key).1 == Effect::Nothing,
        key_step(a, key).0 == (AppView { mode: Mode::Posts, ..a }),
{
}

/// Space and Enter in a discussion collapse the selected comment (the last
/// one when the selection is past the end) when it is shown expanded, and
/// expand it when it is collapsed, keep it in view, and say in the status
/// what they did; nothing else changes.
pub proof fn law_space_toggles_the_selected_comment(a: AppView, key: KeyEvent)
    requires
        key.press,
        a.mode == Mode::Comments,
        a.comments.len() > 0,
        key.code == KeyCode::Char(' ') || key.code == KeyCode::Enter,
    ensures
        ({
            let (b, e) = key_step(a, key);
            let i = if a.comment_selected < a.comments.len() { a.comment_selected } else { (a.comments.len() - 1) as usize };
            &&& e == Effect::Nothing
            &&& b.collapsed.contains(i) == !a.collapsed.contains(i)
            &&& forall|j: usize| j != i ==> b.collapsed.contains(j) == a.collapsed.contains(j)
            &&& b.keep_visible
            &&& b.comments == a.comments && b.posts == a.posts && b.mode == a.mode
            &&& b.comment_selected == a.comment_selected && b.comment_scroll == a.comment_scroll
            &&& (a.collapsed.contains(i) ==> has_prefix(b.status, "Expanded "@))
            &&& (!a.collapsed.contains(i) ==> has_prefix(b.status, "Collapsed "@))
        }),
{
    let i = if a.comment_selected < a.comments.len() { a.comment_selected } else { (a.comments.len() - 1) as usize };
    let h = crate::layout::descendants(a.comments, i as int);
    let b = key_step(a, key).0;
    reveal_strlit("Expanded ");
    reveal_strlit("Expanded comment");
    reveal_strlit("Collapsed ");
    reveal_strlit("Collapsed comment");
    if a.collapsed.contains(i) {
        if h > 0 {
            assert(b.status.subrange(0, 9) =~= "Expanded "@);
        } else {
            assert(b.status.subrange(0, 9) =~= "Expanded "@);
        }
    } else {
        if h > 0 {
            assert(b.status.subrange(0, 10) =~= "Collapsed "@);
        } else {
            assert(b.status.subrange(0, 10) =~= "Collapsed "@);
        }
    }
}

/// Loaded posts replace the list, with the first selected and the list
/// shown; the comments are dropped, and nothing is scrolled or collapsed.
/// Loaded comments are shown from their first line with the first one
/// selected and kept in view, nothing collapsed. Each says how many came.
pub proof fn law_loads_start_afresh(a: AppView, posts: Seq<crate::model::Post>, status: Seq<char>, comments: Seq<crate::model::Comment>)
    ensures
        ({
            let b = crate::reader::with_posts(a, posts, status);
            &&& b.posts == posts && b.post_selected == 0 && b.mode == Mode::Posts && b.status == status
            &&& b.comments.len() == 0 && b.collapsed.is_empty() && b.comment_scroll == 0 && b.comment_selected == 0
            &&& b.source == a.source
        }),
        ({
            let c = crate::reader::with_comments(a, comments);
            &&& c.comments == comments && c.comment_selected == 0 && c.comment_scroll == 0 && c.mode == Mode::Comments
            &&& c.collapsed.is_empty() && c.keep_visible
            &&& c.posts == a.posts && c.post_selected == a.post_selected && c.source == a.source
            &&& c.status == "Loaded "@ + decimal(comments.len()) + " comments"@
        }),
        crate::reader::loaded_posts_status(posts.len(), a.source) == "Loaded "@ + decimal(posts.len()) + " "@
            + (if a.source == Source::HackerNews { "Hacker News"@ } else { "Lobsters"@ }) + " posts"@,
{
    crate::model::lemma_labels();
}

/// A Hacker News item makes a post exactly when it is a story that is
/// neither deleted nor dead. The post is from Hacker News, has the item's
/// id in decimal, its title ("(untitled)" without one), its author
/// ("unknown" without one), its score and its count of all comments below
/// it (0 for either when missing; the count is not the number of direct
/// replies), its link unless blank, the discussion page of the item, its
/// text read from HTML when that is not empty, and no tags.
pub proof fn law_hn_story_fields(item: HnItem)
    ensures
        hn_post(item) is Some <==> item.deleted != Some(true) && item.dead != Some(true) && opt_string(item.kind) == Some("story"@),
        hn_post(item) matches Some(p) ==> {
            &&& p.source == Source::HackerNews
            &&& p.id == decimal(item.id as nat)
            &&& p.title == (match item.title { Some(t) => t@, None => "(untitled)"@ })
            &&& p.author == (match item.by { Some(b) => b@, None => "unknown"@ })
            &&& p.score == (match item.score { Some(s) => s, None => 0 })
            &&& p.comment_count == (match item.descendants { Some(d) => d, None => 0 })
            &&& (item.url is Some && !is_blank(item.url->0@) ==> p.url == Some(item.url->0@))
            &&& (item.url is None || is_blank(item.url->0@) ==> p.url is None)
            &&& p.discussion_url == "https://news.ycombinator.com/item?id="@ + decimal(item.id as nat)
            &&& (item.text is Some && html_text(item.text->0@).len() > 0 ==> p.text == Some(html_text(item.text->0@)))
            &&& (item.text is None || html_text(item.text->0@).len() == 0 ==> p.text is None)
            &&& p.tags.len() == 0
        },
{
}

/// A Hacker News item in a thread makes a comment at the given depth: a
/// deleted or dead one reads "[deleted]" by "deleted" without a link;
/// otherwise its text is its HTML read as text and cleaned, its author is
/// "unknown" when missing, and its link is the first web link of its text.
pub proof fn law_hn_comment_fields(item: HnItem, depth: usize)
    ensures
        hn_comment(item, depth).depth == depth,
        item.deleted == Some(true) || item.dead == Some(true) ==> hn_comment(item, depth).author == "deleted"@
            && hn_comment(item, depth).text == "[deleted]"@ && hn_comment(item, depth).url is None,
        !(item.deleted == Some(true) || item.dead == Some(true)) ==> {
            let c = hn_comment(item, depth);
            &&& c.author == (match item.by { Some(b) => b@, None => "unknown"@ })
            &&& c.text == cleaned(match item.text { Some(t) => html_text(t@), None => seq![] })
            &&& c.url == first_url(c.text)
        },
{
}

/// A Lobsters story makes a post from Lobsters with the story's short id,
/// title, submitter, score and comment count as they are; its link unless
/// blank; its comments page (its short link when that is blank); its plain
/// description unless blank; and its tags.
pub proof fn law_lobsters_story_fields(s: LobstersStory)
    ensures
        lobsters_post(s).source == Source::Lobsters,
        lobsters_post(s).id == s.short_id@,
        lobsters_post(s).title == s.title@,
        lobsters_post(s).author == s.submitter_user@,
        lobsters_post(s).score == s.score,
        lobsters_post(s).comment_count == s.comment_count,
        !is_blank(s.url@) ==> lobsters_post(s).url == Some(s.url@),
        is_blank(s.url@) ==> lobsters_post(s).url is None,
        !is_blank(s.comments_url@) ==> lobsters_post(s).discussion_url == s.comments_url@,
        is_blank(s.comments_url@) ==> lobsters_post(s).discussion_url == s.short_id_url@,
        !is_blank(s.description_plain@) ==> lobsters_post(s).text == Some(s.description_plain@),
        is_blank(s.description_plain@) ==> lobsters_post(s).text is None,
        lobsters_post(s).tags == s.tags.deep_view(),
{
}

/// A Lobsters comment keeps its author and depth; a deleted or moderated
/// one reads "[deleted]", another its plain text. Its link is the first web
/// link of that text when there is one; only without one is it the
/// comment's own page, unless that is blank.
pub proof fn law_lobsters_comment_fields(c: LobstersComment)
    ensures
        lobsters_comment(c).author == c.commenting_user@,
        lobsters_comment(c).depth == c.depth,
        c.is_deleted || c.is_moderated ==> lobsters_comment(c).text == "[deleted]"@,
        !(c.is_deleted || c.is_moderated) ==> lobsters_comment(c).text == c.comment_plain@,
        first_url(lobsters_comment(c).text) matches Some(u) ==> lobsters_comment(c).url == Some(u),
        first_url(lobsters_comment(c).text) is None && !is_blank(c.url@) ==> lobsters_comment(c).url == Some(c.url@),
        first_url(lobsters_comment(c).text) is None && is_blank(c.url@) ==> lobsters_comment(c).url is None,
{
}

/// A comment row of a discussion page holds a comment exactly when it has
/// a body whose text, once read and cleaned, is not empty. The comment's
/// depth is the row's `indent` (0 without one), its author the row's user
/// name ("unknown" without one), its text that cleaned text, and its link
/// the first web link of the text.
pub proof fn law_page_row_fields(chunk: Seq<char>)
    ensures
        row_comment(chunk) is Some <==> commtext(chunk) is Some && cleaned(html_text(expanded_links(commtext(chunk)->0))).len() > 0,
        row_comment(chunk) matches Some(c) ==> {
            &&& c.text == cleaned(html_text(expanded_links(commtext(chunk)->0)))
            &&& c.depth == (match usize_attr(chunk, "indent"@) { Some(d) => d as usize, None => 0 })
            &&& c.author == (match hn_user(chunk) { Some(a) => a, None => "unknown"@ })
            &&& c.url == first_url(c.text)
        },
{
}

/// Posts from items read in order keep that order: an item that could not
/// be read or is not a live story adds nothing, and one that is adds its
/// post at the end.
pub proof fn law_hn_posts_in_order(items: Seq<Option<HnItem>>, item: Option<HnItem>)
    ensures
        hn_posts_of(items.push(item)) == match item {
            Some(it) => match hn_post(it) {
                Some(p) => hn_posts_of(items).push(p),
                None => hn_posts_of(items),
            },
            None => hn_posts_of(items),
        },
        hn_posts_of(items).len() <= items.len(),
    decreases items.len(),
{
    assert(items.push(item).drop_last() =~= items);
    if items.len() > 0 {
        law_hn_posts_in_order(items.drop_last(), items.last());
        assert(items.drop_last().push(items.last()) =~= items);
    }
}

/// How rows fill when words are wrapped greedily into rows `width` wide:
/// words go on one row separated by single spaces while they fit; a word
/// that does not fit starts a new row; a word longer than a row takes as
/// many rows as it needs, the next word going after its last part. Text
/// without words takes one row.
pub proof fn law_rows_fill_greedily(ws: Seq<Seq<char>>, n: int, width: int, text: Seq<char>)
    requires
        width >= 1,
        0 <= n < ws.len(),
        ws[n].len() >= 1,
    ensures
        ({
            let (rows, used) = place_words(ws, n, width);
            let (rows2, used2) = place_words(ws, n + 1, width);
            let len = ws[n].len() as int;
            &&& n == 0 ==> rows == 1 && used == 0
            &&& used == 0 ==> rows2 == rows + (len - 1) / width && used2 == (len - 1) % width + 1
            &&& used > 0 && used + 1 + len <= width ==> rows2 == rows && used2 == used + 1 + len
            &&& used > 0 && used + 1 + len > width ==> rows2 == rows + 1 + (len - 1) / width
                && used2 == (len - 1) % width + 1
        }),
        crate::chars::words(text).len() == 0 ==> rows_needed(text, width) == 1,
        rows_needed(text, width) >= 1,
{
    lemma_place_words(ws, n, width);
    let t = crate::chars::words(text);
    if t.len() > 0 {
        lemma_place_words(t, t.len() as int, width);
    }
}

/// Fitting the comment view to its lines: it can scroll down to where the
/// last line is at the bottom (not at all when all lines fit); a position
/// past that is pulled back to it; when the selected comment is to be
/// brought into view, the position shows it and the request is done;
/// otherwise the position is kept. Nothing else changes.
pub proof fn law_fitting_the_view(a: AppView, lines: Seq<LineView>, height: int)
    requires
        height >= 1,
        lines.len() <= usize::MAX,
        a.comment_scroll <= usize::MAX,
    ensures
        ({
            let b = fitted(a, lines, height);
            let max = if lines.len() > height { lines.len() - height } else { 0 };
            &&& b.comment_max_scroll == max
            &&& !a.keep_visible ==> b.comment_scroll == (if a.comment_scroll < max { a.comment_scroll as int } else { max })
                && !b.keep_visible
            &&& a.keep_visible ==> !b.keep_visible && 0 <= b.comment_scroll <= max
            &&& b.posts == a.posts && b.comments == a.comments && b.comment_selected == a.comment_selected
            &&& b.collapsed == a.collapsed && b.mode == a.mode && b.status == a.status
        }),
{
    let max: usize = if lines.len() > height { (lines.len() - height) as usize } else { 0 };
    let scroll: usize = if a.comment_scroll < max { a.comment_scroll } else { max };
    crate::laws::law_scroll_stays_in_range(lines, a.comment_selected, scroll as int, height, max as int);
}

/// Bringing the selected comment into view (`first` and `last` its first
/// and last line, `h` the viewport height, at least one): a comment taller
/// than the viewport, or starting above it, is scrolled to its first line;
/// one ending below the viewport is scrolled so its last line is at the
/// bottom; one already in view leaves the position alone; a comment with
/// no lines leaves it alone too. The position never passes the limit.
pub proof fn law_bringing_a_comment_into_view(lines: Seq<LineView>, selected: usize, current: int, h: int, max: int)
    requires
        h >= 1,
        current >= 0,
    ensures
        ({
            let t = scroll_target(lines, selected, current, h, max);
            let capped = |x: int| if x < max { x } else { max };
            &&& owner_range(lines, selected) is None ==> t == capped(current)
            &&& owner_range(lines, selected) matches Some((first, last)) ==> {
                &&& (last - first + 1 > h || first < current) ==> t == capped(first)
                &&& (last - first + 1 <= h && first >= current && last >= current + h) ==> t == capped(last - h + 1)
                &&& (last - first + 1 <= h && first >= current && last < current + h) ==> t == capped(current)
            }
        }),
{
    crate::layout::lemma_owner_range(lines, selected);
}

/// The height of the header box: two border rows plus the rows each header
/// line takes when wrapped into the box's inner width (the width less the
/// two borders, at least one), at most what a `u16` holds.
pub proof fn law_header_height(lines: Seq<Seq<char>>, width: u16)
    ensures
        ({
            let inner: int = if width >= 3 { width - 2 } else { 1 };
            block_height(lines, width) == if lines_rows(lines, inner) + 2 < u16::MAX { lines_rows(lines, inner) + 2 } else { u16::MAX as int }
        }),
        lines.len() > 0 ==> ({
            let inner: int = if width >= 3 { width - 2 } else { 1 };
            let s = lines_rows(lines.drop_last(), inner) + rows_needed(lines.last(), inner);
            lines_rows(lines, inner) == if s < usize::MAX { s } else { usize::MAX as int }
        }),
        lines.len() == 0 ==> block_height(lines, width) == 2,
{
}

} // verus!
