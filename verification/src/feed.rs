//! Posts and comments made from the records the Hacker News and Lobsters
//! APIs return.
use vstd::prelude::*;
use crate::chars::{chars_of, decimal, is_blank, is_blank_exec, parse_unsigned, parse_unsigned_exec, push_decimal, string_of};
use crate::model::{opt_string, Comment, CommentView, Post, PostView, Source};
use crate::text::{cleaned, clean_comment_chars, first_url, first_url_chars, html_text, html_text_chars};

verus! {

/// How many posts of a listing are shown.
pub const POST_LIMIT: usize = 30;

/// A Hacker News item: a story, a comment, or something else.
#[derive(Debug)]
pub struct HnItem {
    pub id: u64,
    pub kind: Option<String>,
    pub by: Option<String>,
    pub title: Option<String>,
    pub url: Option<String>,
    pub text: Option<String>,
    pub score: Option<i64>,
    pub descendants: Option<usize>,
    pub kids: Option<Vec<u64>>,
    pub deleted: Option<bool>,
    pub dead: Option<bool>,
}

/// A Lobsters story, with its comments when they were asked for.
#[derive(Debug)]
pub struct LobstersStory {
    pub short_id: String,
    pub title: String,
    pub url: String,
    pub score: i64,
    pub comment_count: usize,
    pub description_plain: String,
    pub submitter_user: String,
    pub tags: Vec<String>,
    pub short_id_url: String,
    pub comments_url: String,
    pub comments: Vec<LobstersComment>,
}

/// A Lobsters comment.
#[derive(Debug)]
pub struct LobstersComment {
    pub is_deleted: bool,
    pub is_moderated: bool,
    pub comment_plain: String,
    pub depth: usize,
    pub commenting_user: String,
    pub url: String,
}

/// The first `POST_LIMIT` of `ids`.
pub fn top_story_ids(ids: &[u64]) -> (r: Vec<u64>)
    ensures
        r@ == ids@.subrange(0, if ids@.len() < POST_LIMIT { ids@.len() as int } else { POST_LIMIT as int }),
{
    let n = if ids.len() < POST_LIMIT {
        ids.len()
    } else {
        POST_LIMIT
    };
    vstd::slice::slice_to_vec(vstd::slice::slice_subrange(ids, 0, n))
}

/// The optional text, unless it is blank.
pub open spec fn unless_blank(s: Seq<char>) -> Option<Seq<char>> {
    if is_blank(s) {
        None
    } else {
        Some(s)
    }
}

/// The discussion page of a Hacker News item.
pub open spec fn hn_discussion(id: u64) -> Seq<char> {
    "https://news.ycombinator.com/item?id="@ + decimal(id as nat)
}

/// The post a Hacker News item makes: none when it is deleted, dead or not a
/// story. A missing title reads "(untitled)", a missing author "unknown", a
/// missing score or comment count 0; a blank link counts as none; the text
/// is read from HTML and counts as none when empty.
pub open spec fn hn_post(item: HnItem) -> Option<PostView> {
    if item.deleted == Some(true) || item.dead == Some(true) || opt_string(item.kind) != Some(
        "story"@,
    ) {
        None
    } else {
        Some(
            PostView {
                source: Source::HackerNews,
                id: decimal(item.id as nat),
                title: match item.title {
                    Some(t) => t@,
                    None => "(untitled)"@,
                },
                author: match item.by {
                    Some(a) => a@,
                    None => "unknown"@,
                },
                score: match item.score {
                    Some(s) => s,
                    None => 0,
                },
                comment_count: match item.descendants {
                    Some(d) => d,
                    None => 0,
                },
                url: match item.url {
                    Some(u) => unless_blank(u@),
                    None => None,
                },
                discussion_url: hn_discussion(item.id),
                text: match item.text {
                    Some(t) => {
                        let plain = html_text(t@);
                        if plain.len() == 0 {
                            None
                        } else {
                            Some(plain)
                        }
                    },
                    None => None,
                },
                tags: seq![],
            },
        )
    }
}

fn is_story(kind: &Option<String>) -> (r: bool)
    ensures
        r == (opt_string(*kind) == Some("story"@)),
{
    match kind {
        Some(k) => {
            assert(opt_string(*kind) == Some(k@));
            let a = chars_of(k.as_str());
            let b = chars_of("story");
            if a.len() != b.len() {
                return false;
            }
            let mut i: usize = 0;
            while i < a.len()
                invariant
                    i <= a.len() == b.len(),
                    a@ == k@,
                    b@ == "story"@,
                    opt_string(*kind) == Some(k@),
                    forall|j: int| 0 <= j < i ==> a@[j] == b@[j],
                decreases a.len() - i,
            {
                if a[i] != b[i] {
                    assert(a@[i as int] != b@[i as int]);
                    assert(k@ != "story"@);
                    return false;
                }
                i = i + 1;
            }
            assert(a@ =~= b@);
            true
        },
        None => false,
    }
}

/// The post a Hacker News item makes, if it is a live story.
pub fn hn_story_post(item: HnItem) -> (r: Option<Post>)
    ensures
        match r {
            Some(p) => hn_post(item) == Some(p@),
            None => hn_post(item) is None,
        },
{
    let ghost it = item;
    if item.deleted == Some(true) || item.dead == Some(true) || !is_story(&item.kind) {
        return None;
    }
    let mut id = Vec::new();
    push_decimal(&mut id, item.id);
    let mut discussion = chars_of("https://news.ycombinator.com/item?id=");
    push_decimal(&mut discussion, item.id);
    let title = match item.title {
        Some(t) => t,
        None => string_of(&chars_of("(untitled)")),
    };
    let author = match item.by {
        Some(a) => a,
        None => string_of(&chars_of("unknown")),
    };
    let url = match item.url {
        Some(u) => {
            let cs = chars_of(u.as_str());
            if is_blank_exec(&cs) {
                None
            } else {
                Some(u)
            }
        },
        None => None,
    };
    let text = match item.text {
        Some(t) => {
            let cs = chars_of(t.as_str());
            let plain = html_text_chars(&cs);
            if plain.len() == 0 {
                None
            } else {
                Some(string_of(&plain))
            }
        },
        None => None,
    };
    let p = Post {
        source: Source::HackerNews,
        id: string_of(&id),
        title,
        author,
        score: match item.score {
            Some(s) => s,
            None => 0,
        },
        comment_count: match item.descendants {
            Some(d) => d,
            None => 0,
        },
        url,
        discussion_url: string_of(&discussion),
        text,
        tags: Vec::new(),
    };
    assert(p.tags.deep_view() =~= Seq::<Seq<char>>::empty());
    assert(p@ == hn_post(it)->0);
    Some(p)
}

/// The comment a Hacker News item makes at `depth` in a thread: a deleted
/// or dead item is shown as "[deleted]" by "deleted"; otherwise its text is
/// read from HTML and cleaned, a missing author reads "unknown", and its
/// link is the first one of its text.
pub open spec fn hn_comment(item: HnItem, depth: usize) -> CommentView {
    if item.deleted == Some(true) || item.dead == Some(true) {
        CommentView { author: "deleted"@, depth, text: "[deleted]"@, url: None }
    } else {
        let text = cleaned(
            match item.text {
                Some(t) => html_text(t@),
                None => seq![],
            },
        );
        CommentView {
            author: match item.by {
                Some(a) => a@,
                None => "unknown"@,
            },
            depth,
            text,
            url: first_url(text),
        }
    }
}

/// The comment a Hacker News item makes at `depth` in a thread.
pub fn hn_item_comment(item: HnItem, depth: usize) -> (r: Comment)
    ensures
        r@ == hn_comment(item, depth),
{
    if item.deleted == Some(true) || item.dead == Some(true) {
        return Comment {
            author: string_of(&chars_of("deleted")),
            depth,
            text: string_of(&chars_of("[deleted]")),
            url: None,
        };
    }
    let plain = match &item.text {
        Some(t) => {
            let cs = chars_of(t.as_str());
            html_text_chars(&cs)
        },
        None => Vec::new(),
    };
    let text = clean_comment_chars(&plain);
    let url = match first_url_chars(&text) {
        Some(u) => Some(string_of(&u)),
        None => None,
    };
    let author = match item.by {
        Some(a) => a,
        None => string_of(&chars_of("unknown")),
    };
    Comment { author, depth, text: string_of(&text), url }
}

/// Whether the comments read from a discussion page will do: some were
/// found, or the post has none.
pub fn page_comments_suffice(found: usize, comment_count: usize) -> (r: bool)
    ensures
        r == (found > 0 || comment_count == 0),
{
    found > 0 || comment_count == 0
}

/// The numeric id of a Hacker News post, as `str::parse::<u64>` reads it.
pub fn hn_post_id(id: &str) -> (r: Option<u64>)
    ensures
        match r {
            Some(v) => parse_unsigned(id@, 10, u64::MAX as nat) == Some(v as nat),
            None => parse_unsigned(id@, 10, u64::MAX as nat) is None,
        },
{
    let cs = chars_of(id);
    parse_unsigned_exec(&cs, 10, u64::MAX)
}

/// The post a Lobsters story makes: its comments page (its short link when
/// that is blank) is the discussion; a blank link or description counts as none.
pub open spec fn lobsters_post(s: LobstersStory) -> PostView {
    PostView {
        source: Source::Lobsters,
        id: s.short_id@,
        title: s.title@,
        author: s.submitter_user@,
        score: s.score,
        comment_count: s.comment_count,
        url: unless_blank(s.url@),
        discussion_url: if is_blank(s.comments_url@) {
            s.short_id_url@
        } else {
            s.comments_url@
        },
        text: unless_blank(s.description_plain@),
        tags: s.tags.deep_view(),
    }
}

/// The post a Lobsters story makes.
pub fn lobsters_story_post(story: LobstersStory) -> (r: Post)
    ensures
        r@ == lobsters_post(story),
{
    let ghost st = story;
    let discussion_url = if is_blank_exec(&chars_of(story.comments_url.as_str())) {
        story.short_id_url
    } else {
        story.comments_url
    };
    let url = if is_blank_exec(&chars_of(story.url.as_str())) {
        None
    } else {
        Some(story.url)
    };
    let text = if is_blank_exec(&chars_of(story.description_plain.as_str())) {
        None
    } else {
        Some(story.description_plain)
    };
    Post {
        source: Source::Lobsters,
        id: story.short_id,
        title: story.title,
        author: story.submitter_user,
        score: story.score,
        comment_count: story.comment_count,
        url,
        discussion_url,
        text,
        tags: story.tags,
    }
}

/// The posts of the first `POST_LIMIT` Lobsters stories, in order.
pub fn lobsters_posts(stories: Vec<LobstersStory>) -> (r: Vec<Post>)
    ensures
        r@.len() == if stories@.len() < POST_LIMIT { stories@.len() } else { POST_LIMIT as nat },
        forall|i: int| 0 <= i < r@.len() ==> #[trigger] r@[i]@ == lobsters_post(stories@[i]),
{
    let mut stories = stories;
    stories.truncate(POST_LIMIT);
    let ghost all = stories@;
    let mut out: Vec<Post> = Vec::new();
    for story in it: stories.into_iter()
        invariant
            it.seq() == all,
            out@.len() == it.index(),
            forall|i: int| 0 <= i < out@.len() ==> #[trigger] out@[i]@ == lobsters_post(all[i]),
    {
        out.push(lobsters_story_post(story));
    }
    out
}

/// The comment a Lobsters comment makes: a deleted or moderated one reads
/// "[deleted]"; its link is the first one of its text, else its own page
/// unless that is blank.
pub open spec fn lobsters_comment(c: LobstersComment) -> CommentView {
    let text = if c.is_deleted || c.is_moderated {
        "[deleted]"@
    } else {
        c.comment_plain@
    };
    CommentView {
        author: c.commenting_user@,
        depth: c.depth,
        text,
        url: match first_url(text) {
            Some(u) => Some(u),
            None => unless_blank(c.url@),
        },
    }
}

/// The comment a Lobsters comment makes.
pub fn lobsters_comment_of(c: LobstersComment) -> (r: Comment)
    ensures
        r@ == lobsters_comment(c),
{
    let text = if c.is_deleted || c.is_moderated {
        string_of(&chars_of("[deleted]"))
    } else {
        c.comment_plain
    };
    let url = match first_url_chars(&chars_of(text.as_str())) {
        Some(u) => Some(string_of(&u)),
        None => if is_blank_exec(&chars_of(c.url.as_str())) {
            None
        } else {
            Some(c.url)
        },
    };
    Comment { author: c.commenting_user, depth: c.depth, text, url }
}

/// The comments of a Lobsters story, in thread order.
pub fn lobsters_comments(story: LobstersStory) -> (r: Vec<Comment>)
    ensures
        r@.len() == story.comments@.len(),
        forall|i: int| 0 <= i < r@.len() ==> #[trigger] r@[i]@ == lobsters_comment(story.comments@[i]),
{
    let ghost all = story.comments@;
    let mut out: Vec<Comment> = Vec::new();
    for c in it: story.comments.into_iter()
        invariant
            it.seq() == all,
            out@.len() == it.index(),
            forall|i: int| 0 <= i < out@.len() ==> #[trigger] out@[i]@ == lobsters_comment(all[i]),
    {
        out.push(lobsters_comment_of(c));
    }
    out
}

/// The posts that items read in order make, in that order: an item that
/// could not be read, or that makes no post, is left out.
pub open spec fn hn_posts_of(items: Seq<Option<HnItem>>) -> Seq<PostView>
    decreases items.len(),
{
    if items.len() == 0 {
        seq![]
    } else {
        let rest = hn_posts_of(items.drop_last());
        match items.last() {
            Some(it) => match hn_post(it) {
                Some(p) => rest.push(p),
                None => rest,
            },
            None => rest,
        }
    }
}

/// The posts of the top stories, from their items read in the order of the
/// story ids (`None` where an id had no item).
pub fn hn_posts(items: Vec<Option<HnItem>>) -> (r: Vec<Post>)
    ensures
        r@.map_values(|p: Post| p@) == hn_posts_of(items@),
{
    let ghost all = items@;
    let mut out: Vec<Post> = Vec::new();
    for item in it: items.into_iter()
        invariant
            it.seq() == all,
            out@.map_values(|p: Post| p@) == hn_posts_of(all.subrange(0, it.index() as int)),
    {
        let ghost k = it.index();
        let ghost before = out@;
        assert(all.subrange(0, k + 1).drop_last() =~= all.subrange(0, k as int));
        assert(all.subrange(0, k + 1).last() == item);
        match item {
            Some(i) => {
                if let Some(p) = hn_story_post(i) {
                    out.push(p);
                    assert(out@.map_values(|p: Post| p@) =~= before.map_values(|p: Post| p@).push(p@));
                }
            },
            None => {},
        }
    }
    assert(all.subrange(0, all.len() as int) =~= all);
    out
}

/// The ids of an item's replies (none when it has none).
pub open spec fn kids_of(item: HnItem) -> Seq<u64> {
    match item.kids {
        Some(k) => k@,
        None => seq![],
    }
}

/// Items `ids` put on a walk's stack, each to become a comment at `depth`,
/// so that the first of them comes off first.
pub open spec fn queued(ids: Seq<u64>, depth: usize) -> Seq<(u64, usize)>
    decreases ids.len(),
{
    if ids.len() == 0 {
        seq![]
    } else {
        queued(ids.drop_first(), depth).push((ids[0], depth))
    }
}

/// A walk through a Hacker News thread, read one item at a time: the items
/// still to read, each with the depth its comment takes; the next one to
/// read is the last. A comment's replies are read right after it, in order,
/// one level deeper, before the comments that follow it.
pub struct HnWalk {
    pub pending: Vec<(u64, usize)>,
}

fn push_queued(pending: &mut Vec<(u64, usize)>, ids: &[u64], depth: usize)
    ensures
        final(pending)@ == old(pending)@ + queued(ids@, depth),
{
    let mut i: usize = ids.len();
    assert(ids@.subrange(ids@.len() as int, ids@.len() as int) =~= Seq::<u64>::empty());
    assert(old(pending)@ + queued(Seq::<u64>::empty(), depth) =~= old(pending)@);
    while i > 0
        invariant
            i <= ids.len(),
            pending@ == old(pending)@ + queued(ids@.subrange(i as int, ids@.len() as int), depth),
        decreases i,
    {
        let ghost before = pending@;
        pending.push((ids[i - 1], depth));
        assert(ids@.subrange(i - 1, ids@.len() as int).drop_first() =~= ids@.subrange(i as int, ids@.len() as int));
        assert(ids@.subrange(i - 1, ids@.len() as int)[0] == ids@[i - 1]);
        assert(pending@ =~= old(pending)@ + queued(ids@.subrange(i - 1, ids@.len() as int), depth));
        i = i - 1;
    }
    assert(ids@.subrange(0, ids@.len() as int) =~= ids@);
}

impl HnWalk {
    /// A walk through the replies `kids` of a story, at the top level.
    pub fn new(kids: &[u64]) -> (r: HnWalk)
        ensures
            r.pending@ == queued(kids@, 0),
    {
        let mut pending: Vec<(u64, usize)> = Vec::new();
        push_queued(&mut pending, kids, 0);
        assert(pending@ =~= queued(kids@, 0));
        HnWalk { pending }
    }

    /// The next item to read and the depth of its comment; none when the
    /// walk is over.
    pub fn next_item(&mut self) -> (r: Option<(u64, usize)>)
        ensures
            old(self).pending@.len() == 0 ==> r is None && final(self).pending@ == old(self).pending@,
            old(self).pending@.len() > 0 ==> r == Some(old(self).pending@.last())
                && final(self).pending@ == old(self).pending@.drop_last(),
    {
        self.pending.pop()
    }

    /// The comment an item that was read makes at `depth`; its replies are
    /// read next, one level deeper.
    pub fn visited(&mut self, item: HnItem, depth: usize) -> (r: Comment)
        requires
            depth < usize::MAX,
        ensures
            r@ == hn_comment(item, depth),
            final(self).pending@ == old(self).pending@ + queued(kids_of(item), (depth + 1) as usize),
    {
        let ghost it = item;
        match &item.kids {
            Some(k) => push_queued(&mut self.pending, k.as_slice(), depth + 1),
            None => {
                assert(old(self).pending@ + queued(Seq::<u64>::empty(), (depth + 1) as usize) =~= old(self).pending@);
            },
        }
        hn_item_comment(item, depth)
    }
}

/// Items `ids`, each to become a comment at `depth`, in order.
pub open spec fn at_depth(ids: Seq<u64>, depth: usize) -> Seq<(u64, usize)> {
    ids.map_values(|x: u64| (x, depth))
}

/// The items a walk reads in its first `n` steps from the stack `stack`,
/// each with its depth, when the replies of item `id` are `children(id)`:
/// each step takes the last item off the stack and puts its replies on, one
/// level deeper, as `next_item` and `visited` do.
pub open spec fn walk_reads(stack: Seq<(u64, usize)>, children: spec_fn(u64) -> Seq<u64>, n: nat) -> Seq<(u64, usize)>
    decreases n,
{
    if n == 0 || stack.len() == 0 {
        seq![]
    } else {
        let (id, d) = stack.last();
        seq![(id, d)] + walk_reads(stack.drop_last() + queued(children(id), (d + 1) as usize), children, (n - 1) as nat)
    }
}

/// The first `n` items of a thread in pre-order: each item, then its
/// replies (and theirs) one level deeper, then the items after it.
pub open spec fn preorder(items: Seq<(u64, usize)>, children: spec_fn(u64) -> Seq<u64>, n: nat) -> Seq<(u64, usize)>
    decreases n,
{
    if n == 0 || items.len() == 0 {
        seq![]
    } else {
        let (id, d) = items[0];
        seq![(id, d)] + preorder(at_depth(children(id), (d + 1) as usize) + items.drop_first(), children, (n - 1) as nat)
    }
}

proof fn lemma_queued(ids: Seq<u64>, depth: usize)
    ensures
        queued(ids, depth).len() == ids.len(),
        forall|j: int| 0 <= j < ids.len() ==> #[trigger] queued(ids, depth)[j] == (ids[ids.len() - 1 - j], depth),
    decreases ids.len(),
{
    if ids.len() > 0 {
        lemma_queued(ids.drop_first(), depth);
    }
}

proof fn lemma_walk_preorder(stack: Seq<(u64, usize)>, children: spec_fn(u64) -> Seq<u64>, n: nat)
    ensures
        walk_reads(stack, children, n) == preorder(stack.reverse(), children, n),
    decreases n,
{
    if n > 0 && stack.len() > 0 {
        let (id, d) = stack.last();
        let c = children(id);
        let d1 = (d + 1) as usize;
        let next = stack.drop_last() + queued(c, d1);
        lemma_walk_preorder(next, children, (n - 1) as nat);
        lemma_queued(c, d1);
        let l = stack.reverse();
        assert(l.len() == stack.len());
        assert(l[0] == stack.last());
        let want = at_depth(c, d1) + l.drop_first();
        assert(next.reverse() =~= want) by {
            assert forall|m: int| 0 <= m < want.len() implies next.reverse()[m] == want[m] by {
                if m < c.len() {
                    assert(next.reverse()[m] == next[next.len() - 1 - m]);
                    assert(next[next.len() - 1 - m] == queued(c, d1)[c.len() - 1 - m]);
                } else {
                    assert(next.reverse()[m] == next[next.len() - 1 - m]);
                    assert(want[m] == l.drop_first()[m - c.len()]);
                    assert(l[m - c.len() + 1] == stack[stack.len() - 1 - (m - c.len() + 1)]);
                }
            }
        }
    } else if stack.len() == 0 {
        assert(stack.reverse().len() == 0);
    }
}

/// The walk reads a thread in pre-order: in its first `n` steps it reads
/// the first `n` items of the pre-order of the story's replies, each reply
/// right after its parent and one level deeper, before the parent's next
/// sibling.
pub proof fn law_walk_reads_in_preorder(kids: Seq<u64>, children: spec_fn(u64) -> Seq<u64>, n: nat)
    ensures
        walk_reads(queued(kids, 0), children, n) == preorder(at_depth(kids, 0), children, n),
{
    lemma_walk_preorder(queued(kids, 0), children, n);
    lemma_queued(kids, 0);
    assert(queued(kids, 0).reverse() =~= at_depth(kids, 0)) by {
        assert forall|m: int| 0 <= m < kids.len() implies queued(kids, 0).reverse()[m] == at_depth(kids, 0)[m] by {
            assert(queued(kids, 0).reverse()[m] == queued(kids, 0)[kids.len() - 1 - m]);
        }
    }
}

} // verus!
