//! The reader's data: sources, view modes, posts and comments.
use vstd::prelude::*;

verus! {

/// Where posts come from.
#[derive(Clone, Copy, Debug, PartialEq, Eq, Hash, Structural)]
pub enum Source {
    HackerNews,
    Lobsters,
}

/// Which list the reader shows.
#[derive(Clone, Copy, Debug, PartialEq, Eq, Hash, Structural)]
pub enum Mode {
    Posts,
    Comments,
}

/// A story on the front page of a source.
#[derive(Clone, Debug)]
pub struct Post {
    pub source: Source,
    pub id: String,
    pub title: String,
    pub author: String,
    pub score: i64,
    pub comment_count: usize,
    pub url: Option<String>,
    pub discussion_url: String,
    pub text: Option<String>,
    pub tags: Vec<String>,
}

/// One comment of a discussion, in thread order; `depth` 0 is a top-level reply.
#[derive(Clone, Debug)]
pub struct Comment {
    pub author: String,
    pub depth: usize,
    pub text: String,
    pub url: Option<String>,
}

/// The contents of an optional string.
pub open spec fn opt_string(s: Option<String>) -> Option<Seq<char>> {
    match s {
        Some(t) => Some(t@),
        None => None,
    }
}

/// What a post says, as character sequences.
pub struct PostView {
    pub source: Source,
    pub id: Seq<char>,
    pub title: Seq<char>,
    pub author: Seq<char>,
    pub score: i64,
    pub comment_count: usize,
    pub url: Option<Seq<char>>,
    pub discussion_url: Seq<char>,
    pub text: Option<Seq<char>>,
    pub tags: Seq<Seq<char>>,
}

/// What a comment says, as character sequences.
pub struct CommentView {
    pub author: Seq<char>,
    pub depth: usize,
    pub text: Seq<char>,
    pub url: Option<Seq<char>>,
}

impl View for Post {
    type V = PostView;

    open spec fn view(&self) -> PostView {
        PostView {
            source: self.source,
            id: self.id@,
            title: self.title@,
            author: self.author@,
            score: self.score,
            comment_count: self.comment_count,
            url: opt_string(self.url),
            discussion_url: self.discussion_url@,
            text: opt_string(self.text),
            tags: self.tags.deep_view(),
        }
    }
}

impl View for Comment {
    type V = CommentView;

    open spec fn view(&self) -> CommentView {
        CommentView {
            author: self.author@,
            depth: self.depth,
            text: self.text@,
            url: opt_string(self.url),
        }
    }
}

impl DeepView for Comment {
    type V = CommentView;

    open spec fn deep_view(&self) -> CommentView {
        self@
    }
}

impl DeepView for Post {
    type V = PostView;

    open spec fn deep_view(&self) -> PostView {
        self@
    }
}

/// The name of a source.
pub open spec fn label_of(source: Source) -> Seq<char> {
    match source {
        Source::HackerNews => seq!['H', 'a', 'c', 'k', 'e', 'r', ' ', 'N', 'e', 'w', 's'],
        Source::Lobsters => seq!['L', 'o', 'b', 's', 't', 'e', 'r', 's'],
    }
}

/// The names of the sources, as text.
pub proof fn lemma_labels()
    ensures
        label_of(Source::HackerNews) == "Hacker News"@,
        label_of(Source::Lobsters) == "Lobsters"@,
{
    reveal_strlit("Hacker News");
    reveal_strlit("Lobsters");
    assert(label_of(Source::HackerNews) =~= "Hacker News"@);
    assert(label_of(Source::Lobsters) =~= "Lobsters"@);
}

/// The name of a source: "Hacker News" or "Lobsters".
pub fn source_label(source: Source) -> (r: &'static str)
    ensures
        r@ == label_of(source),
{
    match source {
        Source::HackerNews => {
            proof {
                reveal_strlit("Hacker News");
            }
            "Hacker News"
        },
        Source::Lobsters => {
            proof {
                reveal_strlit("Lobsters");
            }
            "Lobsters"
        },
    }
}

/// The title of a source's listing: "Hacker News top" or "Lobsters hottest".
pub fn source_title(source: Source) -> (r: &'static str)
    ensures
        source == Source::HackerNews ==> r@ == "Hacker News top"@,
        source == Source::Lobsters ==> r@ == "Lobsters hottest"@,
{
    match source {
        Source::HackerNews => "Hacker News top",
        Source::Lobsters => "Lobsters hottest",
    }
}

/// A sample post of `source` with id `id`: titled "title" by "author", one
/// point and one comment, linking to https://example.com, its discussion at
/// https://example.com/discussion, without text or tags.
pub fn test_post(source: Source, id: &str) -> (r: Post)
    ensures
        r@ == (PostView {
            source,
            id: id@,
            title: "title"@,
            author: "author"@,
            score: 1,
            comment_count: 1,
            url: Some("https://example.com"@),
            discussion_url: "https://example.com/discussion"@,
            text: None,
            tags: seq![],
        }),
{
    let r = Post {
        source,
        id: id.to_string(),
        title: "title".to_string(),
        author: "author".to_string(),
        score: 1,
        comment_count: 1,
        url: Some("https://example.com".to_string()),
        discussion_url: "https://example.com/discussion".to_string(),
        text: None,
        tags: Vec::new(),
    };
    assert(r.tags.deep_view() =~= Seq::<Seq<char>>::empty());
    r
}

/// A sample comment by `author` at `depth` saying `text`, without a link.
pub fn test_comment(author: &str, depth: usize, text: &str) -> (r: Comment)
    ensures
        r@ == (CommentView { author: author@, depth, text: text@, url: None }),
{
    Comment { author: author.to_string(), depth, text: text.to_string(), url: None }
}

} // verus!
