//! The reader's state and what each command does to it.
use vstd::prelude::*;
use std::collections::HashSet;
use crate::chars::{chars_of, decimal, push_all, push_decimal, string_of};
use crate::layout::{scroll_target, scroll_to_show_comment, CommentLine, LineView, descendants, visible, visible_comment_indices, comment_descendant_count};
use crate::model::{label_of, source_label, Comment, Mode, Post, Source};
use crate::text::{clean_comment_chars, cleaned, first_url, first_url_chars};

verus! {

broadcast use vstd::std_specs::hash::group_hash_axioms;

/// Outside work the reader asks for after a command.
#[derive(Debug)]
pub enum Action {
    /// Nothing to do.
    Nothing,
    /// Leave the reader.
    Quit,
    /// Load the posts of a source, then call `posts_loaded` or `fetch_failed`.
    FetchPosts(Source),
    /// Load the comments of the post at this position, then call
    /// `comments_loaded` or `fetch_failed`.
    FetchComments(usize),
    /// Open a link in the browser, then call `url_opened`.
    OpenUrl(String),
}

/// An action, with its link as characters.
pub enum Effect {
    Nothing,
    Quit,
    FetchPosts(Source),
    FetchComments(usize),
    OpenUrl(Seq<char>),
}

impl View for Action {
    type V = Effect;

    open spec fn view(&self) -> Effect {
        match self {
            Action::Nothing => Effect::Nothing,
            Action::Quit => Effect::Quit,
            Action::FetchPosts(s) => Effect::FetchPosts(*s),
            Action::FetchComments(i) => Effect::FetchComments(*i),
            Action::OpenUrl(u) => Effect::OpenUrl(u@),
        }
    }
}

/// The reader: the posts of one source, the comments of one post, what is
/// selected, scrolled and collapsed, and a status line.
pub struct App {
    pub source: Source,
    pub mode: Mode,
    pub posts: Vec<Post>,
    pub post_selected: usize,
    pub comments: Vec<Comment>,
    pub comment_selected: usize,
    pub comment_scroll: usize,
    pub comment_max_scroll: usize,
    pub collapsed_comments: HashSet<usize>,
    pub comment_keep_selection_visible: bool,
    pub status: String,
}

/// The reader's state as values.
pub struct AppView {
    pub source: Source,
    pub mode: Mode,
    pub posts: Seq<Post>,
    pub post_selected: usize,
    pub comments: Seq<Comment>,
    pub comment_selected: usize,
    pub comment_scroll: usize,
    pub comment_max_scroll: usize,
    pub collapsed: Set<usize>,
    pub keep_visible: bool,
    pub status: Seq<char>,
}

impl View for App {
    type V = AppView;

    open spec fn view(&self) -> AppView {
        AppView {
            source: self.source,
            mode: self.mode,
            posts: self.posts@,
            post_selected: self.post_selected,
            comments: self.comments@,
            comment_selected: self.comment_selected,
            comment_scroll: self.comment_scroll,
            comment_max_scroll: self.comment_max_scroll,
            collapsed: self.collapsed_comments@,
            keep_visible: self.comment_keep_selection_visible,
            status: self.status@,
        }
    }
}

// ---------------------------------------------------------------------------
// What each command does
// ---------------------------------------------------------------------------

/// `a` with a new list of posts: first post selected, no comments, nothing
/// scrolled or collapsed, the post list shown, and the given status.
pub open spec fn with_posts(a: AppView, posts: Seq<Post>, status: Seq<char>) -> AppView {
    AppView {
        posts,
        post_selected: 0,
        comments: seq![],
        comment_selected: 0,
        comment_scroll: 0,
        comment_max_scroll: 0,
        collapsed: Set::empty(),
        keep_visible: false,
        mode: Mode::Posts,
        status,
        ..a
    }
}

/// "Loaded {count} {source} posts"
pub open spec fn loaded_posts_status(count: nat, source: Source) -> Seq<char> {
    "Loaded "@ + decimal(count) + " "@ + label_of(source) + " posts"@
}

/// "Loaded {count} comments"
pub open spec fn loaded_comments_status(count: nat) -> Seq<char> {
    "Loaded "@ + decimal(count) + " comments"@
}

/// "Loading {source}..."
pub open spec fn loading_status(source: Source) -> Seq<char> {
    "Loading "@ + label_of(source) + "..."@
}

/// `a` with loaded comments: first one selected, none scrolled or
/// collapsed, the selection to be brought into view, the comments shown.
pub open spec fn with_comments(a: AppView, comments: Seq<Comment>) -> AppView {
    AppView {
        comments,
        comment_selected: 0,
        comment_scroll: 0,
        comment_max_scroll: 0,
        collapsed: Set::empty(),
        keep_visible: true,
        mode: Mode::Comments,
        status: loaded_comments_status(comments.len()),
        ..a
    }
}

/// One step down: the next post, or one line of comments further.
pub open spec fn after_move_down(a: AppView) -> AppView {
    match a.mode {
        Mode::Posts => if a.posts.len() > 0 {
            AppView {
                post_selected: if a.post_selected + 1 < a.posts.len() {
                    (a.post_selected + 1) as usize
                } else {
                    (a.posts.len() - 1) as usize
                },
                ..a
            }
        } else {
            a
        },
        Mode::Comments => if a.comments.len() > 0 {
            AppView {
                comment_scroll: if a.comment_scroll + 1 < a.comment_max_scroll {
                    (a.comment_scroll + 1) as usize
                } else {
                    a.comment_max_scroll
                },
                keep_visible: false,
                ..a
            }
        } else {
            a
        },
    }
}

/// One step up: the previous post, or one line of comments back.
pub open spec fn after_move_up(a: AppView) -> AppView {
    match a.mode {
        Mode::Posts => AppView {
            post_selected: if a.post_selected > 0 {
                (a.post_selected - 1) as usize
            } else {
                0
            },
            ..a
        },
        Mode::Comments => AppView {
            comment_scroll: if a.comment_scroll > 0 {
                (a.comment_scroll - 1) as usize
            } else {
                0
            },
            keep_visible: false,
            ..a
        },
    }
}

/// To the top: the first post, or the first comment, selected and shown.
pub open spec fn after_move_top(a: AppView) -> AppView {
    match a.mode {
        Mode::Posts => if a.posts.len() > 0 {
            AppView { post_selected: 0, ..a }
        } else {
            a
        },
        Mode::Comments => if a.comments.len() > 0 {
            AppView { comment_scroll: 0, comment_selected: 0, keep_visible: true, ..a }
        } else {
            a
        },
    }
}

/// To the bottom: the last post, or the comments scrolled to the end.
pub open spec fn after_move_bottom(a: AppView) -> AppView {
    match a.mode {
        Mode::Posts => if a.posts.len() > 0 {
            AppView { post_selected: (a.posts.len() - 1) as usize, ..a }
        } else {
            a
        },
        Mode::Comments => if a.comments.len() > 0 {
            AppView { comment_scroll: a.comment_max_scroll, keep_visible: false, ..a }
        } else {
            a
        },
    }
}

/// The first position at or after `i` where `x` is in `s`.
pub open spec fn position_from(s: Seq<usize>, x: usize, i: int) -> Option<int>
    decreases s.len() - i,
{
    if i < 0 || i >= s.len() {
        None
    } else if s[i] == x {
        Some(i)
    } else {
        position_from(s, x, i + 1)
    }
}

/// The position of `x` in `s`, if it is there.
pub open spec fn position_of(s: Seq<usize>, x: usize) -> Option<int> {
    position_from(s, x, 0)
}

pub proof fn lemma_position_from(s: Seq<usize>, x: usize, i: int)
    requires
        0 <= i,
    ensures
        match position_from(s, x, i) {
            Some(p) => i <= p < s.len() && s[p] == x,
            None => forall|j: int| i <= j < s.len() ==> s[j] != x,
        },
    decreases s.len() - i,
{
    if i < s.len() && s[i] != x {
        lemma_position_from(s, x, i + 1);
    }
}

fn position_exec(s: &Vec<usize>, x: usize) -> (r: Option<usize>)
    ensures
        match r {
            Some(p) => position_of(s@, x) == Some(p as int),
            None => position_of(s@, x) is None,
        },
{
    let mut i: usize = 0;
    while i < s.len()
        invariant
            i <= s.len(),
            position_of(s@, x) == position_from(s@, x, i as int),
        decreases s.len() - i,
    {
        if s[i] == x {
            return Some(i);
        }
        i = i + 1;
    }
    None
}

/// The next shown comment after the selected one (the second shown one when
/// the selection is not shown), staying on the last.
pub open spec fn after_select_next(a: AppView) -> AppView {
    let v = visible(a.comments, a.collapsed);
    if v.len() == 0 {
        a
    } else {
        let p = match position_of(v, a.comment_selected) {
            Some(p) => p,
            None => 0,
        };
        let q = if p + 1 < v.len() {
            p + 1
        } else {
            v.len() - 1
        };
        AppView { comment_selected: v[q], keep_visible: true, ..a }
    }
}

/// The shown comment before the selected one (the first shown one when the
/// selection is not shown), staying on the first.
pub open spec fn after_select_previous(a: AppView) -> AppView {
    let v = visible(a.comments, a.collapsed);
    if v.len() == 0 {
        a
    } else {
        let p = match position_of(v, a.comment_selected) {
            Some(p) => p,
            None => 0,
        };
        let q = if p > 0 {
            p - 1
        } else {
            0
        };
        AppView { comment_selected: v[q], keep_visible: true, ..a }
    }
}

/// The status after collapsing or expanding a comment with `hidden` replies.
pub open spec fn collapse_status(expanded: bool, hidden: nat) -> Seq<char> {
    if expanded {
        if hidden == 0 {
            "Expanded comment"@
        } else {
            "Expanded "@ + decimal(hidden) + " replies"@
        }
    } else {
        if hidden == 0 {
            "Collapsed comment"@
        } else {
            "Collapsed "@ + decimal(hidden) + " replies"@
        }
    }
}

/// Collapsing or expanding the selected comment (the last one when the
/// selection is past the end) while comments are shown.
pub open spec fn after_toggle_collapse(a: AppView) -> AppView {
    if a.mode != Mode::Comments || a.comments.len() == 0 {
        a
    } else {
        let index = if a.comment_selected < a.comments.len() {
            a.comment_selected
        } else {
            (a.comments.len() - 1) as usize
        };
        let hidden = descendants(a.comments, index as int);
        if a.collapsed.contains(index) {
            AppView {
                collapsed: a.collapsed.remove(index),
                status: collapse_status(true, hidden),
                keep_visible: true,
                ..a
            }
        } else {
            AppView {
                collapsed: a.collapsed.insert(index),
                status: collapse_status(false, hidden),
                keep_visible: true,
                ..a
            }
        }
    }
}


/// The link the `o` command opens: the selected post's link (its discussion
/// when it has none) in the post list; in the comments, the selected
/// comment's link, else the first link of its text, else the discussion of
/// the selected post.
pub open spec fn link_to_open(a: AppView) -> Option<Seq<char>> {
    match a.mode {
        Mode::Posts => if a.post_selected < a.posts.len() {
            let p = a.posts[a.post_selected as int];
            match p.url {
                Some(u) => Some(u@),
                None => Some(p.discussion_url@),
            }
        } else {
            None
        },
        Mode::Comments => if a.comment_selected < a.comments.len() {
            let c = a.comments[a.comment_selected as int];
            match c.url {
                Some(u) => Some(u@),
                None => match first_url(cleaned(c.text@)) {
                    Some(u) => Some(u),
                    None => if a.post_selected < a.posts.len() {
                        Some(a.posts[a.post_selected as int].discussion_url@)
                    } else {
                        None
                    },
                },
            }
        } else {
            None
        },
    }
}

/// The link of the selected post's discussion.
pub open spec fn discussion_to_open(a: AppView) -> Option<Seq<char>> {
    if a.post_selected < a.posts.len() {
        Some(a.posts[a.post_selected as int].discussion_url@)
    } else {
        None
    }
}

/// Opening a link: without one the status says so and nothing happens.
pub open spec fn open_link(a: AppView, url: Option<Seq<char>>) -> (AppView, Effect) {
    match url {
        Some(u) => (a, Effect::OpenUrl(u)),
        None => (AppView { status: "No link selected"@, ..a }, Effect::Nothing),
    }
}

/// Loading the comments of the selected post.
pub open spec fn load_selected(a: AppView) -> (AppView, Effect) {
    if a.post_selected < a.posts.len() {
        (a, Effect::FetchComments(a.post_selected))
    } else {
        (AppView { status: "No post selected"@, ..a }, Effect::Nothing)
    }
}

/// Switching to `source`: nothing when it is already shown; else its posts
/// are emptied while they load.
pub open spec fn switch_to(a: AppView, source: Source) -> (AppView, Effect) {
    if a.source == source {
        (a, Effect::Nothing)
    } else {
        (
            with_posts(AppView { source, ..a }, seq![], loading_status(source)),
            Effect::FetchPosts(source),
        )
    }
}

/// The state is coherent: the selected post exists (or is the first of
/// none), and the comments are not scrolled past their end.
pub open spec fn coherent(a: AppView) -> bool {
    &&& (a.posts.len() == 0 ==> a.post_selected == 0)
    &&& (a.posts.len() > 0 ==> a.post_selected < a.posts.len())
    &&& a.comment_scroll <= a.comment_max_scroll
}

fn status_of(parts: &[char]) -> (r: String)
    ensures
        r@ == parts@,
{
    string_of(parts)
}

impl App {
    /// A reader showing the (not yet loaded) Hacker News posts.
    pub fn new() -> (r: App)
        ensures
            r@ == (AppView {
                source: Source::HackerNews,
                mode: Mode::Posts,
                posts: seq![],
                post_selected: 0,
                comments: seq![],
                comment_selected: 0,
                comment_scroll: 0,
                comment_max_scroll: 0,
                collapsed: Set::empty(),
                keep_visible: false,
                status: "Loading Hacker News..."@,
            }),
    {
        let status = status_of(&chars_of("Loading Hacker News..."));
        App {
            source: Source::HackerNews,
            mode: Mode::Posts,
            posts: Vec::new(),
            post_selected: 0,
            comments: Vec::new(),
            comment_selected: 0,
            comment_scroll: 0,
            comment_max_scroll: 0,
            collapsed_comments: HashSet::new(),
            comment_keep_selection_visible: false,
            status,
        }
    }

    /// Shows a new list of posts with the given status.
    pub fn set_posts(&mut self, posts: Vec<Post>, status: String)
        ensures
            final(self)@ == with_posts(old(self)@, posts@, status@),
    {
        self.posts = posts;
        self.post_selected = 0;
        self.comments.clear();
        self.comment_selected = 0;
        self.comment_scroll = 0;
        self.comment_max_scroll = 0;
        self.collapsed_comments.clear();
        self.comment_keep_selection_visible = false;
        self.mode = Mode::Posts;
        self.status = status;
        assert(self@.collapsed =~= Set::<usize>::empty());
        assert(self@.comments =~= Seq::<Comment>::empty());
    }

    /// The command that reloads the posts of the current source.
    pub fn refresh(&self) -> (r: Action)
        ensures
            r@ == Effect::FetchPosts(self.source),
    {
        Action::FetchPosts(self.source)
    }

    /// Shows the posts that were loaded, saying how many.
    pub fn posts_loaded(&mut self, posts: Vec<Post>)
        ensures
            final(self)@ == with_posts(
                old(self)@,
                posts@,
                loaded_posts_status(posts@.len(), old(self).source),
            ),
    {
        let mut st = chars_of("Loaded ");
        push_decimal(&mut st, posts.len() as u64);
        push_all(&mut st, &chars_of(" "));
        push_all(&mut st, &chars_of(source_label(self.source)));
        push_all(&mut st, &chars_of(" posts"));
        let status = status_of(&st);
        self.set_posts(posts, status);
    }

    /// Reports a failed load.
    pub fn fetch_failed(&mut self, error: &str)
        ensures
            final(self)@ == (AppView { status: "Error: "@ + error@, ..old(self)@ }),
    {
        let mut st = chars_of("Error: ");
        push_all(&mut st, &chars_of(error));
        self.status = status_of(&st);
    }

    /// Asks for the comments of the selected post; without one, says so.
    pub fn load_comments(&mut self) -> (r: Action)
        ensures
            (final(self)@, r@) == load_selected(old(self)@),
    {
        if self.post_selected < self.posts.len() {
            Action::FetchComments(self.post_selected)
        } else {
            self.status = status_of(&chars_of("No post selected"));
            Action::Nothing
        }
    }

    /// Shows the comments that were loaded, saying how many.
    pub fn comments_loaded(&mut self, comments: Vec<Comment>)
        ensures
            final(self)@ == with_comments(old(self)@, comments@),
    {
        let mut st = chars_of("Loaded ");
        push_decimal(&mut st, comments.len() as u64);
        push_all(&mut st, &chars_of(" comments"));
        self.comments = comments;
        self.comment_selected = 0;
        self.comment_scroll = 0;
        self.comment_max_scroll = 0;
        self.collapsed_comments.clear();
        self.comment_keep_selection_visible = true;
        self.mode = Mode::Comments;
        self.status = status_of(&st);
        assert(self@.collapsed =~= Set::<usize>::empty());
    }

    /// The selected post, if there is one.
    pub fn selected_post(&self) -> (r: Option<&Post>)
        ensures
            match r {
                Some(p) => self.post_selected < self.posts@.len() && *p == self.posts@[self.post_selected as int],
                None => self.post_selected >= self.posts@.len(),
            },
    {
        if self.post_selected < self.posts.len() {
            Some(&self.posts[self.post_selected])
        } else {
            None
        }
    }

    /// The selected comment, if there is one.
    pub fn selected_comment(&self) -> (r: Option<&Comment>)
        ensures
            match r {
                Some(c) => self.comment_selected < self.comments@.len() && *c == self.comments@[self.comment_selected as int],
                None => self.comment_selected >= self.comments@.len(),
            },
    {
        if self.comment_selected < self.comments.len() {
            Some(&self.comments[self.comment_selected])
        } else {
            None
        }
    }

    /// One step down: the next post, or one line of comments further.
    pub fn move_down(&mut self)
        ensures
            final(self)@ == after_move_down(old(self)@),
    {
        match self.mode {
            Mode::Posts => {
                if self.posts.len() > 0 {
                    self.post_selected = if self.post_selected < self.posts.len() - 1 {
                        self.post_selected + 1
                    } else {
                        self.posts.len() - 1
                    };
                }
            },
            Mode::Comments => {
                if self.comments.len() > 0 {
                    self.comment_scroll = if self.comment_scroll < self.comment_max_scroll {
                        self.comment_scroll + 1
                    } else {
                        self.comment_max_scroll
                    };
                    self.comment_keep_selection_visible = false;
                }
            },
        }
    }

    /// One step up: the previous post, or one line of comments back.
    pub fn move_up(&mut self)
        ensures
            final(self)@ == after_move_up(old(self)@),
    {
        match self.mode {
            Mode::Posts => {
                self.post_selected = if self.post_selected > 0 {
                    self.post_selected - 1
                } else {
                    0
                };
            },
            Mode::Comments => {
                self.comment_scroll = if self.comment_scroll > 0 {
                    self.comment_scroll - 1
                } else {
                    0
                };
                self.comment_keep_selection_visible = false;
            },
        }
    }

    /// To the top of the list.
    pub fn move_top(&mut self)
        ensures
            final(self)@ == after_move_top(old(self)@),
    {
        match self.mode {
            Mode::Posts => {
                if self.posts.len() > 0 {
                    self.post_selected = 0;
                }
            },
            Mode::Comments => {
                if self.comments.len() > 0 {
                    self.comment_scroll = 0;
                    self.comment_selected = 0;
                    self.comment_keep_selection_visible = true;
                }
            },
        }
    }

    /// To the bottom of the list.
    pub fn move_bottom(&mut self)
        ensures
            final(self)@ == after_move_bottom(old(self)@),
    {
        match self.mode {
            Mode::Posts => {
                if self.posts.len() > 0 {
                    self.post_selected = self.posts.len() - 1;
                }
            },
            Mode::Comments => {
                if self.comments.len() > 0 {
                    self.comment_scroll = self.comment_max_scroll;
                    self.comment_keep_selection_visible = false;
                }
            },
        }
    }
}


impl App {
    /// Selects the next shown comment.
    pub fn select_next_comment(&mut self)
        ensures
            final(self)@ == after_select_next(old(self)@),
    {
        let v = visible_comment_indices(&self.comments, &self.collapsed_comments);
        if v.len() == 0 {
            return ;
        }
        proof {
            lemma_position_from(v@, self.comment_selected, 0);
        }
        let p = match position_exec(&v, self.comment_selected) {
            Some(p) => p,
            None => 0,
        };
        let q = if p < v.len() - 1 {
            p + 1
        } else {
            v.len() - 1
        };
        self.comment_selected = v[q];
        self.comment_keep_selection_visible = true;
    }

    /// Selects the previous shown comment.
    pub fn select_previous_comment(&mut self)
        ensures
            final(self)@ == after_select_previous(old(self)@),
    {
        let v = visible_comment_indices(&self.comments, &self.collapsed_comments);
        if v.len() == 0 {
            return ;
        }
        proof {
            lemma_position_from(v@, self.comment_selected, 0);
        }
        let p = match position_exec(&v, self.comment_selected) {
            Some(p) => p,
            None => 0,
        };
        let q = if p > 0 {
            p - 1
        } else {
            0
        };
        self.comment_selected = v[q];
        self.comment_keep_selection_visible = true;
    }

    /// Collapses the selected comment's replies, or shows them again.
    pub fn toggle_comment_collapse(&mut self)
        ensures
            final(self)@ == after_toggle_collapse(old(self)@),
    {
        if self.mode != Mode::Comments || self.comments.len() == 0 {
            return ;
        }
        let index = if self.comment_selected < self.comments.len() {
            self.comment_selected
        } else {
            self.comments.len() - 1
        };
        let hidden = comment_descendant_count(&self.comments, index);
        let removed = self.collapsed_comments.remove(&index);
        let mut st: Vec<char>;
        if removed {
            if hidden == 0 {
                st = chars_of("Expanded comment");
            } else {
                st = chars_of("Expanded ");
                push_decimal(&mut st, hidden as u64);
                push_all(&mut st, &chars_of(" replies"));
            }
        } else {
            self.collapsed_comments.insert(index);
            if hidden == 0 {
                st = chars_of("Collapsed comment");
            } else {
                st = chars_of("Collapsed ");
                push_decimal(&mut st, hidden as u64);
                push_all(&mut st, &chars_of(" replies"));
            }
        }
        self.status = status_of(&st);
        self.comment_keep_selection_visible = true;
        proof {
            if !removed {
                assert(self@.collapsed =~= old(self)@.collapsed.insert(index));
            }
        }
    }

    /// Switches to another source and asks for its posts.
    pub fn switch_source(&mut self, source: Source) -> (r: Action)
        ensures
            (final(self)@, r@) == switch_to(old(self)@, source),
    {
        if self.source == source {
            return Action::Nothing;
        }
        self.source = source;
        let mut st = chars_of("Loading ");
        push_all(&mut st, &chars_of(source_label(source)));
        push_all(&mut st, &chars_of("..."));
        let status = status_of(&st);
        self.set_posts(Vec::new(), status);
        assert(Seq::<Post>::empty() =~= seq![]);
        Action::FetchPosts(source)
    }

    /// Asks to open a link; without one, says so.
    pub fn open_url(&mut self, url: Option<String>) -> (r: Action)
        ensures
            (final(self)@, r@) == open_link(old(self)@, match url {
                Some(u) => Some(u@),
                None => None,
            }),
    {
        match url {
            Some(u) => Action::OpenUrl(u),
            None => {
                self.status = status_of(&chars_of("No link selected"));
                Action::Nothing
            },
        }
    }

    /// Asks to open the selected post's link or the selected comment's link.
    pub fn open_selected_link(&mut self) -> (r: Action)
        ensures
            (final(self)@, r@) == open_link(old(self)@, link_to_open(old(self)@)),
    {
        let url: Option<String> = match self.mode {
            Mode::Posts => {
                if self.post_selected < self.posts.len() {
                    let p = &self.posts[self.post_selected];
                    match &p.url {
                        Some(u) => Some(u.clone()),
                        None => Some(p.discussion_url.clone()),
                    }
                } else {
                    None
                }
            },
            Mode::Comments => {
                if self.comment_selected < self.comments.len() {
                    let c = &self.comments[self.comment_selected];
                    match &c.url {
                        Some(u) => Some(u.clone()),
                        None => {
                            let tc = chars_of(c.text.as_str());
                            let text = clean_comment_chars(&tc);
                            match first_url_chars(&text) {
                                Some(u) => Some(string_of(&u)),
                                None => {
                                    if self.post_selected < self.posts.len() {
                                        Some(self.posts[self.post_selected].discussion_url.clone())
                                    } else {
                                        None
                                    }
                                },
                            }
                        },
                    }
                } else {
                    None
                }
            },
        };
        self.open_url(url)
    }

    /// Asks to open the selected post's discussion.
    pub fn open_discussion(&mut self) -> (r: Action)
        ensures
            (final(self)@, r@) == open_link(old(self)@, discussion_to_open(old(self)@)),
    {
        let url = if self.post_selected < self.posts.len() {
            Some(self.posts[self.post_selected].discussion_url.clone())
        } else {
            None
        };
        self.open_url(url)
    }

    /// Goes back to the post list.
    pub fn back_to_posts(&mut self)
        ensures
            final(self)@ == (AppView { mode: Mode::Posts, ..old(self)@ }),
    {
        self.mode = Mode::Posts;
    }

    /// Reports how opening `url` went.
    pub fn url_opened(&mut self, url: &str, error: Option<&str>)
        ensures
            final(self)@ == (AppView {
                status: match error {
                    None => "Opened "@ + url@,
                    Some(e) => "Open failed: "@ + e@,
                },
                ..old(self)@
            }),
    {
        let st = match error {
            None => {
                let mut st = chars_of("Opened ");
                push_all(&mut st, &chars_of(url));
                st
            },
            Some(e) => {
                let mut st = chars_of("Open failed: ");
                push_all(&mut st, &chars_of(e));
                st
            },
        };
        self.status = status_of(&st);
    }
}


/// The comment view fitted to `lines` in a viewport `height` lines tall:
/// the scroll limit is how far the lines reach past the viewport, the
/// scroll position is kept within it, and a selection waiting to be shown
/// is scrolled into view.
pub open spec fn fitted(a: AppView, lines: Seq<LineView>, height: int) -> AppView {
    let max: usize = if lines.len() > height {
        (lines.len() - height) as usize
    } else {
        0
    };
    let scroll: usize = if a.comment_scroll < max {
        a.comment_scroll
    } else {
        max
    };
    if a.keep_visible {
        AppView {
            comment_max_scroll: max,
            comment_scroll: scroll_target(lines, a.comment_selected, scroll as int, height, max as int) as usize,
            keep_visible: false,
            ..a
        }
    } else {
        AppView { comment_max_scroll: max, comment_scroll: scroll, ..a }
    }
}

/// The title of the comment pane: the line shown first, of how many.
pub open spec fn comments_title_text(a: AppView, line_count: nat) -> Seq<char> {
    if a.comments.len() == 0 {
        "Comments"@
    } else {
        "Comments · line "@ + decimal((a.comment_scroll + 1) as nat) + "/"@ + decimal(
            if line_count < 1 {
                1
            } else {
                line_count
            },
        )
    }
}

impl App {
    /// Fits the comment view to the lines it shows in a viewport of
    /// `inner_height` lines.
    pub fn sync_comment_scroll(&mut self, lines: &[CommentLine], inner_height: usize)
        ensures
            final(self)@ == fitted(old(self)@, lines.deep_view(), inner_height as int),
    {
        let max = if lines.len() > inner_height {
            lines.len() - inner_height
        } else {
            0
        };
        self.comment_max_scroll = max;
        if self.comment_scroll > max {
            self.comment_scroll = max;
        }
        if self.comment_keep_selection_visible {
            self.comment_scroll = scroll_to_show_comment(
                lines,
                self.comment_selected,
                self.comment_scroll,
                inner_height,
                max,
            );
            self.comment_keep_selection_visible = false;
        }
    }

    /// The title of the comment pane.
    pub fn comments_title(&self, line_count: usize) -> (r: String)
        requires
            self.comment_scroll < usize::MAX,
        ensures
            r@ == comments_title_text(self@, line_count as nat),
    {
        if self.comments.len() == 0 {
            return status_of(&chars_of("Comments"));
        }
        let mut t = chars_of("Comments · line ");
        push_decimal(&mut t, (self.comment_scroll + 1) as u64);
        push_all(&mut t, &chars_of("/"));
        let n = if line_count < 1 {
            1
        } else {
            line_count
        };
        push_decimal(&mut t, n as u64);
        status_of(&t)
    }
}

} // verus!
