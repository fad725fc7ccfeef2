//! Keys and what they do to the reader.
use vstd::prelude::*;
use crate::model::{Mode, Source};
use crate::reader::{
    after_move_bottom, after_move_down, after_move_top, after_move_up, after_select_next,
    after_select_previous, after_toggle_collapse, discussion_to_open, link_to_open, load_selected,
    open_link, switch_to, Action, App, AppView, Effect,
};

verus! {

/// A key the reader tells apart.
#[derive(Clone, Copy, Debug, PartialEq, Eq, Structural)]
pub enum KeyCode {
    Char(char),
    Up,
    Down,
    Left,
    Right,
    Enter,
    Tab,
    Esc,
    Other,
}

/// A key event: the key, whether Control was held, and whether the key was
/// pressed (rather than released or repeated).
#[derive(Clone, Copy, Debug, PartialEq, Eq, Structural)]
pub struct KeyEvent {
    pub code: KeyCode,
    pub control: bool,
    pub press: bool,
}

impl KeyEvent {
    /// A key press.
    pub fn new(code: KeyCode, control: bool) -> (r: KeyEvent)
        ensures
            r == (KeyEvent { code, control, press: true }),
    {
        KeyEvent { code, control, press: true }
    }
}

/// The key leaves the reader: `q`, Control-C or Control-D.
pub open spec fn quits(key: KeyEvent) -> bool {
    key.code == KeyCode::Char('q') || (key.control && (key.code == KeyCode::Char('c')
        || key.code == KeyCode::Char('d')))
}

/// What a key press does, as the key table of the reader lists it.
pub open spec fn key_step(a: AppView, key: KeyEvent) -> (AppView, Effect) {
    if !key.press {
        (a, Effect::Nothing)
    } else if quits(key) {
        (a, Effect::Quit)
    } else {
        match key.code {
            KeyCode::Char('j') | KeyCode::Down => (after_move_down(a), Effect::Nothing),
            KeyCode::Char('k') | KeyCode::Up => (after_move_up(a), Effect::Nothing),
            KeyCode::Char('g') => (after_move_top(a), Effect::Nothing),
            KeyCode::Char('G') => (after_move_bottom(a), Effect::Nothing),
            KeyCode::Char('o') => open_link(a, link_to_open(a)),
            KeyCode::Char('c') => open_link(a, discussion_to_open(a)),
            KeyCode::Char('r') => match a.mode {
                Mode::Posts => (a, Effect::FetchPosts(a.source)),
                Mode::Comments => load_selected(a),
            },
            _ => match a.mode {
                Mode::Posts => match key.code {
                    KeyCode::Enter => load_selected(a),
                    KeyCode::Tab => switch_to(
                        a,
                        match a.source {
                            Source::HackerNews => Source::Lobsters,
                            Source::Lobsters => Source::HackerNews,
                        },
                    ),
                    KeyCode::Char('1') => switch_to(a, Source::HackerNews),
                    KeyCode::Char('2') => switch_to(a, Source::Lobsters),
                    _ => (a, Effect::Nothing),
                },
                Mode::Comments => match key.code {
                    KeyCode::Esc | KeyCode::Char('b') => (
                        AppView { mode: Mode::Posts, ..a },
                        Effect::Nothing,
                    ),
                    KeyCode::Left | KeyCode::Char('h') => (after_select_previous(a), Effect::Nothing),
                    KeyCode::Right | KeyCode::Char('l') => (after_select_next(a), Effect::Nothing),
                    KeyCode::Char(' ') | KeyCode::Enter => (
                        after_toggle_collapse(a),
                        Effect::Nothing,
                    ),
                    _ => (a, Effect::Nothing),
                },
            },
        }
    }
}

/// Applies a key to the reader and says what outside work it asks for;
/// `Action::Quit` when the key leaves the reader.
pub fn handle_key(app: &mut App, key: KeyEvent) -> (r: Action)
    ensures
        (final(app)@, r@) == key_step(old(app)@, key),
{
    if !key.press {
        return Action::Nothing;
    }
    if key.code == KeyCode::Char('q') || (key.control && (key.code == KeyCode::Char('c')
        || key.code == KeyCode::Char('d'))) {
        return Action::Quit;
    }
    match key.code {
        KeyCode::Char('j') | KeyCode::Down => {
            app.move_down();
            Action::Nothing
        },
        KeyCode::Char('k') | KeyCode::Up => {
            app.move_up();
            Action::Nothing
        },
        KeyCode::Char('g') => {
            app.move_top();
            Action::Nothing
        },
        KeyCode::Char('G') => {
            app.move_bottom();
            Action::Nothing
        },
        KeyCode::Char('o') => app.open_selected_link(),
        KeyCode::Char('c') => app.open_discussion(),
        KeyCode::Char('r') => match app.mode {
            Mode::Posts => app.refresh(),
            Mode::Comments => app.load_comments(),
        },
        _ => match app.mode {
            Mode::Posts => match key.code {
                KeyCode::Enter => app.load_comments(),
                KeyCode::Tab => {
                    let source = match app.source {
                        Source::HackerNews => Source::Lobsters,
                        Source::Lobsters => Source::HackerNews,
                    };
                    app.switch_source(source)
                },
                KeyCode::Char('1') => app.switch_source(Source::HackerNews),
                KeyCode::Char('2') => app.switch_source(Source::Lobsters),
                _ => Action::Nothing,
            },
            Mode::Comments => match key.code {
                KeyCode::Esc | KeyCode::Char('b') => {
                    app.back_to_posts();
                    Action::Nothing
                },
                KeyCode::Left | KeyCode::Char('h') => {
                    app.select_previous_comment();
                    Action::Nothing
                },
                KeyCode::Right | KeyCode::Char('l') => {
                    app.select_next_comment();
                    Action::Nothing
                },
                KeyCode::Char(' ') | KeyCode::Enter => {
                    app.toggle_comment_collapse();
                    Action::Nothing
                },
                _ => Action::Nothing,
            },
        },
    }
}

} // verus!
