use std::collections::HashMap;

use thwack::input::{handle_key, KeyCode, KeyEvent};
use thwack::layout::comment_text_lines;
use thwack::model::{test_comment, test_post, Comment, Mode, Source};
use thwack::reader::{Action, App};

fn thread() -> Vec<Comment> {
    vec![
        test_comment("root", 0, "root text"),
        test_comment("child", 1, "child text"),
        test_comment("sibling", 0, "sibling text"),
    ]
}

fn movement_on_empty_lists() {
    let mut app = App::new();
    app.move_down();
    app.move_up();
    app.move_bottom();
    app.mode = Mode::Comments;
    app.move_down();
    app.move_up();
    app.move_bottom();
    assert_eq!(app.post_selected, 0);
    assert_eq!(app.comment_selected, 0);
    assert_eq!(app.comment_scroll, 0);
    assert_eq!(app.comment_max_scroll, 0);
}

#[test]
fn main_movement_on_empty_lists_is_a_noop() {
    movement_on_empty_lists();
}

#[test]
fn tests_movement_on_empty_lists_is_a_noop() {
    movement_on_empty_lists();
}

fn switching_sources() {
    let mut app = App::new();
    app.posts = vec![
        test_post(Source::HackerNews, "1"),
        test_post(Source::HackerNews, "2"),
    ];
    app.comments = vec![
        Comment {
            author: "a".to_string(),
            depth: 0,
            text: "x".to_string(),
            url: None,
        },
        Comment {
            author: "b".to_string(),
            depth: 1,
            text: "y".to_string(),
            url: None,
        },
    ];
    app.post_selected = 1;
    app.comment_selected = 1;
    app.mode = Mode::Comments;
    app.comment_scroll = 2;
    app.comment_max_scroll = 3;
    app.source = Source::Lobsters;
    app.collapsed_comments.insert(0);

    app.set_posts(Vec::new(), "Loaded 0 Lobsters posts".to_string());

    assert_eq!(app.source, Source::Lobsters);
    assert!(app.posts.is_empty());
    assert!(app.comments.is_empty());
    assert_eq!(app.post_selected, 0);
    assert_eq!(app.comment_selected, 0);
    assert_eq!(app.comment_scroll, 0);
    assert_eq!(app.comment_max_scroll, 0);
    assert!(app.collapsed_comments.is_empty());
    assert_eq!(app.mode, Mode::Posts);
}

#[test]
fn main_switching_sources_resets_selection_and_comments() {
    switching_sources();
}

#[test]
fn tests_switching_sources_resets_selection_and_comments() {
    switching_sources();
}

fn toggle_collapse() {
    let mut app = App::new();
    app.mode = Mode::Comments;
    app.comments = thread();

    app.toggle_comment_collapse();
    assert!(app.collapsed_comments.contains(&0));
    assert!(app.status.contains("Collapsed 1 replies"));

    app.toggle_comment_collapse();
    assert!(!app.collapsed_comments.contains(&0));
    assert!(app.status.contains("Expanded 1 replies"));

    app.comment_selected = 2;
    app.toggle_comment_collapse();
    assert!(app.collapsed_comments.contains(&2));
    assert_eq!(app.status, "Collapsed comment");

    let lines = comment_text_lines(&app.comments, &app.collapsed_comments, None, 80);
    assert!(lines
        .iter()
        .any(|line| line.text.contains("sibling [collapsed]")));
    assert!(!lines.iter().any(|line| line.text.contains("sibling text")));
}

#[test]
fn main_toggle_comment_collapse_tracks_selected_tree() {
    toggle_collapse();
}

#[test]
fn tests_toggle_comment_collapse_tracks_selected_tree() {
    toggle_collapse();
}

fn left_right_select() {
    let mut app = App::new();
    app.mode = Mode::Comments;
    app.comments = thread();
    app.collapsed_comments.insert(0);

    app.select_next_comment();
    assert_eq!(app.comment_selected, 2);
    assert!(app.comment_keep_selection_visible);

    app.select_previous_comment();
    assert_eq!(app.comment_selected, 0);
}

#[test]
fn main_left_right_select_visible_comments() {
    left_right_select();
}

#[test]
fn tests_left_right_select_visible_comments() {
    left_right_select();
}

fn control_keys_quit() {
    let mut app = App::new();
    assert!(matches!(
        handle_key(&mut app, KeyEvent::new(KeyCode::Char('c'), true)),
        Action::Quit
    ));
    assert!(matches!(
        handle_key(&mut app, KeyEvent::new(KeyCode::Char('d'), true)),
        Action::Quit
    ));
}

#[test]
fn main_control_c_and_control_d_quit() {
    control_keys_quit();
}

#[test]
fn tests_control_c_and_control_d_quit() {
    control_keys_quit();
}

#[test]
fn post_index_right_does_not_open_comments() {
    let mut app = App::new();

    handle_key(&mut app, KeyEvent::new(KeyCode::Right, false));
    assert_eq!(app.mode, Mode::Posts);
    assert_eq!(app.status, "Loading Hacker News...");

    handle_key(&mut app, KeyEvent::new(KeyCode::Enter, false));
    assert_eq!(app.status, "No post selected");
}

fn scroll_by_line() {
    let mut app = App::new();
    app.mode = Mode::Comments;
    app.comments = vec![test_comment("alice", 0, "x"), test_comment("bob", 0, "y")];
    app.comment_selected = 1;
    app.comment_max_scroll = 2;

    app.move_down();
    app.move_down();
    app.move_down();
    assert_eq!(app.comment_scroll, 2);
    assert_eq!(app.comment_selected, 1);
    assert!(!app.comment_keep_selection_visible);

    app.move_up();
    assert_eq!(app.comment_scroll, 1);
    assert_eq!(app.comment_selected, 1);

    app.move_top();
    assert_eq!(app.comment_scroll, 0);
    assert_eq!(app.comment_selected, 0);

    app.move_bottom();
    assert_eq!(app.comment_scroll, 2);
}

#[test]
fn main_comment_mode_scrolls_by_line() {
    scroll_by_line();
}

#[test]
fn tests_comment_mode_scrolls_by_line() {
    scroll_by_line();
}

#[test]
fn plain_q_quits_and_released_keys_do_nothing() {
    let mut app = App::new();
    assert!(matches!(
        handle_key(&mut app, KeyEvent::new(KeyCode::Char('q'), false)),
        Action::Quit
    ));
    let released = KeyEvent {
        code: KeyCode::Char('q'),
        control: false,
        press: false,
    };
    assert!(matches!(handle_key(&mut app, released), Action::Nothing));
    assert!(matches!(
        handle_key(&mut app, KeyEvent::new(KeyCode::Char('c'), false)),
        Action::Nothing
    ));
}

#[test]
fn enter_asks_for_the_selected_posts_comments() {
    let mut app = App::new();
    app.set_posts(
        vec![test_post(Source::HackerNews, "1"), test_post(Source::HackerNews, "2")],
        "Loaded".to_string(),
    );
    handle_key(&mut app, KeyEvent::new(KeyCode::Down, false));
    assert_eq!(app.post_selected, 1);
    assert!(matches!(
        handle_key(&mut app, KeyEvent::new(KeyCode::Enter, false)),
        Action::FetchComments(1)
    ));
}

#[test]
fn tab_and_digits_switch_sources() {
    let mut app = App::new();
    match handle_key(&mut app, KeyEvent::new(KeyCode::Tab, false)) {
        Action::FetchPosts(source) => assert_eq!(source, Source::Lobsters),
        other => panic!("unexpected {:?}", other),
    }
    assert_eq!(app.source, Source::Lobsters);
    assert_eq!(app.status, "Loading Lobsters...");
    match handle_key(&mut app, KeyEvent::new(KeyCode::Char('1'), false)) {
        Action::FetchPosts(source) => assert_eq!(source, Source::HackerNews),
        other => panic!("unexpected {:?}", other),
    }
    assert_eq!(app.source, Source::HackerNews);
}

#[test]
fn loading_posts_and_comments_sets_status() {
    let mut app = App::new();
    app.posts_loaded(vec![test_post(Source::HackerNews, "1")]);
    assert_eq!(app.status, "Loaded 1 Hacker News posts");
    assert_eq!(app.mode, Mode::Posts);
    app.comments_loaded(thread());
    assert_eq!(app.mode, Mode::Comments);
    assert_eq!(app.status, "Loaded 3 comments");
    assert!(app.comment_keep_selection_visible);
    handle_key(&mut app, KeyEvent::new(KeyCode::Esc, false));
    assert_eq!(app.mode, Mode::Posts);
}

#[test]
fn open_keys_ask_for_links() {
    let mut app = App::new();
    app.set_posts(vec![test_post(Source::HackerNews, "1")], "Loaded".to_string());
    match handle_key(&mut app, KeyEvent::new(KeyCode::Char('o'), false)) {
        Action::OpenUrl(url) => assert_eq!(url, "https://example.com"),
        other => panic!("unexpected {:?}", other),
    }
    match handle_key(&mut app, KeyEvent::new(KeyCode::Char('c'), false)) {
        Action::OpenUrl(url) => assert_eq!(url, "https://example.com/discussion"),
        other => panic!("unexpected {:?}", other),
    }
}

#[test]
fn toggling_twice_restores_the_collapsed_set() {
    let mut app = App::new();
    app.comments_loaded(thread());
    let before = app.collapsed_comments.clone();
    handle_key(&mut app, KeyEvent::new(KeyCode::Char(' '), false));
    assert_ne!(app.collapsed_comments, before);
    handle_key(&mut app, KeyEvent::new(KeyCode::Enter, false));
    assert_eq!(app.collapsed_comments, before);
    assert_eq!(app.comment_selected, 0);
}

#[test]
fn next_then_previous_returns_to_the_selection() {
    let mut app = App::new();
    app.comments_loaded(thread());
    handle_key(&mut app, KeyEvent::new(KeyCode::Char('l'), false));
    assert_eq!(app.comment_selected, 1);
    handle_key(&mut app, KeyEvent::new(KeyCode::Char('h'), false));
    assert_eq!(app.comment_selected, 0);
}

#[test]
fn fitting_the_comment_view_keeps_the_selection_visible() {
    let mut app = App::new();
    app.comments_loaded(thread());
    app.comment_selected = 2;
    let lines = comment_text_lines(&app.comments, &app.collapsed_comments, Some(2), 80);
    app.sync_comment_scroll(&lines, 2);
    assert_eq!(app.comment_max_scroll, lines.len() - 2);
    assert!(app.comment_scroll <= app.comment_max_scroll);
    let first = lines.iter().position(|l| l.owner == Some(2)).unwrap();
    assert!(app.comment_scroll <= first);
    assert!(!app.comment_keep_selection_visible);
    assert_eq!(
        app.comments_title(lines.len()),
        format!("Comments · line {}/{}", app.comment_scroll + 1, lines.len())
    );
}

fn item(id: u64, text: &str, kids: Option<Vec<u64>>) -> thwack::feed::HnItem {
    thwack::feed::HnItem {
        id,
        kind: Some("comment".to_string()),
        by: Some(format!("user{id}")),
        title: None,
        url: None,
        text: Some(text.to_string()),
        score: None,
        descendants: None,
        kids,
        deleted: None,
        dead: None,
    }
}

#[test]
fn hn_walk_reads_replies_right_after_their_parent() {
    let mut items: HashMap<u64, thwack::feed::HnItem> = HashMap::new();
    items.insert(1, item(1, "first", Some(vec![3, 4])));
    items.insert(2, item(2, "second", None));
    items.insert(3, item(3, "reply <i>a</i>", Some(vec![5])));
    items.insert(4, item(4, "reply b", None));
    items.insert(5, item(5, "deep", None));
    let mut walk = thwack::feed::HnWalk::new(&[1, 2]);
    let mut seen = Vec::new();
    while let Some((id, depth)) = walk.next_item() {
        let c = walk.visited(items.remove(&id).unwrap(), depth);
        seen.push((c.author, c.depth, c.text));
    }
    let expected: Vec<(String, usize, String)> = vec![
        ("user1".into(), 0, "first".into()),
        ("user3".into(), 1, "reply a".into()),
        ("user5".into(), 2, "deep".into()),
        ("user4".into(), 1, "reply b".into()),
        ("user2".into(), 0, "second".into()),
    ];
    assert_eq!(seen, expected);
}

#[test]
fn deleted_items_keep_their_replies() {
    let mut dead = item(7, "gone", Some(vec![8]));
    dead.deleted = Some(true);
    let mut walk = thwack::feed::HnWalk::new(&[7]);
    let (id, depth) = walk.next_item().unwrap();
    assert_eq!((id, depth), (7, 0));
    let c = walk.visited(dead, depth);
    assert_eq!((c.author.as_str(), c.text.as_str()), ("deleted", "[deleted]"));
    assert_eq!(walk.next_item(), Some((8, 1)));
    assert_eq!(walk.next_item(), None);
}

#[test]
fn hn_posts_keep_the_order_of_the_ids() {
    let mut story = |id: u64, kind: &str| {
        let mut it = item(id, "", None);
        it.kind = Some(kind.to_string());
        it.title = Some(format!("t{id}"));
        it.text = None;
        it
    };
    let mut dead = story(4, "story");
    dead.dead = Some(true);
    let items = vec![Some(story(3, "story")), None, Some(story(1, "job")), Some(dead), Some(story(2, "story"))];
    let posts = thwack::feed::hn_posts(items);
    let ids: Vec<&str> = posts.iter().map(|p| p.id.as_str()).collect();
    assert_eq!(ids, vec!["3", "2"]);
    assert_eq!(posts[1].discussion_url, "https://news.ycombinator.com/item?id=2");
}
