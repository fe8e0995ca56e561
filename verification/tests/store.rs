use board_store::board::NewBoard;
use board_store::database::{
    board_exists, content_is_valid, create_boards, create_post, create_thread, create_thread_at,
    effective_name, get_board, get_catalog, get_thread, next_post_number, thread_exists, Store,
};
use board_store::errors::StoreError;

fn new_board(short: &str, long: &str, desc: &str) -> NewBoard {
    NewBoard {
        short_name: short.to_string(),
        long_name: long.to_string(),
        description: desc.to_string(),
    }
}

fn store_with_board(short: &str) -> Store {
    let mut s = Store::new();
    let boards = vec![new_board(short, "A board", "about things")];
    create_boards(&mut s, &boards).unwrap();
    s
}

#[test]
fn board_and_thread_existence_flips_on_creation() {
    let mut s = Store::new();
    assert_eq!(board_exists(&s, "b"), Ok(false));
    let boards = vec![new_board("b", "Board", "d")];
    create_boards(&mut s, &boards).unwrap();
    assert_eq!(board_exists(&s, "b"), Ok(true));
    assert_eq!(board_exists(&s, "c"), Ok(false));

    assert_eq!(thread_exists(&s, "b", 1), Ok(false));
    let n = create_thread_at(&mut s, "b", "subj", "me", "", "hello", 11).unwrap();
    assert_eq!(thread_exists(&s, "b", n), Ok(true));
    assert_eq!(thread_exists(&s, "b", n + 1), Ok(false));
    assert_eq!(thread_exists(&s, "c", n), Ok(false));
}

#[test]
fn allocator_returns_distinct_consecutive_numbers() {
    let mut s = store_with_board("b");
    let mut got = Vec::new();
    for _ in 0..5 {
        got.push(next_post_number(&mut s, "b").unwrap());
    }
    assert_eq!(got, vec![1, 2, 3, 4, 5]);
    let board = get_board(&s, "b").unwrap();
    assert_eq!(board.post_counter, 5);
}

#[test]
fn allocator_rejects_missing_board() {
    let mut s = store_with_board("b");
    assert_eq!(next_post_number(&mut s, "nope"), Err(StoreError::NotFound));
    assert_eq!(get_board(&s, "b").unwrap().post_counter, 0);
}

#[test]
fn scenario_thread_then_reply() {
    let mut s = store_with_board("b");
    let t = create_thread_at(&mut s, "b", "hi", "anon", "", "first post", 99).unwrap();
    assert_eq!(t, 1);

    let catalog = get_catalog(&s, "b");
    assert_eq!(catalog.len(), 1);
    assert_eq!(catalog[0].post_number, 1);

    let p = create_post(&mut s, "b", 1, "anon", "", "reply").unwrap();
    assert_eq!(p, 2);

    let (root, replies) = get_thread(&s, "b", 1).unwrap();
    assert_eq!(root.post_number, 1);
    assert_eq!(root.parent, 1);
    assert!(root.is_thread);
    assert_eq!(root.subject.as_deref(), Some("hi"));
    assert_eq!(root.content, "first post");
    assert_eq!(root.last_modified, Some(99));
    assert_eq!(replies.len(), 1);
    assert_eq!(replies[0].post_number, 2);
    assert_eq!(replies[0].parent, 1);
    assert!(!replies[0].is_thread);
    assert_eq!(replies[0].subject, None);
    assert_eq!(replies[0].last_modified, None);
}

#[test]
fn scenario_reply_to_missing_thread_is_not_found() {
    let mut s = store_with_board("b");
    create_thread_at(&mut s, "b", "hi", "anon", "", "first post", 1).unwrap();
    let before = s.posts.len();
    let r = create_post(&mut s, "b", 99, "anon", "", "reply");
    assert_eq!(r, Err(StoreError::NotFound));
    assert_eq!(s.posts.len(), before);
    assert_eq!(get_board(&s, "b").unwrap().post_counter, 1);
}

#[test]
fn empty_or_whitespace_content_is_rejected_without_side_effects() {
    let mut s = store_with_board("b");
    for bad in ["", " ", " \t\r\n ", "\u{b}\u{c}"] {
        let r = create_thread_at(&mut s, "b", "s", "n", "", bad, 0);
        assert_eq!(r, Err(StoreError::ValidationError));
    }
    assert_eq!(s.posts.len(), 0);
    assert_eq!(get_board(&s, "b").unwrap().post_counter, 0);

    let t = create_thread_at(&mut s, "b", "s", "n", "", "ok", 0).unwrap();
    let r = create_post(&mut s, "b", t, "n", "", "  ");
    assert_eq!(r, Err(StoreError::ValidationError));
    assert_eq!(s.posts.len(), 1);
    assert_eq!(get_board(&s, "b").unwrap().post_counter, 1);
}

#[test]
fn content_validation_accepts_embedded_text() {
    assert!(!content_is_valid(""));
    assert!(!content_is_valid("   "));
    assert!(content_is_valid("  x  "));
    assert!(content_is_valid("x"));
}

#[test]
fn empty_poster_name_defaults_to_placeholder() {
    let mut s = store_with_board("b");
    let t = create_thread_at(&mut s, "b", "s", "", "", "hello", 0).unwrap();
    let (root, _) = get_thread(&s, "b", t).unwrap();
    assert_eq!(root.name, "Anonymous");
    assert_eq!(effective_name("bob"), "bob");
    assert_eq!(effective_name(""), "Anonymous");
}

#[test]
fn thread_on_missing_board_is_not_found() {
    let mut s = store_with_board("b");
    let r = create_thread_at(&mut s, "nope", "s", "n", "", "hello", 0);
    assert_eq!(r, Err(StoreError::NotFound));
    assert_eq!(s.posts.len(), 0);
}

#[test]
fn create_boards_ignores_duplicate_short_names() {
    let mut s = Store::new();
    let first = vec![new_board("b", "Board", "d"), new_board("c", "Culture", "d2")];
    create_boards(&mut s, &first).unwrap();
    create_thread_at(&mut s, "b", "s", "n", "", "hello", 0).unwrap();

    let again = vec![new_board("b", "Renamed", "other")];
    create_boards(&mut s, &again).unwrap();

    assert_eq!(s.boards.len(), 2);
    let b = get_board(&s, "b").unwrap();
    assert_eq!(b.long_name, "Board");
    assert_eq!(b.post_counter, 1);
}

#[test]
fn catalog_lists_exactly_the_boards_active_roots() {
    let mut s = Store::new();
    let boards = vec![new_board("b", "Board", "d"), new_board("c", "Culture", "d2")];
    create_boards(&mut s, &boards).unwrap();
    let t1 = create_thread_at(&mut s, "b", "one", "n", "", "first", 10).unwrap();
    let t2 = create_thread_at(&mut s, "b", "two", "n", "", "second", 20).unwrap();
    let other = create_thread_at(&mut s, "c", "else", "n", "", "elsewhere", 30).unwrap();
    create_post(&mut s, "b", t1, "n", "", "a reply").unwrap();

    let catalog = get_catalog(&s, "b");
    let numbers: Vec<i64> = catalog.iter().map(|p| p.post_number).collect();
    assert_eq!(numbers, vec![t2, t1]);
    assert!(catalog.iter().all(|p| p.is_thread && p.is_active && p.board == "b"));

    let other_catalog = get_catalog(&s, "c");
    assert_eq!(other_catalog.len(), 1);
    assert_eq!(other_catalog[0].post_number, other);

    assert!(get_catalog(&s, "nope").is_empty());
}

#[test]
fn catalog_puts_pinned_threads_first_then_recency() {
    let mut s = store_with_board("b");
    let t1 = create_thread_at(&mut s, "b", "one", "n", "", "first", 10).unwrap();
    let t2 = create_thread_at(&mut s, "b", "two", "n", "", "second", 20).unwrap();
    let t3 = create_thread_at(&mut s, "b", "three", "n", "", "third", 30).unwrap();

    let numbers: Vec<i64> = get_catalog(&s, "b").iter().map(|p| p.post_number).collect();
    assert_eq!(numbers, vec![t3, t2, t1]);

    // A moderator pins the oldest thread: it must lead the catalog.
    let slot = s.posts.iter().position(|p| p.post_number == t1).unwrap();
    s.posts[slot].pinned = true;
    let numbers: Vec<i64> = get_catalog(&s, "b").iter().map(|p| p.post_number).collect();
    assert_eq!(numbers, vec![t1, t3, t2]);
}

#[test]
fn unstamped_roots_sort_after_stamped_ones() {
    let mut s = store_with_board("b");
    let t1 = create_thread_at(&mut s, "b", "one", "n", "", "first", 10).unwrap();
    // A row written before timestamps were kept: no last_modified at all.
    let slot = s.posts.iter().position(|p| p.post_number == t1).unwrap();
    s.posts[slot].last_modified = None;
    let t2 = create_thread_at(&mut s, "b", "two", "n", "", "second", 5).unwrap();
    let numbers: Vec<i64> = get_catalog(&s, "b").iter().map(|p| p.post_number).collect();
    assert_eq!(numbers, vec![t2, t1]);
}

#[test]
fn replies_come_back_in_post_number_order() {
    let mut s = store_with_board("b");
    let t = create_thread_at(&mut s, "b", "s", "n", "", "root", 0).unwrap();
    let mut expected = Vec::new();
    for text in ["r1", "r2", "r3"] {
        expected.push(create_post(&mut s, "b", t, "n", "", text).unwrap());
    }
    let (_, replies) = get_thread(&s, "b", t).unwrap();
    let numbers: Vec<i64> = replies.iter().map(|p| p.post_number).collect();
    assert_eq!(numbers, expected);
    assert!(numbers.windows(2).all(|w| w[0] < w[1]));
}

#[test]
fn get_thread_misses_boards_replies_and_absent_numbers() {
    let mut s = store_with_board("b");
    let t = create_thread_at(&mut s, "b", "s", "n", "", "root", 0).unwrap();
    let r = create_post(&mut s, "b", t, "n", "", "reply").unwrap();
    assert!(get_thread(&s, "b", t).is_some());
    assert!(get_thread(&s, "b", r).is_none());
    assert!(get_thread(&s, "b", 42).is_none());
    assert!(get_thread(&s, "c", t).is_none());
}

#[test]
fn clock_backed_thread_creation_stamps_a_time() {
    let mut s = store_with_board("b");
    let t = create_thread(&mut s, "b", "s", "n", "", "hello").unwrap();
    assert_eq!(t, 1);
    let (root, _) = get_thread(&s, "b", t).unwrap();
    assert!(root.last_modified.is_some());
}
