use loss::bookmark::{
    bookmark_line, compare_bytes, Bookmark, BookmarkMenuAction, BookmarkStore, Rank,
    BOOKMARK_NAME_MAX_LEN,
};
use loss::canvas::Canvas;
use loss::event_source::Direction;

fn names(list: &[Bookmark]) -> Vec<&str> {
    list.iter().map(|bookmark| bookmark.name.as_str()).collect()
}

fn store() -> BookmarkStore {
    let mut store = BookmarkStore::default();
    store.new_bookmark("delta", 40, b"line d");
    store.new_bookmark("alpha", 10, b"line a");
    store.new_bookmark("charlie", 30, b"line c");
    store.new_bookmark("bravo", 20, b"line b");
    store
}

#[test]
fn bytes_are_ordered_as_in_a_dictionary() {
    assert_eq!(compare_bytes(b"", b""), Rank::Same);
    assert_eq!(compare_bytes(b"", b"a"), Rank::Before);
    assert_eq!(compare_bytes(b"a", b""), Rank::After);
    assert_eq!(compare_bytes(b"abc", b"abd"), Rank::Before);
    assert_eq!(compare_bytes(b"abd", b"abc"), Rank::After);
    assert_eq!(compare_bytes(b"ab", b"abc"), Rank::Before);
    assert_eq!(compare_bytes(b"abc", b"abc"), Rank::Same);
    assert_eq!(compare_bytes(b"B", b"a"), Rank::Before);
    let mut words = vec!["pear", "Apple", "apple", "", "app", "\u{e9}t\u{e9}", "zoo"];
    let mut sorted = words.clone();
    sorted.sort();
    words.sort_by(|a, b| match compare_bytes(a.as_bytes(), b.as_bytes()) {
        Rank::Before => std::cmp::Ordering::Less,
        Rank::Same => std::cmp::Ordering::Equal,
        Rank::After => std::cmp::Ordering::Greater,
    });
    assert_eq!(words, sorted);
}

#[test]
fn bookmarks_are_kept_in_the_order_of_their_names() {
    let mut store = store();
    assert_eq!(names(&store.bookmarks), vec!["alpha", "bravo", "charlie", "delta"]);
    assert!(!store.is_active());
    // a name that is there already gets the new offset and line
    store.new_bookmark("bravo", 25, b"other line");
    assert_eq!(names(&store.bookmarks), vec!["alpha", "bravo", "charlie", "delta"]);
    assert_eq!(
        store.bookmarks[1],
        Bookmark {
            name: "bravo".to_string(),
            offset: 25,
            line: b"other line".to_vec()
        }
    );
    store.new_bookmark("", 1, b"");
    store.new_bookmark("zulu", 2, b"z");
    assert_eq!(
        names(&store.bookmarks),
        vec!["", "alpha", "bravo", "charlie", "delta", "zulu"]
    );
    assert_eq!(BOOKMARK_NAME_MAX_LEN, 50);
}

#[test]
fn menu_filters_and_moves_round_the_ends() {
    let mut store = store();
    store.handle_other_event(BookmarkMenuAction::Start);
    assert!(store.is_active());
    assert_eq!(store.menu_index, Some(0));
    assert_eq!(
        names(&store.filtered_bookmarks),
        vec!["alpha", "bravo", "charlie", "delta"]
    );
    assert_eq!(store.current_bookmark(), "alpha");
    store.handle_other_event(BookmarkMenuAction::Arrow(Direction::Up));
    assert_eq!(store.menu_index, Some(3));
    store.handle_other_event(BookmarkMenuAction::Arrow(Direction::Down));
    assert_eq!(store.menu_index, Some(0));
    store.handle_other_event(BookmarkMenuAction::Arrow(Direction::Down));
    store.handle_other_event(BookmarkMenuAction::Arrow(Direction::Down));
    assert_eq!(store.current_bookmark(), "charlie");
    // the pointer stays on the bookmark where the filter leaves it
    store.handle_other_event(BookmarkMenuAction::Content("a".to_string()));
    assert_eq!(
        names(&store.filtered_bookmarks),
        vec!["alpha", "bravo", "charlie", "delta"]
    );
    assert_eq!(store.menu_index, Some(2));
    store.handle_other_event(BookmarkMenuAction::Content("ha".to_string()));
    assert_eq!(names(&store.filtered_bookmarks), vec!["alpha", "charlie"]);
    assert_eq!(store.menu_index, Some(1));
    assert_eq!(store.filter_content, "ha");
    assert_eq!(store.position_of(&"charlie".to_string()), Some(1));
    assert_eq!(store.position_of(&"bravo".to_string()), None);
    // and goes to the first where it does not
    store.handle_other_event(BookmarkMenuAction::Content("alp".to_string()));
    assert_eq!(names(&store.filtered_bookmarks), vec!["alpha"]);
    assert_eq!(store.menu_index, Some(0));
    store.handle_other_event(BookmarkMenuAction::Content("none".to_string()));
    assert!(store.filtered_bookmarks.is_empty());
    assert_eq!(store.menu_index, Some(0));
    store.handle_other_event(BookmarkMenuAction::Arrow(Direction::Down));
    assert_eq!(store.menu_index, Some(0));
    assert_eq!(store.handle_enter_event(), None);
    assert!(store.is_active());
    store.handle_other_event(BookmarkMenuAction::Content("r".to_string()));
    assert_eq!(names(&store.filtered_bookmarks), vec!["bravo", "charlie"]);
    store.handle_other_event(BookmarkMenuAction::Arrow(Direction::Up));
    let picked = store
        .handle_enter_event()
        .map(|bookmark| (bookmark.name.clone(), bookmark.offset, bookmark.line.clone()));
    assert_eq!(
        picked,
        Some(("charlie".to_string(), 30, b"line c".to_vec()))
    );
    assert!(!store.is_active());
    store.handle_other_event(BookmarkMenuAction::Start);
    store.handle_other_event(BookmarkMenuAction::Cancel);
    assert!(!store.is_active());
    store.load_filtered_bookmarks("lt");
    assert_eq!(names(&store.filtered_bookmarks), vec!["delta"]);
}

fn content(canvas: &Canvas, row: usize) -> String {
    String::from_utf8(canvas.popup_menu[row].raw_content().to_vec()).unwrap()
}

#[test]
fn bookmark_menu_is_drawn() {
    let mut store = store();
    store.handle_other_event(BookmarkMenuAction::Start);
    store.handle_other_event(BookmarkMenuAction::Arrow(Direction::Down));
    let mut canvas = Canvas::default();
    store.render(&mut canvas, 70, 30);
    assert_eq!(canvas.popup_menu.len(), 10);
    assert_eq!(
        content(&canvas, 0),
        format!("{}{}{}", "=".repeat(27), " Bookmark Menu ", "=".repeat(28))
    );
    assert_eq!(
        content(&canvas, 1),
        format!("   {:<50}    {}", "alpha", "line a")
    );
    assert_eq!(
        content(&canvas, 2),
        format!(" > {:<50}    {}", "bravo", "line b")
    );
    assert_eq!(
        content(&canvas, 4),
        format!("   {:<50}    {}", "delta", "line d")
    );
    for row in 5..10 {
        assert_eq!(content(&canvas, row), "");
    }
    assert_eq!(canvas.status_bar.raw_content(), b"Filter bookmark: ");
    assert_eq!(canvas.cursor_pos_x, Some(17));
    // a narrow window cuts the lines, a low one shows the title alone
    store.handle_other_event(BookmarkMenuAction::Content("lph".to_string()));
    let mut canvas = Canvas::default();
    store.render(&mut canvas, 12, 15);
    assert_eq!(content(&canvas, 0), "== Bookmark ");
    assert_eq!(content(&canvas, 1), " > alpha    ");
    assert_eq!(canvas.status_bar.raw_content(), b"Filter bookm");
    assert_eq!(canvas.cursor_pos_x, Some(20));
    let mut canvas = Canvas::default();
    store.render(&mut canvas, 40, 14);
    assert!(canvas.popup_menu.is_empty());
    assert_eq!(
        canvas.status_bar.raw_content(),
        format!("{}{}{}", "=".repeat(12), " Bookmark Menu ", "=".repeat(13)).as_bytes()
    );
    assert_eq!(canvas.cursor_pos_x, None);
}

#[test]
fn bookmark_menu_lists_nine_bookmarks() {
    let mut store = BookmarkStore::default();
    for index in 0..12 {
        store.new_bookmark(&format!("mark {:02}", index), index * 10, b"line");
    }
    store.handle_other_event(BookmarkMenuAction::Start);
    let first_listed = |store: &BookmarkStore| {
        let mut canvas = Canvas::default();
        store.render(&mut canvas, 80, 40);
        assert_eq!(canvas.popup_menu.len(), 10);
        let rows: Vec<String> = (1..10).map(|row| content(&canvas, row)).collect();
        let pointed: Vec<usize> = (0..9).filter(|row| rows[*row].starts_with(" > ")).collect();
        (rows[0][3..10].to_string(), pointed)
    };
    assert_eq!(first_listed(&store), ("mark 00".to_string(), vec![0]));
    store.handle_other_event(BookmarkMenuAction::Arrow(Direction::Down));
    store.handle_other_event(BookmarkMenuAction::Arrow(Direction::Down));
    assert_eq!(first_listed(&store), ("mark 02".to_string(), vec![0]));
    store.handle_other_event(BookmarkMenuAction::Arrow(Direction::Down));
    // fewer than ten follow: the last nine are listed
    assert_eq!(first_listed(&store), ("mark 03".to_string(), vec![0]));
    store.handle_other_event(BookmarkMenuAction::Arrow(Direction::Up));
    store.handle_other_event(BookmarkMenuAction::Arrow(Direction::Up));
    store.handle_other_event(BookmarkMenuAction::Arrow(Direction::Up));
    store.handle_other_event(BookmarkMenuAction::Arrow(Direction::Up));
    assert_eq!(store.menu_index, Some(11));
    assert_eq!(first_listed(&store), ("mark 03".to_string(), vec![8]));
}

#[test]
fn long_and_wide_names_are_not_padded() {
    let long = Bookmark {
        name: "n".repeat(60),
        offset: 0,
        line: b"body".to_vec(),
    };
    let line = bookmark_line(&long, false, 200);
    assert_eq!(
        line.raw_content(),
        format!("   {}    body", "n".repeat(60)).as_bytes()
    );
    let wide = Bookmark {
        name: "caf\u{e9}".to_string(),
        offset: 0,
        line: b"body".to_vec(),
    };
    let line = bookmark_line(&wide, true, 200);
    assert_eq!(
        line.raw_content(),
        format!(" > {:<50}    body", "caf\u{e9}").as_bytes()
    );
}

#[test]
fn enter_without_bookmarks_picks_nothing() {
    // the menu was never opened and nothing is listed
    let mut store = BookmarkStore::default();
    assert!(!store.is_active());
    assert_eq!(store.handle_enter_event(), None);
    assert!(!store.is_active());
    assert_eq!(store.menu_index, None);
}
