use loss::bookmark::BookmarkMenuAction;
use loss::document::{Document, Fetch};
use loss::event_source::{Direction, Event, EventSource, KeyCode, KeyEvent, KeyModifiers};
use loss::finder::FinderAction;
use loss::manager::{max_line_len, parse_line_count, wrap_line, Manager, Mode};
use loss::prompt::PromptAction;
use loss::render::LineWithRenderScheme;

const LOG: &[u8] = b"2024-01-01 10:00:00 start\n2024-01-01 10:00:05 debug one\n2024-01-01 10:00:10 error two\n2024-01-01 10:00:15 debug three\n2024-01-01 10:00:20 error four\n2024-01-01 10:00:25 end";

fn manager(data: &[u8], width: usize, height: usize, chunk_size: usize) -> Manager {
    let tail: &[u8] = match Document::tail_window(data.len()) {
        Some((begin, end)) => &data[begin..end],
        None => &[],
    };
    let mut document = Document::new(data.len(), tail).unwrap();
    document.chunks.clear();
    document.set_default_chunk_size(chunk_size);
    Manager::new(document, width, height)
}

fn load(manager: &mut Manager, data: &[u8], at: usize) {
    let (begin, end) = manager.plan_load_around(at).unwrap();
    manager
        .load_chunk_around(at, &data[begin..end])
        .unwrap()
        .unwrap();
}

fn send(manager: &mut Manager, data: &[u8], event: Event) -> bool {
    loop {
        assert_eq!(check(manager, data), true);
        match manager.dispatch_event(&event, false) {
            Fetch::Ready(exit) => return exit,
            Fetch::Missing(at) => load(manager, data, at),
        }
    }
}

fn check(manager: &mut Manager, data: &[u8]) -> bool {
    loop {
        match manager.ensure_consistency() {
            Fetch::Ready(consistent) => return consistent,
            Fetch::Missing(at) => load(manager, data, at),
        }
    }
}

fn draw(manager: &mut Manager, data: &[u8]) -> Vec<String> {
    loop {
        match manager.fill_canvas() {
            Fetch::Ready(_) => break,
            Fetch::Missing(at) => load(manager, data, at),
        }
    }
    manager
        .canvas
        .body_area
        .iter()
        .map(|line| String::from_utf8(line.raw_content().to_vec()).unwrap())
        .collect()
}

fn status(manager: &Manager) -> String {
    String::from_utf8(manager.canvas.status_bar.raw_content().to_vec()).unwrap()
}

fn line_starts(data: &[u8]) -> Vec<usize> {
    let mut starts = vec![0];
    for (index, byte) in data.iter().enumerate() {
        if *byte == b'\n' && index + 1 < data.len() {
            starts.push(index + 1);
        }
    }
    starts
}

#[test]
fn line_counts_are_read() {
    assert_eq!(parse_line_count("0"), Some(0));
    assert_eq!(parse_line_count("12"), Some(12));
    assert_eq!(parse_line_count("+12"), Some(12));
    assert_eq!(parse_line_count("007"), Some(7));
    assert_eq!(parse_line_count(""), None);
    assert_eq!(parse_line_count("+"), None);
    assert_eq!(parse_line_count("-1"), None);
    assert_eq!(parse_line_count("1 "), None);
    assert_eq!(parse_line_count("1a"), None);
    assert_eq!(parse_line_count("++1"), None);
    assert_eq!(parse_line_count("\u{663}"), None);
    assert_eq!(
        parse_line_count(&usize::MAX.to_string()),
        Some(usize::MAX)
    );
    assert_eq!(parse_line_count(&format!("{}0", usize::MAX)), None);
    assert_eq!(parse_line_count("99999999999999999999999999"), None);
    for text in ["5", "+5", "", "x", "18446744073709551616", "18446744073709551615"] {
        assert_eq!(parse_line_count(text), text.parse::<usize>().ok());
    }
}

#[test]
fn lines_are_wrapped_and_measured() {
    let line = LineWithRenderScheme::new(b"0123456789");
    let pieces = |width: usize| -> Vec<Vec<u8>> {
        wrap_line(&line, width)
            .iter()
            .map(|piece| piece.raw_content().to_vec())
            .collect()
    };
    assert_eq!(
        pieces(4),
        vec![b"0123".to_vec(), b"4567".to_vec(), b"89".to_vec()]
    );
    assert_eq!(pieces(5), vec![b"01234".to_vec(), b"56789".to_vec(), b"".to_vec()]);
    assert_eq!(pieces(11), vec![b"0123456789".to_vec()]);
    assert_eq!(
        wrap_line(&LineWithRenderScheme::empty(), 3).len(),
        1
    );
    assert_eq!(max_line_len(&vec![b"ab".to_vec(), b"abcd".to_vec(), b"".to_vec()]), 4);
    assert_eq!(max_line_len(&Vec::new()), 0);
}

#[test]
fn frame_shows_the_lines_from_the_window_on() {
    let mut manager = manager(LOG, 30, 5, 80);
    manager.context.need_rerender = true;
    assert_eq!(
        draw(&mut manager, LOG),
        vec![
            "2024-01-01 10:00:00 start",
            "2024-01-01 10:00:05 debug one",
            "2024-01-01 10:00:10 error two",
            "2024-01-01 10:00:15 debug thre",
        ]
    );
    assert_eq!(status(&manager), format!("{}0%", " ".repeat(28)));
    assert_eq!(manager.canvas.screen_buffer().len(), 5);
    assert!(!send(&mut manager, LOG, Event::WindowMove(Direction::Right, 3)));
    assert_eq!(manager.window.horizontal_shift, 1);
    assert!(!send(&mut manager, LOG, Event::WindowMove(Direction::Down, 4)));
    assert_eq!(
        draw(&mut manager, LOG),
        vec![
            "024-01-01 10:00:20 error four",
            "024-01-01 10:00:25 end",
            "~",
            "~",
        ]
    );
    assert_eq!(status(&manager), format!("{}79%", " ".repeat(27)));
    assert!(!send(&mut manager, LOG, Event::WindowMove(Direction::Left, 5)));
    assert_eq!(manager.window.horizontal_shift, 0);
    assert!(!send(&mut manager, LOG, Event::ToggleWrapLine));
    assert!(!send(&mut manager, LOG, Event::WindowMove(Direction::Right, 3)));
    assert_eq!(manager.window.horizontal_shift, 0);
    assert!(!send(&mut manager, LOG, Event::TerminalResize(12, 7)));
    assert_eq!(
        draw(&mut manager, LOG),
        vec![
            "2024-01-01 1",
            "0:00:20 erro",
            "r four",
            "2024-01-01 1",
            "0:00:25 end",
            "~",
        ]
    );
    assert!(send(&mut manager, LOG, Event::Exit));
}

#[test]
fn frame_is_passed_over_once() {
    let mut manager = manager(LOG, 30, 5, 80);
    assert!(!manager.context.need_rerender);
    assert_eq!(manager.fill_canvas(), Fetch::Ready(false));
    assert!(manager.canvas.body_area.is_empty());
    assert_eq!(manager.fill_canvas(), Fetch::Missing(0));
    assert_eq!(draw(&mut manager, LOG).len(), 4);
}

#[test]
fn window_stays_on_line_starts() {
    let starts = line_starts(LOG);
    let last = *starts.last().unwrap();
    let mut manager = manager(LOG, 30, 4, 80);
    let mut seen = vec![manager.window.offset()];
    let events = [
        Event::WindowMove(Direction::Down, 1),
        Event::WindowMove(Direction::Down, 3),
        Event::WindowMove(Direction::Up, 2),
        Event::WindowMove(Direction::Down, 20),
        Event::WindowMove(Direction::Up, 1),
        Event::SeekToHome,
        Event::SeekToEnd,
        Event::UndoWindowVerticalMove,
        Event::UndoWindowVerticalMove,
        Event::RedoWindowVerticalMove,
        Event::WindowMove(Direction::Up, 20),
    ];
    for event in events {
        assert!(!send(&mut manager, LOG, event));
        let offset = manager.window.offset();
        assert!(starts.contains(&offset));
        assert!(offset <= last);
        assert_eq!(manager.document.last_line_start_offset(), last);
        seen.push(offset);
    }
    assert_eq!(
        seen,
        vec![
            0, starts[1], starts[4], starts[2], starts[5], starts[4], 0, starts[3], 0, starts[4],
            0, 0
        ]
    );
    assert!(check(&mut manager, LOG));
    manager.window.set_offset(3);
    assert!(!check(&mut manager, LOG));
    manager.window.set_offset(last + 1);
    assert!(!check(&mut manager, LOG));
}

#[test]
fn search_moves_to_matches() {
    let starts = line_starts(LOG);
    let mut manager = manager(LOG, 40, 4, 80);
    let enter = |text: &str| Event::Search(PromptAction::Enter(text.to_string()));
    send(&mut manager, LOG, Event::Search(PromptAction::Start(Some(Direction::Down))));
    assert_eq!(manager.status_bar.text, "Search: ");
    send(&mut manager, LOG, Event::Search(PromptAction::Content("err".to_string())));
    assert_eq!(manager.status_bar.text, "Search: err");
    send(&mut manager, LOG, enter("error"));
    assert_eq!(manager.status_bar.text, "");
    assert_eq!(manager.window.offset(), starts[2]);
    assert_eq!(manager.context.searching_direction, None);
    send(&mut manager, LOG, Event::SearchNext);
    assert_eq!(manager.window.offset(), starts[4]);
    send(&mut manager, LOG, Event::SearchNext);
    assert_eq!(manager.window.offset(), starts[4]);
    assert_eq!(manager.status_bar.oneoff_error_text, Some("Not found".to_string()));
    send(&mut manager, LOG, Event::SearchPrevious);
    assert_eq!(manager.window.offset(), starts[2]);
    send(&mut manager, LOG, Event::Search(PromptAction::Start(Some(Direction::Up))));
    send(&mut manager, LOG, enter("start"));
    assert_eq!(manager.window.offset(), 0);
    send(&mut manager, LOG, Event::Search(PromptAction::Start(Some(Direction::Down))));
    send(&mut manager, LOG, enter("10:00:25"));
    assert_eq!(manager.window.offset(), starts[5]);
    send(&mut manager, LOG, Event::Search(PromptAction::Start(Some(Direction::Up))));
    send(&mut manager, LOG, Event::Search(PromptAction::Cancel));
    assert_eq!(manager.context.searching_direction, None);
    // with two active slots no pattern is taken
    send(&mut manager, LOG, Event::FinderOperation(FinderAction::AddActiveSlot(2)));
    send(&mut manager, LOG, Event::Search(PromptAction::Start(Some(Direction::Up))));
    send(&mut manager, LOG, enter("debug"));
    assert_eq!(
        manager.status_bar.oneoff_error_text,
        Some("Cannot search with more than one active Finder slot".to_string())
    );
    assert_eq!(manager.finder.slots[0].pattern, Some("10:00:25".to_string()));
    assert_eq!(manager.window.offset(), starts[5]);
}

#[test]
fn finder_filters_and_colours_the_frame() {
    let mut manager = manager(LOG, 40, 7, 80);
    manager.context.need_rerender = true;
    send(&mut manager, LOG, Event::Search(PromptAction::Start(Some(Direction::Down))));
    send(&mut manager, LOG, Event::Search(PromptAction::Enter("debug".to_string())));
    send(&mut manager, LOG, Event::SeekToHome);
    send(&mut manager, LOG, Event::FinderOperation(FinderAction::ToggleFoldAction));
    assert_eq!(
        draw(&mut manager, LOG),
        vec![
            "2024-01-01 10:00:00 start",
            "2024-01-01 10:00:10 error two",
            "2024-01-01 10:00:20 error four",
            "2024-01-01 10:00:25 end",
            "~",
            "~",
        ]
    );
    send(&mut manager, LOG, Event::FinderOperation(FinderAction::ToggleExclusiveAction));
    let body = draw(&mut manager, LOG);
    assert_eq!(
        body,
        vec![
            "2024-01-01 10:00:05 debug one",
            "2024-01-01 10:00:15 debug three",
            "~",
            "~",
            "~",
            "~",
        ]
    );
    let schemes = manager.canvas.body_area[0].schemes();
    assert_eq!(schemes.len(), 1);
    assert_eq!((schemes[0].start, schemes[0].end), (20, 25));
    assert!(manager.canvas.body_area[2].schemes().is_empty());
    send(&mut manager, LOG, Event::FinderOperation(FinderAction::AddActiveSlotStart));
    assert_eq!(manager.status_bar.text, "Adding Finder active slot ...");
    send(&mut manager, LOG, Event::FinderOperation(FinderAction::RemoveActiveSlotStart));
    assert_eq!(manager.status_bar.text, "Removing Finder active slot ...");
    send(&mut manager, LOG, Event::FinderOperation(FinderAction::MenuOn));
    assert_eq!(manager.status_bar.text, "");
    assert_eq!(draw(&mut manager, LOG).len(), 6);
    assert!(manager.canvas.popup_menu.is_empty());
    send(&mut manager, LOG, Event::TerminalResize(60, 17));
    draw(&mut manager, LOG);
    assert_eq!(manager.canvas.popup_menu.len(), 11);
    assert_eq!(manager.canvas.screen_buffer().len(), 17);
}

#[test]
fn jumps_by_lines_and_to_timestamps() {
    let starts = line_starts(LOG);
    let mut manager = manager(LOG, 40, 4, 80);
    let jump = |text: &str| Event::JumpByLines(PromptAction::Enter(text.to_string()));
    send(&mut manager, LOG, Event::JumpByLines(PromptAction::Start(Some(Direction::Down))));
    assert_eq!(manager.status_bar.text, "Jump to below N lines: ");
    send(&mut manager, LOG, Event::JumpByLines(PromptAction::Content("3".to_string())));
    assert_eq!(manager.status_bar.text, "Jump to below N lines: 3");
    send(&mut manager, LOG, jump("3"));
    assert_eq!(manager.window.offset(), starts[3]);
    assert_eq!(manager.status_bar.text, "");
    assert_eq!(manager.context.jumping_direction, None);
    send(&mut manager, LOG, Event::JumpByLines(PromptAction::Start(Some(Direction::Up))));
    assert_eq!(manager.status_bar.text, "Jump to above N lines: ");
    send(&mut manager, LOG, jump("2"));
    assert_eq!(manager.window.offset(), starts[1]);
    send(&mut manager, LOG, Event::JumpByLines(PromptAction::Start(Some(Direction::Up))));
    send(&mut manager, LOG, jump("two"));
    assert_eq!(manager.window.offset(), starts[1]);
    assert_eq!(
        manager.status_bar.oneoff_error_text,
        Some("Invalid line count".to_string())
    );
    send(&mut manager, LOG, Event::JumpByLines(PromptAction::Start(Some(Direction::Up))));
    send(&mut manager, LOG, Event::JumpByLines(PromptAction::Cancel));
    assert_eq!(manager.context.jumping_direction, None);

    let at = |text: &str| Event::JumpToTimestamp(PromptAction::Enter(text.to_string()));
    send(&mut manager, LOG, Event::JumpToTimestamp(PromptAction::Start(None)));
    assert_eq!(manager.status_bar.text, "Jump to timestamp");
    send(&mut manager, LOG, Event::JumpToTimestamp(PromptAction::Content("10".to_string())));
    assert_eq!(manager.status_bar.text, "Jump to timestamp: 10");
    send(&mut manager, LOG, at("10:00:12"));
    assert_eq!(manager.window.offset(), starts[3]);
    send(&mut manager, LOG, at("2024-01-01 10:00:05"));
    assert_eq!(manager.window.offset(), starts[1]);
    send(&mut manager, LOG, at("noon"));
    assert_eq!(manager.window.offset(), starts[1]);
    assert_eq!(
        manager.status_bar.oneoff_error_text,
        Some("Invalid timestamp".to_string())
    );
    send(&mut manager, LOG, Event::JumpToTimestamp(PromptAction::Cancel));

    let plain = b"no\ntimestamps\nhere";
    let mut manager = self::manager(plain, 40, 4, 80);
    send(&mut manager, plain, Event::WindowMove(Direction::Down, 1));
    send(&mut manager, plain, at("10:00"));
    assert_eq!(
        manager.status_bar.oneoff_error_text,
        Some("Cannot jump to timestamp".to_string())
    );
}

#[test]
fn bookmarks_are_set_and_gone_to() {
    let starts = line_starts(LOG);
    let mut manager = manager(LOG, 80, 30, 80);
    let name = |text: &str| Event::NewBookmark(PromptAction::Enter(text.to_string()));
    send(&mut manager, LOG, Event::WindowMove(Direction::Down, 2));
    send(&mut manager, LOG, Event::NewBookmark(PromptAction::Start(None)));
    assert_eq!(manager.status_bar.text, "New bookmark: ");
    send(&mut manager, LOG, Event::NewBookmark(PromptAction::Content("tw".to_string())));
    assert_eq!(manager.status_bar.text, "New bookmark: tw");
    send(&mut manager, LOG, name("two"));
    assert_eq!(
        manager.status_bar.oneoff_error_text,
        Some("Bookmark saved: two".to_string())
    );
    send(&mut manager, LOG, Event::SeekToEnd);
    send(&mut manager, LOG, name("end"));
    send(&mut manager, LOG, name(&"n".repeat(51)));
    assert_eq!(
        manager.status_bar.oneoff_error_text,
        Some("Bookmark name should have no more than 50 chars".to_string())
    );
    send(&mut manager, LOG, Event::NewBookmark(PromptAction::Cancel));
    let kept: Vec<(String, usize, String)> = manager
        .bookmark_store
        .bookmarks
        .iter()
        .map(|bookmark| {
            (
                bookmark.name.clone(),
                bookmark.offset,
                String::from_utf8(bookmark.line.clone()).unwrap(),
            )
        })
        .collect();
    assert_eq!(
        kept,
        vec![
            ("end".to_string(), 0, "2024-01-01 10:00:00 start".to_string()),
            ("two".to_string(), starts[2], "2024-01-01 10:00:10 error two".to_string()),
        ]
    );
    send(&mut manager, LOG, Event::SeekToHome);
    send(&mut manager, LOG, Event::GotoBookmark(BookmarkMenuAction::Start));
    manager.context.need_rerender = true;
    draw(&mut manager, LOG);
    assert_eq!(manager.canvas.popup_menu.len(), 10);
    assert_eq!(status(&manager), "Filter bookmark: ");
    send(
        &mut manager,
        LOG,
        Event::GotoBookmark(BookmarkMenuAction::Arrow(Direction::Down)),
    );
    send(
        &mut manager,
        LOG,
        Event::GotoBookmark(BookmarkMenuAction::Content("w".to_string())),
    );
    send(&mut manager, LOG, Event::GotoBookmark(BookmarkMenuAction::Enter));
    assert_eq!(manager.window.offset(), starts[2]);
    assert_eq!(
        manager.status_bar.oneoff_error_text,
        Some("Jumped to bookmark: two".to_string())
    );
    assert!(!manager.bookmark_store.is_active());
    send(&mut manager, LOG, Event::GotoBookmark(BookmarkMenuAction::Start));
    send(&mut manager, LOG, Event::GotoBookmark(BookmarkMenuAction::Cancel));
    assert!(!manager.bookmark_store.is_active());
}

#[test]
fn follow_mode_goes_to_the_end_until_interrupted() {
    let starts = line_starts(LOG);
    let mut manager = manager(LOG, 40, 4, 80);
    send(&mut manager, LOG, Event::Follow);
    assert_eq!(manager.mode, Mode::Follow);
    assert_eq!(
        manager.status_bar.text,
        "Waiting for data... (interrupt to abort)"
    );
    loop {
        match manager.on_follow_tick(false, true) {
            Fetch::Ready(_) => break,
            Fetch::Missing(at) => load(&mut manager, LOG, at),
        }
    }
    assert_eq!(manager.window.offset(), starts[3]);
    assert!(manager.context.need_rerender);
    assert_eq!(manager.mode, Mode::Follow);
    assert_eq!(manager.on_follow_tick(true, false), Fetch::Ready(()));
    assert_eq!(manager.mode, Mode::Normal);
    assert_eq!(manager.status_bar.text, "");
}

#[test]
fn keys_drive_the_controller() {
    let starts = line_starts(LOG);
    let mut manager = manager(LOG, 40, 4, 80);
    let mut source = EventSource::default();
    let mut typed = |manager: &mut Manager, text: &str| {
        for c in text.chars() {
            let code = match c {
                '\n' => KeyCode::Enter,
                c => KeyCode::Char(c),
            };
            if let Some(event) = source.handle_key_press(&KeyEvent::new(code, KeyModifiers::NONE)) {
                send(manager, LOG, event);
            }
        }
    };
    typed(&mut manager, "/error\n");
    assert_eq!(manager.window.offset(), starts[2]);
    typed(&mut manager, "n");
    assert_eq!(manager.window.offset(), starts[4]);
    typed(&mut manager, "J3\n");
    assert_eq!(manager.window.offset(), starts[1]);
    typed(&mut manager, "t10:00:20\n");
    assert_eq!(manager.window.offset(), starts[4]);
    typed(&mut manager, ",");
    assert_eq!(manager.window.offset(), starts[1]);
    typed(&mut manager, "bhere\n");
    typed(&mut manager, "2f");
    assert_eq!(manager.finder.active_slots().iter().cloned().collect::<Vec<_>>(), vec![2]);
    typed(&mut manager, "+1-2");
    assert_eq!(manager.finder.active_slots().iter().cloned().collect::<Vec<_>>(), vec![1]);
    assert_eq!(manager.bookmark_store.bookmarks[0].name, "here");
    assert_eq!(manager.bookmark_store.bookmarks[0].offset, starts[1]);
}

#[test]
fn a_new_size_keeps_the_window_on_the_document() {
    let data = b"one\ntwo\nthree";
    let mut manager = manager(data, 20, 5, 80);
    load(&mut manager, data, 0);
    assert_eq!(send(&mut manager, data, Event::SeekToEnd), false);
    assert_eq!(manager.window.offset, 0);
    manager.window.set_offset(8);
    // the file grows: the window stays
    let grown = b"one\ntwo\nthree\nfour\nfive";
    assert_eq!(
        manager.update_docsize_and_lastline(grown.len(), grown),
        Ok(true)
    );
    assert_eq!(manager.document.document_size, grown.len());
    assert_eq!(manager.document.last_line, b"five".to_vec());
    assert_eq!(manager.window.offset, 8);
    assert_eq!(manager.document.chunks.len(), 1);
    // the file is cut short: the window steps back to the last line
    let short = b"one\ntw";
    assert_eq!(
        manager.update_docsize_and_lastline(short.len(), short),
        Ok(true)
    );
    assert_eq!(manager.document.last_line, b"tw".to_vec());
    assert!(manager.document.chunks.is_empty());
    assert_eq!(manager.window.offset, 4);
    assert_eq!(check(&mut manager, short), true);
    // the size that the document has changes nothing
    assert_eq!(manager.update_docsize_and_lastline(short.len(), b""), Ok(false));
    assert_eq!(manager.window.offset, 4);
}
