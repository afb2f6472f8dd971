use loss::bookmark::{BookMarkMenu, BookmarkMenuAction};
use loss::event_source::{
    Direction, Event, EventSource, InterruptState, KeyCode, KeyEvent, KeyModifiers, RawEvent,
};
use loss::finder::{FinderAction, FinderEventParser, FinderEventParserState};
use loss::prompt::PromptAction;

#[test]
fn test_search_event() {
    let mut source = EventSource::default();
    assert_eq!(
        source.handle_raw_event(&RawEvent::Key(KeyEvent::new(
            KeyCode::Char('/'),
            KeyModifiers::NONE
        ))),
        Some(Event::Search(PromptAction::Start(Some(Direction::Down))))
    );
    assert_eq!(
        source.handle_raw_event(&RawEvent::Key(KeyEvent::new(
            KeyCode::Char('1'),
            KeyModifiers::NONE
        ))),
        Some(Event::Search(PromptAction::Content("1".to_string())))
    );
    assert_eq!(
        source.handle_raw_event(&RawEvent::Key(KeyEvent::new(
            KeyCode::Backspace,
            KeyModifiers::NONE
        ))),
        Some(Event::Search(PromptAction::Content("".to_string())))
    );
    assert_eq!(
        source.handle_raw_event(&RawEvent::Key(KeyEvent::new(
            KeyCode::Esc,
            KeyModifiers::NONE
        ))),
        Some(Event::Search(PromptAction::Cancel))
    );
    assert_eq!(
        source.handle_raw_event(&RawEvent::Key(KeyEvent::new(
            KeyCode::Char('?'),
            KeyModifiers::NONE
        ))),
        Some(Event::Search(PromptAction::Start(Some(Direction::Up))))
    );
    let mut content = String::default();
    for c in 'a'..='c' {
        content.push(c);
        assert_eq!(
            source.handle_raw_event(&RawEvent::Key(KeyEvent::new(
                KeyCode::Char(c),
                KeyModifiers::NONE
            ))),
            Some(Event::Search(PromptAction::Content(content.clone())))
        );
    }
    assert_eq!(
        source.handle_raw_event(&RawEvent::Key(KeyEvent::new(
            KeyCode::Enter,
            KeyModifiers::NONE
        ))),
        Some(Event::Search(PromptAction::Enter("abc".to_string())))
    );
}

#[test]
fn test_window_move_event() {
    let mut source = EventSource::default();
    assert_eq!(
        source.handle_raw_event(&RawEvent::Key(KeyEvent::new(
            KeyCode::Down,
            KeyModifiers::NONE
        ))),
        Some(Event::WindowMove(Direction::Down, 1))
    );
}

fn press(source: &mut EventSource, code: KeyCode, modifiers: KeyModifiers) -> Option<Event> {
    source.handle_key_press(&KeyEvent::new(code, modifiers))
}

#[test]
fn keys_of_the_viewer() {
    let mut source = EventSource::default();
    let plain = KeyModifiers::NONE;
    assert_eq!(press(&mut source, KeyCode::Char('q'), plain), Some(Event::Exit));
    assert_eq!(press(&mut source, KeyCode::Char('w'), plain), Some(Event::ToggleWrapLine));
    assert_eq!(press(&mut source, KeyCode::Char('n'), plain), Some(Event::SearchNext));
    assert_eq!(
        press(&mut source, KeyCode::Char('N'), KeyModifiers::SHIFT),
        Some(Event::SearchPrevious)
    );
    assert_eq!(press(&mut source, KeyCode::Up, plain), Some(Event::WindowMove(Direction::Up, 1)));
    assert_eq!(
        press(&mut source, KeyCode::Left, plain),
        Some(Event::WindowMove(Direction::Left, 1))
    );
    assert_eq!(
        press(&mut source, KeyCode::Right, plain),
        Some(Event::WindowMove(Direction::Right, 1))
    );
    assert_eq!(
        press(&mut source, KeyCode::PageDown, plain),
        Some(Event::WindowMove(Direction::Down, 5))
    );
    assert_eq!(
        press(&mut source, KeyCode::PageUp, plain),
        Some(Event::WindowMove(Direction::Up, 5))
    );
    assert_eq!(
        press(&mut source, KeyCode::Down, KeyModifiers::CONTROL),
        Some(Event::WindowMove(Direction::Down, 5))
    );
    assert_eq!(
        press(&mut source, KeyCode::Up, KeyModifiers::CONTROL),
        Some(Event::WindowMove(Direction::Up, 5))
    );
    assert_eq!(
        press(&mut source, KeyCode::PageDown, KeyModifiers::CONTROL),
        Some(Event::WindowMove(Direction::Down, 20))
    );
    assert_eq!(
        press(&mut source, KeyCode::PageUp, KeyModifiers::CONTROL),
        Some(Event::WindowMove(Direction::Up, 20))
    );
    assert_eq!(press(&mut source, KeyCode::Home, plain), Some(Event::SeekToHome));
    assert_eq!(press(&mut source, KeyCode::End, plain), Some(Event::SeekToEnd));
    assert_eq!(
        press(&mut source, KeyCode::Char(','), plain),
        Some(Event::UndoWindowVerticalMove)
    );
    assert_eq!(
        press(&mut source, KeyCode::Char('.'), plain),
        Some(Event::RedoWindowVerticalMove)
    );
    assert_eq!(press(&mut source, KeyCode::Char('F'), KeyModifiers::SHIFT), Some(Event::Follow));
    assert_eq!(press(&mut source, KeyCode::Char('z'), plain), None);
    assert_eq!(press(&mut source, KeyCode::Enter, plain), None);
    assert_eq!(press(&mut source, KeyCode::Home, KeyModifiers::CONTROL), None);
    assert_eq!(press(&mut source, KeyCode::Char('q'), KeyModifiers::OTHER), None);
    assert_eq!(
        source.handle_raw_event(&RawEvent::Resize(120, 40)),
        Some(Event::TerminalResize(120, 40))
    );
    assert_eq!(source.handle_raw_event(&RawEvent::Other), None);
}

#[test]
fn keys_open_prompts_and_menus() {
    let plain = KeyModifiers::NONE;
    let mut source = EventSource::default();
    assert_eq!(
        press(&mut source, KeyCode::Char('t'), plain),
        Some(Event::JumpToTimestamp(PromptAction::Start(None)))
    );
    assert!(source.timestamp_prompt.is_active());
    assert_eq!(
        press(&mut source, KeyCode::Char('q'), plain),
        Some(Event::JumpToTimestamp(PromptAction::Content("q".to_string())))
    );
    assert_eq!(
        press(&mut source, KeyCode::Enter, plain),
        Some(Event::JumpToTimestamp(PromptAction::Enter("q".to_string())))
    );
    assert_eq!(
        press(&mut source, KeyCode::Char('j'), plain),
        Some(Event::JumpByLines(PromptAction::Start(Some(Direction::Down))))
    );
    assert_eq!(press(&mut source, KeyCode::Esc, plain), Some(Event::JumpByLines(PromptAction::Cancel)));
    assert_eq!(
        press(&mut source, KeyCode::Char('J'), KeyModifiers::SHIFT),
        Some(Event::JumpByLines(PromptAction::Start(Some(Direction::Up))))
    );
    assert_eq!(
        press(&mut source, KeyCode::Char('7'), plain),
        Some(Event::JumpByLines(PromptAction::Content("7".to_string())))
    );
    assert_eq!(
        press(&mut source, KeyCode::Enter, plain),
        Some(Event::JumpByLines(PromptAction::Enter("7".to_string())))
    );
    assert_eq!(
        press(&mut source, KeyCode::Char('b'), plain),
        Some(Event::NewBookmark(PromptAction::Start(None)))
    );
    assert_eq!(
        press(&mut source, KeyCode::Char('x'), plain),
        Some(Event::NewBookmark(PromptAction::Content("x".to_string())))
    );
    assert_eq!(
        press(&mut source, KeyCode::Enter, plain),
        Some(Event::NewBookmark(PromptAction::Enter("x".to_string())))
    );
    assert_eq!(
        press(&mut source, KeyCode::Char('g'), plain),
        Some(Event::GotoBookmark(BookmarkMenuAction::Start))
    );
    assert_eq!(
        press(&mut source, KeyCode::Char('x'), plain),
        Some(Event::GotoBookmark(BookmarkMenuAction::Content("x".to_string())))
    );
    assert_eq!(
        press(&mut source, KeyCode::Down, plain),
        Some(Event::GotoBookmark(BookmarkMenuAction::Arrow(Direction::Down)))
    );
    assert_eq!(
        press(&mut source, KeyCode::Up, plain),
        Some(Event::GotoBookmark(BookmarkMenuAction::Arrow(Direction::Up)))
    );
    assert_eq!(
        press(&mut source, KeyCode::Backspace, plain),
        Some(Event::GotoBookmark(BookmarkMenuAction::Content(String::new())))
    );
    assert_eq!(
        press(&mut source, KeyCode::Enter, plain),
        Some(Event::GotoBookmark(BookmarkMenuAction::Enter))
    );
    assert!(!source.bookmark_menu.is_active());
    assert_eq!(press(&mut source, KeyCode::Char('q'), plain), Some(Event::Exit));
}

#[test]
fn keys_of_the_finder() {
    let plain = KeyModifiers::NONE;
    let mut source = EventSource::default();
    let mut finder_key = |c: char| press(&mut source, KeyCode::Char(c), plain);
    assert_eq!(
        finder_key('3'),
        Some(Event::FinderOperation(FinderAction::SwitchActiveSlot(3)))
    );
    assert_eq!(
        finder_key('+'),
        Some(Event::FinderOperation(FinderAction::AddActiveSlotStart))
    );
    assert_eq!(finder_key('o'), None);
    assert_eq!(finder_key('+'), None);
    assert_eq!(
        finder_key('0'),
        Some(Event::FinderOperation(FinderAction::AddActiveSlot(0)))
    );
    assert_eq!(
        finder_key('-'),
        Some(Event::FinderOperation(FinderAction::RemoveActiveSlotStart))
    );
    assert_eq!(
        finder_key('9'),
        Some(Event::FinderOperation(FinderAction::RemoveActiveSlot(9)))
    );
    assert_eq!(
        finder_key('o'),
        Some(Event::FinderOperation(FinderAction::ToggleHighlightFlag))
    );
    assert_eq!(
        finder_key('f'),
        Some(Event::FinderOperation(FinderAction::ToggleFoldAction))
    );
    assert_eq!(
        finder_key('e'),
        Some(Event::FinderOperation(FinderAction::ToggleExclusiveAction))
    );
    assert_eq!(
        finder_key('r'),
        Some(Event::FinderOperation(FinderAction::TogglePatternType))
    );
    assert_eq!(finder_key('x'), Some(Event::FinderOperation(FinderAction::ResetSlot)));
    assert_eq!(finder_key('m'), Some(Event::FinderOperation(FinderAction::MenuOn)));
    assert_eq!(finder_key('m'), Some(Event::FinderOperation(FinderAction::MenuOff)));
}

#[test]
fn finder_parser_escapes() {
    let mut parser = FinderEventParser::default();
    let esc = KeyEvent::new(KeyCode::Esc, KeyModifiers::NONE);
    assert_eq!(parser.try_parse_raw_event(&esc), None);
    assert_eq!(
        parser.try_parse_raw_event(&KeyEvent::new(KeyCode::Char('-'), KeyModifiers::NONE)),
        Some(FinderAction::RemoveActiveSlotStart)
    );
    assert_eq!(parser.state, FinderEventParserState::ParsedRemove);
    assert_eq!(
        parser.try_parse_raw_event(&esc),
        Some(FinderAction::AddOrRemoveActiveSlotCancel)
    );
    assert_eq!(parser.state, FinderEventParserState::Normal);
    assert_eq!(
        parser.try_parse_raw_event(&KeyEvent::new(KeyCode::Char('m'), KeyModifiers::NONE)),
        Some(FinderAction::MenuOn)
    );
    assert!(parser.menu_active);
    assert_eq!(parser.try_parse_raw_event(&esc), Some(FinderAction::MenuOff));
    assert!(!parser.menu_active);
    assert_eq!(
        parser.try_parse_raw_event(&KeyEvent::new(KeyCode::Char('+'), KeyModifiers::NONE)),
        Some(FinderAction::AddActiveSlotStart)
    );
    parser.set_state_to_normal();
    assert_eq!(parser.state, FinderEventParserState::Normal);
    assert_eq!(
        parser.try_parse_raw_event(&KeyEvent::new(KeyCode::Char('5'), KeyModifiers::CONTROL)),
        None
    );
    assert_eq!(
        parser.try_parse_raw_event(&KeyEvent::new(KeyCode::Up, KeyModifiers::NONE)),
        None
    );
}

#[test]
fn directions_and_interrupts() {
    assert!(Direction::Up.is_vertical());
    assert!(Direction::Down.is_vertical());
    assert!(!Direction::Left.is_vertical());
    assert!(Direction::Left.is_horizontal());
    assert!(Direction::Right.is_horizontal());
    assert!(!Direction::Up.is_horizontal());
    assert_eq!(Direction::Up.above_or_below(), "above");
    assert_eq!(Direction::Down.above_or_below(), "below");
    assert_eq!(InterruptState::default(), InterruptState::Uninterruptable);
    let interrupt = RawEvent::Key(KeyEvent::new(KeyCode::Char('c'), KeyModifiers::CONTROL));
    assert!(EventSource::is_interrupt(&interrupt));
    assert!(!EventSource::is_interrupt(&RawEvent::Key(KeyEvent::new(
        KeyCode::Char('c'),
        KeyModifiers::NONE
    ))));
    assert!(!EventSource::is_interrupt(&RawEvent::Resize(1, 1)));
}

#[test]
fn bookmark_menu_reads_keys() {
    let mut menu = BookMarkMenu::default();
    assert!(!menu.is_active());
    menu.activate();
    assert!(menu.is_active());
    assert_eq!(
        menu.handle_raw_event(&KeyEvent::new(KeyCode::Char('a'), KeyModifiers::NONE)),
        Some(BookmarkMenuAction::Content("a".to_string()))
    );
    assert_eq!(
        menu.handle_raw_event(&KeyEvent::new(KeyCode::Char('a'), KeyModifiers::CONTROL)),
        None
    );
    assert_eq!(
        menu.handle_raw_event(&KeyEvent::new(KeyCode::Esc, KeyModifiers::NONE)),
        Some(BookmarkMenuAction::Cancel)
    );
    assert!(!menu.is_active());
    assert_eq!(menu.filter_content, "a");
}
