//! The events that the keys of the terminal stand for.

use crate::bookmark::{BookMarkMenu, BookmarkMenuAction};
use crate::finder::{FinderAction, FinderEventParser};
use crate::prompt::{Prompt, PromptAction};
use vstd::prelude::*;

verus! {

/// A direction in which the window moves.
#[derive(Debug, Clone, Copy, PartialEq, Eq, Structural)]
pub enum Direction {
    Up,
    Down,
    Left,
    Right,
}

impl Direction {
    pub fn is_horizontal(&self) -> (horizontal: bool)
        ensures
            horizontal == (*self == Direction::Left || *self == Direction::Right),
    {
        *self == Direction::Left || *self == Direction::Right
    }

    pub fn is_vertical(&self) -> (vertical: bool)
        ensures
            vertical == (*self == Direction::Up || *self == Direction::Down),
    {
        *self == Direction::Up || *self == Direction::Down
    }

    /// The word for a vertical direction: "above" for up, "below" for down.
    pub open spec fn above_or_below_text(self) -> Seq<char> {
        if self == Direction::Up {
            "above"@
        } else {
            "below"@
        }
    }

    /// The word for a vertical direction: "above" for up, "below" for down.
    pub fn above_or_below(&self) -> (word: &'static str)
        requires
            *self == Direction::Up || *self == Direction::Down,
        ensures
            word@ == self.above_or_below_text(),
    {
        if *self == Direction::Up {
            "above"
        } else {
            "below"
        }
    }
}

/// The keys that the viewer tells apart.
#[derive(Debug, Clone, Copy, PartialEq, Eq, Structural)]
pub enum KeyCode {
    Char(char),
    Backspace,
    Enter,
    Esc,
    Up,
    Down,
    Left,
    Right,
    PageUp,
    PageDown,
    Home,
    End,
    /// Any other key.
    Other,
}

/// The keys held down with a key, as far as the viewer tells them apart.
#[allow(non_camel_case_types)]
#[derive(Debug, Clone, Copy, PartialEq, Eq, Structural)]
pub enum KeyModifiers {
    /// No key held down.
    NONE,
    /// Shift alone.
    SHIFT,
    /// Control alone.
    CONTROL,
    /// Any other key or keys.
    OTHER,
}

/// A key that was pressed.
#[derive(Debug, Clone, Copy, PartialEq, Eq, Structural)]
pub struct KeyEvent {
    pub code: KeyCode,
    pub modifiers: KeyModifiers,
}

impl KeyEvent {
    pub fn new(code: KeyCode, modifiers: KeyModifiers) -> (key: Self)
        ensures
            key.code == code,
            key.modifiers == modifiers,
    {
        Self { code, modifiers }
    }

    /// True when the key was pressed alone or with Shift.
    pub open spec fn is_plain(&self) -> bool {
        self.modifiers == KeyModifiers::NONE || self.modifiers == KeyModifiers::SHIFT
    }

    /// Tells whether the key was pressed alone or with Shift.
    pub fn plain(&self) -> (plain: bool)
        ensures
            plain == self.is_plain(),
    {
        self.modifiers == KeyModifiers::NONE || self.modifiers == KeyModifiers::SHIFT
    }
}

/// What the terminal reports.
#[derive(Debug, Clone, Copy, PartialEq, Eq, Structural)]
pub enum RawEvent {
    Key(KeyEvent),
    /// The terminal has the given numbers of columns and rows now.
    Resize(u16, u16),
    /// Anything else.
    Other,
}

/// Puts `c` at the end of `text`, with `String::push`.
#[verifier::external_body]
pub(crate) fn push_char(text: &mut String, c: char)
    ensures
        final(text)@ == old(text)@.push(c),
{
    text.push(c);
}

/// Takes the last character off `text`, if it has one, with `String::pop`.
#[verifier::external_body]
pub(crate) fn pop_char(text: &mut String)
    ensures
        final(text)@ == if old(text)@.len() > 0 {
            old(text)@.drop_last()
        } else {
            old(text)@
        },
{
    text.pop();
}

/// Whether the viewer can be interrupted, and whether it was.
#[derive(Debug, Clone, Copy, PartialEq, Eq, Structural)]
pub enum InterruptState {
    Uninterruptable,
    Interruptable,
    Interrupted,
}

impl Default for InterruptState {
    fn default() -> (state: Self)
        ensures
            state == InterruptState::Uninterruptable,
    {
        InterruptState::Uninterruptable
    }
}

/// What the viewer is asked to do.
#[derive(Debug, PartialEq, Eq)]
pub enum Event {
    WindowMove(Direction, usize),
    Exit,
    ToggleWrapLine,
    Search(PromptAction),
    SearchNext,
    SearchPrevious,
    SeekToHome,
    SeekToEnd,
    JumpToTimestamp(PromptAction),
    JumpByLines(PromptAction),
    TerminalResize(usize, usize),
    NewBookmark(PromptAction),
    GotoBookmark(BookmarkMenuAction),
    UndoWindowVerticalMove,
    RedoWindowVerticalMove,
    FinderOperation(FinderAction),
    Follow,
}

/// Turns what the terminal reports into events: it knows which prompt or
/// menu is open and hands the keys to it.
#[derive(Debug)]
pub struct EventSource {
    pub search_prompt: Prompt,
    pub timestamp_prompt: Prompt,
    pub jump_prompt: Prompt,
    pub new_bookmark_prompt: Prompt,
    pub bookmark_menu: BookMarkMenu,
    pub finder_event_parser: FinderEventParser,
}

impl Default for EventSource {
    fn default() -> (source: Self)
        ensures
            source.wf(),
            source.idle(),
            source.finder_event_parser.state == crate::finder::FinderEventParserState::Normal,
            !source.finder_event_parser.menu_active,
    {
        Self {
            search_prompt: Prompt::new(),
            timestamp_prompt: Prompt::new(),
            jump_prompt: Prompt::new(),
            new_bookmark_prompt: Prompt::new(),
            bookmark_menu: BookMarkMenu::default(),
            finder_event_parser: FinderEventParser::default(),
        }
    }
}

/// The action in `event` where it is an event for the search prompt.
pub open spec fn search_action(event: Option<Event>) -> Option<PromptAction> {
    match event {
        Some(Event::Search(action)) => Some(action),
        _ => None,
    }
}

/// The action in `event` where it is an event for the timestamp prompt.
pub open spec fn timestamp_action(event: Option<Event>) -> Option<PromptAction> {
    match event {
        Some(Event::JumpToTimestamp(action)) => Some(action),
        _ => None,
    }
}

/// The action in `event` where it is an event for the prompt of the jump
/// by lines.
pub open spec fn jump_action(event: Option<Event>) -> Option<PromptAction> {
    match event {
        Some(Event::JumpByLines(action)) => Some(action),
        _ => None,
    }
}

/// The action in `event` where it is an event for the prompt of a new
/// bookmark.
pub open spec fn bookmark_action(event: Option<Event>) -> Option<PromptAction> {
    match event {
        Some(Event::NewBookmark(action)) => Some(action),
        _ => None,
    }
}

/// The action in `event` where it is an event for the bookmark menu.
pub open spec fn menu_action(event: Option<Event>) -> Option<BookmarkMenuAction> {
    match event {
        Some(Event::GotoBookmark(action)) => Some(action),
        _ => None,
    }
}

/// What a key means where no prompt and no menu is open and the finder
/// does not take it, as far as it opens no prompt or menu: `q` ends the
/// viewer and `w` turns the wrapping of lines over; `n` and `N` search on;
/// the arrows move by one line or column, Page Up and Page Down by five
/// lines, and with Control the vertical ones by five and twenty lines; Home
/// and End go to the ends of the document; comma and full stop undo and
/// redo a move; `F` follows the end of the file.
pub open spec fn key_event(key: KeyEvent) -> Option<Event> {
    if key.is_plain() {
        match key.code {
            KeyCode::Char(c) => if c == 'q' {
                Some(Event::Exit)
            } else if c == 'w' {
                Some(Event::ToggleWrapLine)
            } else if c == 'n' {
                Some(Event::SearchNext)
            } else if c == 'N' {
                Some(Event::SearchPrevious)
            } else if c == ',' {
                Some(Event::UndoWindowVerticalMove)
            } else if c == '.' {
                Some(Event::RedoWindowVerticalMove)
            } else if c == 'F' {
                Some(Event::Follow)
            } else {
                None
            },
            KeyCode::Down => Some(Event::WindowMove(Direction::Down, 1)),
            KeyCode::Up => Some(Event::WindowMove(Direction::Up, 1)),
            KeyCode::Right => Some(Event::WindowMove(Direction::Right, 1)),
            KeyCode::Left => Some(Event::WindowMove(Direction::Left, 1)),
            KeyCode::PageDown => Some(Event::WindowMove(Direction::Down, 5)),
            KeyCode::PageUp => Some(Event::WindowMove(Direction::Up, 5)),
            KeyCode::Home => Some(Event::SeekToHome),
            KeyCode::End => Some(Event::SeekToEnd),
            _ => None,
        }
    } else if key.modifiers == KeyModifiers::CONTROL {
        match key.code {
            KeyCode::Down => Some(Event::WindowMove(Direction::Down, 5)),
            KeyCode::Up => Some(Event::WindowMove(Direction::Up, 5)),
            KeyCode::PageDown => Some(Event::WindowMove(Direction::Down, 20)),
            KeyCode::PageUp => Some(Event::WindowMove(Direction::Up, 20)),
            _ => None,
        }
    } else {
        None
    }
}

/// The prompts and the menu that a key can open.
#[derive(Debug, Clone, Copy, PartialEq, Eq, Structural)]
pub enum Opening {
    SearchDown,
    SearchUp,
    Timestamp,
    JumpDown,
    JumpUp,
    NewBookmark,
    BookmarkMenu,
}

/// What the key `key` opens where no prompt and no menu is open and the
/// finder does not take it: `/` and `?` the search down and up, `t` the
/// jump to a timestamp, `j` and `J` the jump down and up by lines, `b` the
/// prompt of a new bookmark, `g` the bookmark menu.
pub open spec fn key_opening(key: KeyEvent) -> Option<Opening> {
    if !key.is_plain() {
        None
    } else {
        match key.code {
            KeyCode::Char(c) => if c == '/' {
                Some(Opening::SearchDown)
            } else if c == '?' {
                Some(Opening::SearchUp)
            } else if c == 't' {
                Some(Opening::Timestamp)
            } else if c == 'j' {
                Some(Opening::JumpDown)
            } else if c == 'J' {
                Some(Opening::JumpUp)
            } else if c == 'b' {
                Some(Opening::NewBookmark)
            } else if c == 'g' {
                Some(Opening::BookmarkMenu)
            } else {
                None
            },
            _ => None,
        }
    }
}

/// The event that tells of an opening.
pub open spec fn opening_event(opening: Opening) -> Event {
    match opening {
        Opening::SearchDown => Event::Search(PromptAction::Start(Some(Direction::Down))),
        Opening::SearchUp => Event::Search(PromptAction::Start(Some(Direction::Up))),
        Opening::Timestamp => Event::JumpToTimestamp(PromptAction::Start(None)),
        Opening::JumpDown => Event::JumpByLines(PromptAction::Start(Some(Direction::Down))),
        Opening::JumpUp => Event::JumpByLines(PromptAction::Start(Some(Direction::Up))),
        Opening::NewBookmark => Event::NewBookmark(PromptAction::Start(None)),
        Opening::BookmarkMenu => Event::GotoBookmark(BookmarkMenuAction::Start),
    }
}

/// True when `after` is `before` opened: its text is empty and its history
/// index stands behind the last text.
pub open spec fn opened(before: Prompt, after: Prompt) -> bool {
    &&& after.prompt_text matches Some(text) && text@.len() == 0
    &&& after.prompt_history == before.prompt_history
    &&& after.history_index == before.prompt_history@.len()
}

impl EventSource {
    /// The invariant of the event source: that of its prompts.
    pub open spec fn wf(&self) -> bool {
        &&& self.search_prompt.wf()
        &&& self.timestamp_prompt.wf()
        &&& self.jump_prompt.wf()
        &&& self.new_bookmark_prompt.wf()
    }

    /// True when no prompt and no menu is open.
    pub open spec fn idle(&self) -> bool {
        &&& self.search_prompt.prompt_text is None
        &&& self.timestamp_prompt.prompt_text is None
        &&& self.jump_prompt.prompt_text is None
        &&& self.new_bookmark_prompt.prompt_text is None
        &&& !self.bookmark_menu.active
    }

    /// True when `after` and `event` are what the key `key` makes of this
    /// event source. The key goes to the first that is open of the search
    /// prompt, the timestamp prompt, the prompt of the jump by lines, the
    /// prompt of a new bookmark and the bookmark menu; where none is open,
    /// to the finder; and what the finder does not take is looked up among
    /// the keys of the viewer.
    pub open spec fn presses(
        &self,
        key: KeyEvent,
        after: &EventSource,
        event: Option<Event>,
    ) -> bool {
        if self.search_prompt.prompt_text is Some {
            &&& self.search_prompt.handles(key, &after.search_prompt, search_action(event))
            &&& event is Some ==> event->0 is Search
            &&& after.timestamp_prompt == self.timestamp_prompt
            &&& after.jump_prompt == self.jump_prompt
            &&& after.new_bookmark_prompt == self.new_bookmark_prompt
            &&& after.bookmark_menu == self.bookmark_menu
            &&& after.finder_event_parser == self.finder_event_parser
        } else if self.timestamp_prompt.prompt_text is Some {
            &&& self.timestamp_prompt.handles(key, &after.timestamp_prompt, timestamp_action(event))
            &&& event is Some ==> event->0 is JumpToTimestamp
            &&& after.search_prompt == self.search_prompt
            &&& after.jump_prompt == self.jump_prompt
            &&& after.new_bookmark_prompt == self.new_bookmark_prompt
            &&& after.bookmark_menu == self.bookmark_menu
            &&& after.finder_event_parser == self.finder_event_parser
        } else if self.jump_prompt.prompt_text is Some {
            &&& self.jump_prompt.handles(key, &after.jump_prompt, jump_action(event))
            &&& event is Some ==> event->0 is JumpByLines
            &&& after.search_prompt == self.search_prompt
            &&& after.timestamp_prompt == self.timestamp_prompt
            &&& after.new_bookmark_prompt == self.new_bookmark_prompt
            &&& after.bookmark_menu == self.bookmark_menu
            &&& after.finder_event_parser == self.finder_event_parser
        } else if self.new_bookmark_prompt.prompt_text is Some {
            &&& self.new_bookmark_prompt.handles(
                key,
                &after.new_bookmark_prompt,
                bookmark_action(event),
            )
            &&& event is Some ==> event->0 is NewBookmark
            &&& after.search_prompt == self.search_prompt
            &&& after.timestamp_prompt == self.timestamp_prompt
            &&& after.jump_prompt == self.jump_prompt
            &&& after.bookmark_menu == self.bookmark_menu
            &&& after.finder_event_parser == self.finder_event_parser
        } else if self.bookmark_menu.active {
            &&& self.bookmark_menu.handles(key, &after.bookmark_menu, menu_action(event))
            &&& event is Some ==> event->0 is GotoBookmark
            &&& after.search_prompt == self.search_prompt
            &&& after.timestamp_prompt == self.timestamp_prompt
            &&& after.jump_prompt == self.jump_prompt
            &&& after.new_bookmark_prompt == self.new_bookmark_prompt
            &&& after.finder_event_parser == self.finder_event_parser
        } else if self.finder_event_parser.parses(key).1 is Some {
            &&& event matches Some(Event::FinderOperation(action))
            &&& (after.finder_event_parser, Some(action)) == self.finder_event_parser.parses(key)
            &&& after.search_prompt == self.search_prompt
            &&& after.timestamp_prompt == self.timestamp_prompt
            &&& after.jump_prompt == self.jump_prompt
            &&& after.new_bookmark_prompt == self.new_bookmark_prompt
            &&& after.bookmark_menu == self.bookmark_menu
        } else {
            &&& after.finder_event_parser == self.finder_event_parser
            &&& match key_opening(key) {
                Some(opening) => {
                    &&& event == Some(opening_event(opening))
                    &&& if opening == Opening::SearchDown || opening == Opening::SearchUp {
                        opened(self.search_prompt, after.search_prompt)
                    } else {
                        after.search_prompt == self.search_prompt
                    }
                    &&& if opening == Opening::Timestamp {
                        opened(self.timestamp_prompt, after.timestamp_prompt)
                    } else {
                        after.timestamp_prompt == self.timestamp_prompt
                    }
                    &&& if opening == Opening::JumpDown || opening == Opening::JumpUp {
                        opened(self.jump_prompt, after.jump_prompt)
                    } else {
                        after.jump_prompt == self.jump_prompt
                    }
                    &&& if opening == Opening::NewBookmark {
                        opened(self.new_bookmark_prompt, after.new_bookmark_prompt)
                    } else {
                        after.new_bookmark_prompt == self.new_bookmark_prompt
                    }
                    &&& if opening == Opening::BookmarkMenu {
                        after.bookmark_menu.active && after.bookmark_menu.filter_content
                            == self.bookmark_menu.filter_content
                    } else {
                        after.bookmark_menu == self.bookmark_menu
                    }
                },
                None => {
                    &&& event == key_event(key)
                    &&& after.search_prompt == self.search_prompt
                    &&& after.timestamp_prompt == self.timestamp_prompt
                    &&& after.jump_prompt == self.jump_prompt
                    &&& after.new_bookmark_prompt == self.new_bookmark_prompt
                    &&& after.bookmark_menu == self.bookmark_menu
                },
            }
        }
    }

    /// Tells whether what the terminal reports asks to interrupt the
    /// viewer: the key `c` with Control.
    pub fn is_interrupt(raw_event: &RawEvent) -> (interrupt: bool)
        ensures
            interrupt == (*raw_event == RawEvent::Key(
                KeyEvent { code: KeyCode::Char('c'), modifiers: KeyModifiers::CONTROL },
            )),
    {
        match raw_event {
            RawEvent::Key(key) => key.modifiers == KeyModifiers::CONTROL && key.code
                == KeyCode::Char('c'),
            _ => false,
        }
    }

    /// The event that what the terminal reports stands for: a new size of
    /// the terminal is an event of its own, a key is handed to
    /// `handle_key_press`, and nothing else is an event.
    pub fn handle_raw_event(&mut self, raw_event: &RawEvent) -> (event: Option<Event>)
        requires
            old(self).wf(),
        ensures
            final(self).wf(),
            match *raw_event {
                RawEvent::Key(key) => old(self).presses(key, final(self), event),
                RawEvent::Resize(width, height) => *final(self) == *old(self) && event == Some(
                    Event::TerminalResize(width as usize, height as usize),
                ),
                RawEvent::Other => *final(self) == *old(self) && event is None,
            },
    {
        match raw_event {
            RawEvent::Key(key) => self.handle_key_press(key),
            RawEvent::Resize(width, height) => Some(
                Event::TerminalResize(*width as usize, *height as usize),
            ),
            RawEvent::Other => None,
        }
    }

    /// Takes a key: see `presses`.
    pub fn handle_key_press(&mut self, key: &KeyEvent) -> (event: Option<Event>)
        requires
            old(self).wf(),
        ensures
            final(self).wf(),
            old(self).presses(*key, final(self), event),
    {
        if self.search_prompt.is_active() {
            return match self.search_prompt.handle_raw_event(key) {
                Some(action) => Some(Event::Search(action)),
                None => None,
            };
        }
        if self.timestamp_prompt.is_active() {
            return match self.timestamp_prompt.handle_raw_event(key) {
                Some(action) => Some(Event::JumpToTimestamp(action)),
                None => None,
            };
        }
        if self.jump_prompt.is_active() {
            return match self.jump_prompt.handle_raw_event(key) {
                Some(action) => Some(Event::JumpByLines(action)),
                None => None,
            };
        }
        if self.new_bookmark_prompt.is_active() {
            return match self.new_bookmark_prompt.handle_raw_event(key) {
                Some(action) => Some(Event::NewBookmark(action)),
                None => None,
            };
        }
        if self.bookmark_menu.is_active() {
            return match self.bookmark_menu.handle_raw_event(key) {
                Some(action) => Some(Event::GotoBookmark(action)),
                None => None,
            };
        }
        if let Some(action) = self.finder_event_parser.try_parse_raw_event(key) {
            return Some(Event::FinderOperation(action));
        }
        if key.plain() {
            match key.code {
                KeyCode::Char(c) => {
                    if c == 'q' {
                        Some(Event::Exit)
                    } else if c == 'w' {
                        Some(Event::ToggleWrapLine)
                    } else if c == '/' {
                        self.search_prompt.start();
                        Some(Event::Search(PromptAction::Start(Some(Direction::Down))))
                    } else if c == '?' {
                        self.search_prompt.start();
                        Some(Event::Search(PromptAction::Start(Some(Direction::Up))))
                    } else if c == 't' {
                        self.timestamp_prompt.start();
                        Some(Event::JumpToTimestamp(PromptAction::Start(None)))
                    } else if c == 'n' {
                        Some(Event::SearchNext)
                    } else if c == 'N' {
                        Some(Event::SearchPrevious)
                    } else if c == 'j' {
                        self.jump_prompt.start();
                        Some(Event::JumpByLines(PromptAction::Start(Some(Direction::Down))))
                    } else if c == 'J' {
                        self.jump_prompt.start();
                        Some(Event::JumpByLines(PromptAction::Start(Some(Direction::Up))))
                    } else if c == 'b' {
                        self.new_bookmark_prompt.start();
                        Some(Event::NewBookmark(PromptAction::Start(None)))
                    } else if c == 'g' {
                        self.bookmark_menu.activate();
                        Some(Event::GotoBookmark(BookmarkMenuAction::Start))
                    } else if c == ',' {
                        Some(Event::UndoWindowVerticalMove)
                    } else if c == '.' {
                        Some(Event::RedoWindowVerticalMove)
                    } else if c == 'F' {
                        Some(Event::Follow)
                    } else {
                        None
                    }
                },
                KeyCode::Down => Some(Event::WindowMove(Direction::Down, 1)),
                KeyCode::Up => Some(Event::WindowMove(Direction::Up, 1)),
                KeyCode::Right => Some(Event::WindowMove(Direction::Right, 1)),
                KeyCode::Left => Some(Event::WindowMove(Direction::Left, 1)),
                KeyCode::PageDown => Some(Event::WindowMove(Direction::Down, 5)),
                KeyCode::PageUp => Some(Event::WindowMove(Direction::Up, 5)),
                KeyCode::Home => Some(Event::SeekToHome),
                KeyCode::End => Some(Event::SeekToEnd),
                _ => None,
            }
        } else if key.modifiers == KeyModifiers::CONTROL {
            match key.code {
                KeyCode::Down => Some(Event::WindowMove(Direction::Down, 5)),
                KeyCode::Up => Some(Event::WindowMove(Direction::Up, 5)),
                KeyCode::PageDown => Some(Event::WindowMove(Direction::Down, 20)),
                KeyCode::PageUp => Some(Event::WindowMove(Direction::Up, 20)),
                _ => None,
            }
        } else {
            None
        }
    }
}

} // verus!
