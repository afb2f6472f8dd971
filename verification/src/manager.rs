//! The controller: it holds the document, the window, the finder and the
//! bars, takes the events one by one and fills the canvas of each frame.
//! It reads neither keys nor the file: each of its steps ends with the
//! answer or with the offset at which the file has to be read first.

use crate::bookmark::{BookmarkMenuAction, BookmarkStore, BOOKMARK_NAME_MAX_LEN};
use crate::canvas::Canvas;
use crate::chunk::lines_of;
use crate::document::{Document, Fetch, LoadError};
use crate::event_source::{Direction, Event, EventSource};
use crate::finder::{accept_all, Finder, FinderAction};
use crate::log_timestamp::{parse_log_timestamp, LogDate, LogDateTime, LogTime};
use crate::prompt::PromptAction;
use crate::render::{cut, filled, LineView, LineWithRenderScheme};
use crate::status_bar::StatusBar;
use crate::text::{is_line_start, lemma_tail_start_bounds, tail_start};
use crate::window::Window;
use vstd::prelude::*;
use vstd::string::{StrSliceExecFns, StringExecFns, StringSliceAdditionalSpecFns};

verus! {

/// What the controller remembers between events.
#[derive(Debug)]
pub struct Context {
    /// The lines of the last frame, before filtering and cutting.
    pub raw_lines: Vec<Vec<u8>>,
    pub searching_direction: Option<Direction>,
    pub jumping_direction: Option<Direction>,
    pub wrap_lines: bool,
    pub need_rerender: bool,
}

impl Default for Context {
    fn default() -> (context: Self)
        ensures
            context.raw_lines@.len() == 0,
            context.searching_direction is None,
            context.jumping_direction is None,
            !context.wrap_lines,
            !context.need_rerender,
    {
        Self {
            raw_lines: Vec::new(),
            searching_direction: None,
            jumping_direction: None,
            wrap_lines: false,
            need_rerender: false,
        }
    }
}

/// Whether the viewer waits for keys or follows the end of the file.
#[derive(Debug, Clone, Copy, PartialEq, Eq, Structural)]
pub enum Mode {
    Normal,
    Follow,
}

/// The controller.
#[derive(Debug)]
pub struct Manager {
    pub document: Document,
    pub window: Window,
    pub status_bar: StatusBar,
    pub event_source: EventSource,
    pub bookmark_store: BookmarkStore,
    pub finder: Finder,
    pub context: Context,
    pub canvas: Canvas,
    pub mode: Mode,
}

/// The byte of the sign that stands for a line below the end of the
/// document.
pub const NO_LINE: u8 = 126;

/// The greatest length among `lines`; 0 where there are none.
pub open spec fn longest(lines: Seq<Seq<u8>>) -> int
    decreases lines.len(),
{
    if lines.len() == 0 {
        0
    } else if lines.last().len() > longest(lines.drop_last()) {
        lines.last().len() as int
    } else {
        longest(lines.drop_last())
    }
}

/// The greatest length among `lines`.
pub fn max_line_len(lines: &Vec<Vec<u8>>) -> (length: usize)
    ensures
        length == longest(lines_of(lines@)),
{
    let mut length: usize = 0;
    let mut i: usize = 0;
    assert(lines_of(lines@).take(0) =~= Seq::<Seq<u8>>::empty());
    while i < lines.len()
        invariant
            i <= lines@.len(),
            length == longest(lines_of(lines@).take(i as int)),
        decreases lines@.len() - i,
    {
        proof {
            let upto = lines_of(lines@).take(i + 1);
            assert(upto.drop_last() =~= lines_of(lines@).take(i as int));
            assert(upto.last() == lines@[i as int]@);
        }
        if lines[i].len() > length {
            length = lines[i].len();
        }
        i += 1;
    }
    assert(lines_of(lines@).take(i as int) =~= lines_of(lines@));
    length
}

/// The views of `lines`.
pub open spec fn line_views(lines: Seq<LineWithRenderScheme>) -> Seq<LineView> {
    Seq::new(lines.len(), |i: int| lines[i]@)
}

/// The pieces of `line` from `start` on when it is wrapped at `width`
/// bytes: a piece for every `width` bytes and one for what is left, which
/// is empty where nothing is left.
pub open spec fn wrapped_from(line: LineView, width: int, start: int) -> Seq<LineView>
    decreases line.content.len() - start,
{
    let rest = line.content.len() - start;
    if width <= 0 || rest < 0 {
        Seq::empty()
    } else if rest < width {
        seq![cut(line, start, line.content.len() as int)]
    } else {
        seq![cut(line, start, start + width)] + wrapped_from(line, width, start + width)
    }
}

/// The pieces of `line` when it is wrapped at `width` bytes.
pub fn wrap_line(line: &LineWithRenderScheme, width: usize) -> (pieces: Vec<LineWithRenderScheme>)
    requires
        width > 0,
        line.wf(),
        filled(line@),
    ensures
        line_views(pieces@) == wrapped_from(line@, width as int, 0),
        forall|i: int| 0 <= i < pieces@.len() ==> (#[trigger] pieces@[i]).wf()
            && filled(pieces@[i]@),
{
    let length = line.raw_content().len();
    let mut pieces: Vec<LineWithRenderScheme> = Vec::new();
    let mut start: usize = 0;
    loop
        invariant_except_break
            line_views(pieces@) + wrapped_from(line@, width as int, start as int) == wrapped_from(
                line@,
                width as int,
                0,
            ),
        invariant
            width > 0,
            line.wf(),
            filled(line@),
            start <= length == line@.content.len(),
            forall|i: int|
                0 <= i < pieces@.len() ==> (#[trigger] pieces@[i]).wf() && filled(pieces@[i]@),
        ensures
            line_views(pieces@) == wrapped_from(line@, width as int, 0),
        decreases length - start,
    {
        let ghost before = line_views(pieces@);
        if length - start < width {
            let piece = line.substr(start..length);
            proof {
                assert(line_views(pieces@.push(piece)) =~= before + seq![piece@]);
            }
            pieces.push(piece);
            break ;
        }
        let piece = line.substr(start..start + width);
        proof {
            let rest = wrapped_from(line@, width as int, start + width);
            assert(line_views(pieces@.push(piece)) =~= before.push(piece@));
            assert(before + (seq![piece@] + rest) =~= before.push(piece@) + rest);
        }
        pieces.push(piece);
        start += width;
    }
    pieces
}

/// The line that stands for a row of the window below the end of the
/// document: a tilde.
pub open spec fn no_line() -> LineView {
    LineView { content: seq![NO_LINE], schemes: Seq::empty() }
}

/// The first `height` lines of `body`, with lines of a tilde below them
/// where `body` has fewer.
pub open spec fn framed(body: Seq<LineView>, height: int) -> Seq<LineView> {
    Seq::new(
        height as nat,
        |i: int|
            if i < body.len() {
                body[i]
            } else {
                no_line()
            },
    )
}

/// Cuts `body` to `height` lines, or fills it up to them with lines of a
/// tilde.
pub fn frame(body: &mut Vec<LineWithRenderScheme>, height: usize)
    requires
        forall|i: int|
            0 <= i < old(body)@.len() ==> (#[trigger] old(body)@[i]).wf() && filled(
                old(body)@[i]@,
            ),
    ensures
        line_views(final(body)@) == framed(line_views(old(body)@), height as int),
        final(body)@.len() == height,
        forall|i: int|
            0 <= i < final(body)@.len() ==> (#[trigger] final(body)@[i]).wf() && filled(
                final(body)@[i]@,
            ),
{
    body.truncate(height);
    let ghost kept = body@;
    while body.len() < height
        invariant
            kept.len() <= body@.len() <= height,
            kept.len() <= old(body)@.len(),
            kept.len() == old(body)@.len() || kept.len() == height,
            forall|i: int| 0 <= i < kept.len() ==> kept[i] == old(body)@[i],
            forall|i: int| 0 <= i < kept.len() ==> #[trigger] body@[i] == kept[i],
            forall|i: int| kept.len() <= i < body@.len() ==> (#[trigger] body@[i])@ == no_line(),
            forall|i: int| 0 <= i < body@.len() ==> (#[trigger] body@[i]).wf()
                && filled(body@[i]@),
        decreases height - body@.len(),
    {
        let mut tilde: Vec<u8> = Vec::new();
        tilde.push(NO_LINE);
        let line = LineWithRenderScheme::new(tilde.as_slice());
        assert(line@.schemes =~= Seq::empty());
        assert(line@.content =~= seq![NO_LINE]);
        body.push(line);
    }
    assert(line_views(body@) =~= framed(line_views(old(body)@), height as int));
}

/// The number that `digits` spell to the base ten; `None` where one of
/// them is no digit. No digits spell 0.
pub open spec fn number_of(digits: Seq<char>) -> Option<int>
    decreases digits.len(),
{
    if digits.len() == 0 {
        Some(0)
    } else {
        match number_of(digits.drop_last()) {
            Some(value) => if '0' <= digits.last() <= '9' {
                Some(value * 10 + (digits.last() as int - 48))
            } else {
                None
            },
            None => None,
        }
    }
}

/// The number of lines that `text` names: a number to the base ten, with
/// or without a plus sign before it, that fits the machine.
pub open spec fn spec_line_count(text: Seq<char>) -> Option<usize> {
    let digits = if text.len() > 0 && text[0] == '+' {
        text.drop_first()
    } else {
        text
    };
    if digits.len() == 0 {
        None
    } else {
        match number_of(digits) {
            Some(value) => if value <= usize::MAX {
                Some(value as usize)
            } else {
                None
            },
            None => None,
        }
    }
}

/// The number that the first digits spell is at most the number that all
/// of them spell.
pub proof fn lemma_number_grows(digits: Seq<char>, n: int)
    requires
        0 <= n <= digits.len(),
    ensures
        number_of(digits) matches Some(all) ==> number_of(digits.take(n)) matches Some(part)
            && 0 <= part <= all,
    decreases digits.len(),
{
    if digits.len() > 0 {
        if n < digits.len() {
            lemma_number_grows(digits.drop_last(), n);
            assert(digits.drop_last().take(n) =~= digits.take(n));
        } else {
            lemma_number_grows(digits.drop_last(), n - 1);
            assert(digits.take(n) =~= digits);
        }
    } else {
        assert(digits.take(n) =~= digits);
    }
}

/// The number of lines that `text` names, if it names one.
pub fn parse_line_count(text: &str) -> (count: Option<usize>)
    ensures
        count == spec_line_count(text@),
{
    let length = text.unicode_len();
    let first: usize = if length > 0 && text.get_char(0) == '+' {
        1
    } else {
        0
    };
    if first == length {
        return None;
    }
    let ghost digits = if first == 1 {
        text@.drop_first()
    } else {
        text@
    };
    let mut value: usize = 0;
    let mut i: usize = first;
    assert(digits.take(0) =~= Seq::<char>::empty());
    while i < length
        invariant
            first <= i <= length == text@.len(),
            first <= 1,
            digits.len() == length - first > 0,
            digits == (if text@.len() > 0 && text@[0] == '+' {
                text@.drop_first()
            } else {
                text@
            }),
            first == 1 <==> text@.len() > 0 && text@[0] == '+',
            number_of(digits.take(i - first)) == Some(value as int),
        decreases length - i,
    {
        let c = text.get_char(i);
        let code = c as u32;
        proof {
            assert(digits.take(i - first + 1).drop_last() =~= digits.take(i - first));
            assert(digits.take(i - first + 1).last() == c);
            lemma_number_grows(digits, i - first + 1);
        }
        if code < 48 || code > 57 {
            return None;
        }
        let digit = (code - 48) as usize;
        value = match value.checked_mul(10) {
            Some(tens) => match tens.checked_add(digit) {
                Some(sum) => sum,
                None => {
                    return None;
                },
            },
            None => {
                return None;
            },
        };
        i += 1;
    }
    assert(digits.take(i - first) =~= digits);
    Some(value)
}

/// The answer of a handler that the answer `exit` of a dispatch stands for.
pub open spec fn handled_of(exit: Fetch<bool>) -> Fetch<()> {
    match exit {
        Fetch::Ready(_) => Fetch::Ready(()),
        Fetch::Missing(at) => Fetch::Missing(at),
    }
}

/// The answer of a dispatch for the answer of a handler: no handler ends
/// the viewer.
pub fn exit_of(handled: Fetch<()>) -> (exit: Fetch<bool>)
    ensures
        handled_of(exit) == handled,
        exit is Ready ==> exit == Fetch::Ready(false),
{
    match handled {
        Fetch::Missing(at) => Fetch::Missing(at),
        Fetch::Ready(unit) => {
            assert(unit == ());
            Fetch::Ready(false)
        },
    }
}

impl Manager {
    /// The invariant of the controller: those of its parts, and the offset
    /// of the window at or before the start of the last line.
    pub open spec fn wf(&self) -> bool {
        &&& self.document.wf()
        &&& self.window.wf()
        &&& self.event_source.wf()
        &&& self.bookmark_store.wf()
        &&& self.finder.wf()
        &&& self.canvas.wf()
        &&& self.status_bar.ratio <= 100
        &&& self.context.searching_direction matches Some(direction) ==> direction == Direction::Up
            || direction == Direction::Down
        &&& self.context.jumping_direction matches Some(direction) ==> direction == Direction::Up
            || direction == Direction::Down
    }

    /// True when the window stands where the document can be asked: at or
    /// before the start of the last line, and at the start of a line as far
    /// as the chunks tell.
    pub open spec fn ready(&self) -> bool {
        &&& self.wf()
        &&& self.window.offset <= self.document.last_line_start()
        &&& self.document.at_line_start(self.window.offset as int)
    }

    /// True when `offset` is the start of a line of `file`, at or before
    /// the start of its last line.
    pub open spec fn on_line(file: Seq<u8>, offset: usize) -> bool {
        is_line_start(file, offset as int) && offset <= tail_start(file)
    }

    /// True when the controller shows `file`: its document agrees with the
    /// file, and the offset of the window, the offsets that it can go back
    /// and forward to and the offsets of the bookmarks are starts of lines
    /// of the file, at or before the start of its last line.
    pub open spec fn shows(&self, file: Seq<u8>) -> bool {
        &&& self.document.agrees_with(file)
        &&& self.window.all_offsets(|offset: usize| Self::on_line(file, offset))
        &&& forall|i: int|
            0 <= i < self.bookmark_store.bookmarks@.len() ==> Self::on_line(
                file,
                (#[trigger] self.bookmark_store.bookmarks@[i]).offset,
            )
        &&& forall|i: int|
            0 <= i < self.bookmark_store.filtered_bookmarks@.len() ==> Self::on_line(
                file,
                (#[trigger] self.bookmark_store.filtered_bookmarks@[i]).offset,
            )
    }

    /// A controller that shows a file is ready: its window stands at the
    /// start of a line, at or before the start of the last line, whichever
    /// chunks are loaded.
    pub proof fn lemma_shown_is_ready(&self, file: Seq<u8>)
        requires
            self.wf(),
            self.shows(file),
        ensures
            self.ready(),
            Self::on_line(file, self.window.offset),
    {
        self.window.lemma_offset_holds(|offset: usize| Self::on_line(file, offset));
        self.document.lemma_last_line_is_tail(file);
        self.document.lemma_file_line_start_can_start(file, self.window.offset as int);
    }

    /// The controller of `document` in a terminal of `width` columns and
    /// `height` rows, the window at the start of the document.
    pub fn new(document: Document, width: usize, height: usize) -> (manager: Self)
        requires
            document.wf(),
            height >= 1,
        ensures
            manager.wf(),
            manager.ready(),
            manager.document == document,
            manager.window.offset == 0,
            manager.window.width == width,
            manager.window.height == height - 1,
            manager.mode == Mode::Normal,
            forall|file: Seq<u8>| document.agrees_with(file) ==> manager.shows(file),
    {
        proof {
            document.lemma_origin_is_line_start();
        }
        let ghost shown = document;
        let manager = Manager {
            document,
            window: Window::new(width, height),
            status_bar: StatusBar::default(),
            event_source: EventSource::default(),
            bookmark_store: BookmarkStore::default(),
            finder: Finder::new(),
            context: Context::default(),
            canvas: Canvas::default(),
            mode: Mode::Normal,
        };
        proof {
            assert forall|file: Seq<u8>| shown.agrees_with(file) implies manager.shows(file) by {
                lemma_tail_start_bounds(file);
                assert(Self::on_line(file, 0));
            }
        }
        manager
    }

    /// True when `after` is this controller but for its window, which has
    /// moved to `offset`.
    pub open spec fn window_moved(&self, after: &Manager, offset: usize) -> bool {
        &&& self.window.moved_to(&after.window, offset)
        &&& after.document == self.document
        &&& after.status_bar == self.status_bar
        &&& after.event_source == self.event_source
        &&& after.bookmark_store == self.bookmark_store
        &&& after.finder == self.finder
        &&& after.context == self.context
        &&& after.canvas == self.canvas
        &&& after.mode == self.mode
    }

    /// A controller that shows a file still shows it when its window has
    /// moved to the start of a line of the file.
    pub proof fn lemma_move_keeps_showing(&self, after: &Manager, offset: usize, file: Seq<u8>)
        requires
            self.wf(),
            self.shows(file),
            self.window_moved(after, offset),
            Self::on_line(file, offset),
        ensures
            after.shows(file),
    {
        self.window.lemma_move_keeps(
            &after.window,
            offset,
            |offset: usize| Self::on_line(file, offset),
        );
    }

    /// True when `after` and `moved` are what a move of the window by `step`
    /// lines or columns in the direction `direction` makes of this controller.
    pub open spec fn window_move_done(
        &self,
        after: &Manager,
        direction: Direction,
        step: usize,
        moved: Fetch<()>,
    ) -> bool {
        &&& match moved {
            Fetch::Missing(at) => *after == *self && !self.document.covered(at as int)
                && match direction {
                Direction::Up => self.document.distance_above(
                    self.window.offset as int,
                    step as nat,
                ) == Fetch::<int>::Missing(at),
                Direction::Down => self.document.distance_below(
                    self.window.offset as int,
                    step as nat,
                ) == Fetch::<int>::Missing(at),
                _ => false,
            },
            Fetch::Ready(_) => match direction {
                Direction::Up => self.document.distance_above(
                    self.window.offset as int,
                    step as nat,
                ) matches Fetch::Ready(distance) && self.window_moved(
                    after,
                    (self.window.offset - distance) as usize,
                ) && after.ready(),
                Direction::Down => self.document.distance_below(
                    self.window.offset as int,
                    step as nat,
                ) matches Fetch::Ready(distance) && self.window_moved(
                    after,
                    (self.window.offset + distance) as usize,
                ) && after.ready(),
                Direction::Left => after.window.horizontal_shift == (if self.context.wrap_lines {
                    self.window.horizontal_shift as int
                } else if self.window.horizontal_shift >= step {
                    self.window.horizontal_shift - step
                } else {
                    0
                }) && after.shifted_from(self),
                Direction::Right => after.window.horizontal_shift == (if self.context.wrap_lines {
                    self.window.horizontal_shift as int
                } else {
                    let reach = longest(lines_of(self.context.raw_lines@)) - self.window.width;
                    if self.window.horizontal_shift + step < reach {
                        self.window.horizontal_shift + step
                    } else if reach > 0 {
                        reach
                    } else {
                        0
                    }
                }) && after.shifted_from(self),
            },
        }
    }

    /// Moves the window by `step` lines up or down, as far as the document
    /// reaches, or shifts it by `step` columns to the left or to the right,
    /// to the right as far as the longest line of the frame reaches beyond
    /// the window. With wrapped lines the window is not shifted.
    pub fn on_window_move_event(&mut self, direction: Direction, step: usize) -> (moved: Fetch<()>)
        requires
            old(self).ready(),
            direction == Direction::Right ==> old(self).window.horizontal_shift + step
                <= usize::MAX,
        ensures
            final(self).wf(),
            old(self).window_move_done(final(self), direction, step, moved),
            forall|file: Seq<u8>| old(self).shows(file) ==> final(self).shows(file),
    {
        let ghost before = *self;
        match direction {
            Direction::Up => {
                let distance = match self.document.query_distance_to_above_n_lines(
                    self.window.offset(),
                    step,
                ) {
                    Fetch::Missing(at) => {
                        return Fetch::Missing(at);
                    },
                    Fetch::Ready(distance) => distance,
                };
                self.window.move_offset_by(distance, direction);
                proof {
                    assert forall|file: Seq<u8>| before.shows(file) implies self.shows(file) by {
                        before.lemma_shown_is_ready(file);
                        if step > 0 && before.window.offset > 0 {
                            before.document.lemma_distance_back_reaches_line_start(
                                file,
                                before.window.offset as int,
                                step as nat,
                            );
                        }
                        before.document.lemma_last_line_is_tail(file);
                        before.lemma_move_keeps_showing(self, self.window.offset, file);
                    }
                }
            },
            Direction::Down => {
                let distance = match self.document.query_distance_to_below_n_lines(
                    self.window.offset(),
                    step,
                ) {
                    Fetch::Missing(at) => {
                        return Fetch::Missing(at);
                    },
                    Fetch::Ready(distance) => distance,
                };
                self.window.move_offset_by(distance, direction);
                proof {
                    assert forall|file: Seq<u8>| before.shows(file) implies self.shows(file) by {
                        before.lemma_shown_is_ready(file);
                        before.document.lemma_distance_below_is_file_distance(
                            file,
                            before.window.offset as int,
                            step as nat,
                        );
                        before.document.lemma_last_line_is_tail(file);
                        before.lemma_move_keeps_showing(self, self.window.offset, file);
                    }
                }
            },
            Direction::Left => {
                if !self.context.wrap_lines {
                    self.window.horizontal_shift = self.window.horizontal_shift.saturating_sub(
                        step,
                    );
                }
            },
            Direction::Right => {
                if !self.context.wrap_lines {
                    let max_line_len = max_line_len(&self.context.raw_lines);
                    let max_window_shift = max_line_len.saturating_sub(self.window.width);
                    let wanted = self.window.horizontal_shift + step;
                    self.window.horizontal_shift = if wanted < max_window_shift {
                        wanted
                    } else {
                        max_window_shift
                    };
                }
            },
        }
        Fetch::Ready(())
    }

    /// True when this controller is `before` but for the shift of its
    /// window to the side.
    pub open spec fn shifted_from(&self, before: &Manager) -> bool {
        &&& self.window.offset == before.window.offset
        &&& self.window.offset_history == before.window.offset_history
        &&& self.window.width == before.window.width
        &&& self.window.height == before.window.height
        &&& self.document == before.document
        &&& self.status_bar == before.status_bar
        &&& self.event_source == before.event_source
        &&& self.bookmark_store == before.bookmark_store
        &&& self.finder == before.finder
        &&& self.context == before.context
        &&& self.canvas == before.canvas
        &&& self.mode == before.mode
    }

    /// The line `line` with the matches of `finder` coloured.
    pub open spec fn attached(finder: &Finder, line: Seq<u8>) -> LineView {
        LineView { content: line, schemes: accept_all(Seq::empty(), finder.all_candidates(line)) }
    }

    /// What the body of a frame shows of `line`: nothing where `finder`
    /// filters it out, its pieces where lines are wrapped, else its part
    /// from the shift of the window on, as wide as the window.
    pub open spec fn shown(
        finder: &Finder,
        wrap_lines: bool,
        width: int,
        shift: int,
        line: Seq<u8>,
    ) -> Seq<LineView> {
        if !finder.passes(line) {
            Seq::empty()
        } else if wrap_lines {
            wrapped_from(Self::attached(finder, line), width, 0)
        } else {
            seq![cut(Self::attached(finder, line), shift, shift + width)]
        }
    }

    /// What the body of a frame shows of `lines`.
    pub open spec fn body_of(
        finder: &Finder,
        wrap_lines: bool,
        width: int,
        shift: int,
        lines: Seq<Seq<u8>>,
    ) -> Seq<LineView>
        decreases lines.len(),
    {
        if lines.len() == 0 {
            Seq::empty()
        } else {
            Self::body_of(finder, wrap_lines, width, shift, lines.drop_last()) + Self::shown(
                finder,
                wrap_lines,
                width,
                shift,
                lines.last(),
            )
        }
    }

    /// What the body of the frame of this controller shows of `lines`.
    pub open spec fn body(&self, lines: Seq<Seq<u8>>) -> Seq<LineView> {
        Self::body_of(
            &self.finder,
            self.context.wrap_lines,
            self.window.width as int,
            self.window.horizontal_shift as int,
            lines,
        )
    }

    /// What the body of the frame shows of `line`.
    pub fn show_line(&self, line: &[u8]) -> (pieces: Vec<LineWithRenderScheme>)
        requires
            self.finder.wf(),
            self.context.wrap_lines ==> self.window.width > 0,
            self.window.horizontal_shift + self.window.width <= usize::MAX,
        ensures
            line_views(pieces@) == Self::shown(
                &self.finder,
                self.context.wrap_lines,
                self.window.width as int,
                self.window.horizontal_shift as int,
                line@,
            ),
            forall|i: int|
                0 <= i < pieces@.len() ==> (#[trigger] pieces@[i]).wf() && filled(pieces@[i]@),
    {
        if !self.finder.can_pass_advance_action(line) {
            let pieces: Vec<LineWithRenderScheme> = Vec::new();
            assert(line_views(pieces@) =~= Seq::<LineView>::empty());
            return pieces;
        }
        let line_with_render_scheme = self.finder.attach_render_scheme(line);
        assert(line_with_render_scheme@ == Self::attached(&self.finder, line@));
        if self.context.wrap_lines {
            wrap_line(&line_with_render_scheme, self.window.width)
        } else {
            let start = self.window.horizontal_shift;
            let end = start + self.window.width;
            let substr = line_with_render_scheme.substr(start..end);
            let mut pieces: Vec<LineWithRenderScheme> = Vec::new();
            pieces.push(substr);
            assert(line_views(pieces@) =~= seq![substr@]);
            pieces
        }
    }

    /// Fills the body of the canvas with what the frame shows of the lines
    /// of the context, on as many rows as the window is high.
    pub fn fill_body(&mut self)
        requires
            old(self).wf(),
            old(self).context.wrap_lines ==> old(self).window.width > 0,
            old(self).window.horizontal_shift + old(self).window.width <= usize::MAX,
        ensures
            final(self).wf(),
            line_views(final(self).canvas.body_area@) == framed(
                old(self).body(lines_of(old(self).context.raw_lines@)),
                old(self).window.height as int,
            ),
            final(self).canvas.body_area@.len() == old(self).window.height,
            final(self).canvas.popup_menu == old(self).canvas.popup_menu,
            final(self).canvas.status_bar == old(self).canvas.status_bar,
            final(self).canvas.cursor_pos_x == old(self).canvas.cursor_pos_x,
            final(self).document == old(self).document,
            final(self).window == old(self).window,
            final(self).status_bar == old(self).status_bar,
            final(self).event_source == old(self).event_source,
            final(self).bookmark_store == old(self).bookmark_store,
            final(self).finder == old(self).finder,
            final(self).context == old(self).context,
            final(self).mode == old(self).mode,
    {
        let mut body: Vec<LineWithRenderScheme> = Vec::new();
        let ghost lines = lines_of(self.context.raw_lines@);
        let mut i: usize = 0;
        assert(lines.take(0) =~= Seq::<Seq<u8>>::empty());
        assert(line_views(body@) =~= Seq::<LineView>::empty());
        while i < self.context.raw_lines.len()
            invariant
                *self == *old(self),
                self.wf(),
                self.context.wrap_lines ==> self.window.width > 0,
                self.window.horizontal_shift + self.window.width <= usize::MAX,
                lines == lines_of(self.context.raw_lines@),
                i <= self.context.raw_lines@.len(),
                line_views(body@) == self.body(lines.take(i as int)),
                forall|k: int| 0 <= k < body@.len() ==> (#[trigger] body@[k]).wf()
                    && filled(body@[k]@),
            decreases self.context.raw_lines@.len() - i,
        {
            let ghost before = body@;
            let mut pieces = self.show_line(self.context.raw_lines[i].as_slice());
            proof {
                assert(lines.take(i + 1).drop_last() =~= lines.take(i as int));
                assert(lines.take(i + 1).last() == self.context.raw_lines@[i as int]@);
                assert(line_views(before + pieces@) =~= line_views(before) + line_views(pieces@));
            }
            body.append(&mut pieces);
            i += 1;
        }
        assert(lines.take(i as int) =~= lines);
        frame(&mut body, self.window.height);
        self.canvas.body_area = body;
    }

    /// The hundredths of the way to the last line that the window stands
    /// at.
    pub open spec fn percent(&self) -> usize {
        if self.document.last_line_start() == 0 {
            100
        } else {
            (self.window.offset * 100 / self.document.last_line_start()) as usize
        }
    }

    /// True when the canvas of this controller is what a frame makes of the
    /// controller `before`, whose context holds the lines of the frame:
    /// `blank` is the canvas with the body of the frame alone, on which the
    /// bookmark menu is put where it is open, else the finder menu where it
    /// is open, else the status bar with the place in the document in
    /// hundredths, which gives the canvas `middle` and leaves `spaces`
    /// blanks, and on it the strip of the slots of the finder.
    pub open spec fn frame_drawn(
        &self,
        before: &Manager,
        blank: &Canvas,
        middle: &Canvas,
        spaces: Option<usize>,
    ) -> bool {
        let width = before.window.width as int;
        let height = before.window.height as int;
        &&& line_views(blank.body_area@) == framed(
            before.body(lines_of(self.context.raw_lines@)),
            height,
        )
        &&& blank.popup_menu@.len() == 0
        &&& blank.status_bar@.content.len() == 0
        &&& blank.status_bar@.schemes.len() == 0
        &&& blank.cursor_pos_x == before.canvas.cursor_pos_x
        &&& if before.bookmark_store.menu_index is Some {
            &&& before.bookmark_store.drawn(blank, &self.canvas, width, height)
            &&& self.status_bar == before.status_bar
        } else if before.finder.menu_active {
            &&& before.finder.menu_drawn(blank, &self.canvas, width, height)
            &&& self.status_bar == before.status_bar
        } else {
            &&& (StatusBar { ratio: before.percent(), ..before.status_bar }).drawn(
                &self.status_bar,
                blank,
                middle,
                width,
                spaces,
            )
            &&& match spaces {
                Some(count) => before.finder.strip_drawn(middle, &self.canvas, count as int),
                None => self.canvas == *middle,
            }
        }
    }

    /// Fills the canvas for the next frame: the lines of the document from
    /// the offset of the window on, as the finder filters and colours them,
    /// cut or wrapped to the window; then the bookmark menu where it is
    /// open, else the finder menu where it is open, else the status bar with
    /// the place in the document in hundredths. Returns whether there is a
    /// frame to draw: a frame is passed over once where the context says
    /// that none is needed.
    #[verifier::rlimit(40)]
    pub fn fill_canvas(&mut self) -> (filled: Fetch<bool>)
        requires
            old(self).ready(),
            old(self).context.wrap_lines ==> old(self).window.width > 0,
            old(self).window.horizontal_shift + old(self).window.width <= usize::MAX,
        ensures
            final(self).ready(),
            final(self).document == old(self).document,
            final(self).window == old(self).window,
            final(self).event_source == old(self).event_source,
            final(self).bookmark_store == old(self).bookmark_store,
            final(self).finder == old(self).finder,
            final(self).mode == old(self).mode,
            final(self).context.wrap_lines == old(self).context.wrap_lines,
            final(self).context.searching_direction == old(self).context.searching_direction,
            final(self).context.jumping_direction == old(self).context.jumping_direction,
            match filled {
                Fetch::Missing(at) => *final(self) == *old(self) && !old(self).document.covered(
                    at as int,
                ) && old(self).context.need_rerender && old(self).document.lines_from(
                    old(self).window.offset as int,
                    old(self).window.height as nat,
                ) == Fetch::<Seq<Seq<u8>>>::Missing(at),
                Fetch::Ready(false) => !old(self).context.need_rerender
                    && final(self).context.need_rerender && final(self).canvas == old(self).canvas
                    && final(self).status_bar == old(self).status_bar
                    && final(self).context.raw_lines == old(self).context.raw_lines,
                Fetch::Ready(true) => {
                    &&& old(self).context.need_rerender
                    &&& final(self).context.need_rerender
                    &&& old(self).document.lines_from(
                        old(self).window.offset as int,
                        old(self).window.height as nat,
                    ) == Fetch::Ready(lines_of(final(self).context.raw_lines@))
                    &&& final(self).canvas.body_area@.len() == old(self).window.height
                    &&& final(self).canvas.popup_menu@.len() <= final(self).canvas.body_area@.len()
                    &&& exists|blank: Canvas, middle: Canvas, spaces: Option<usize>|
                        #[trigger] final(self).frame_drawn(old(self), &blank, &middle, spaces)
                },
            },
    {
        if !self.context.need_rerender {
            self.context.need_rerender = true;
            return Fetch::Ready(false);
        }
        let raw_lines = match self.document.query_lines(self.window.offset(), self.window.height) {
            Fetch::Missing(at) => {
                return Fetch::Missing(at);
            },
            Fetch::Ready(raw_lines) => raw_lines,
        };
        self.context.raw_lines = raw_lines;
        self.canvas.clear();
        self.fill_body();
        let ghost blank = self.canvas;
        let ghost mut middle = self.canvas;
        let ghost mut blanks: Option<usize> = None;
        if self.bookmark_store.is_active() {
            self.bookmark_store.render(&mut self.canvas, self.window.width, self.window.height);
        } else if self.finder.is_menu_active() {
            self.finder.render_menu(&mut self.canvas, self.window.width, self.window.height);
        } else {
            let ratio = self.document.percent_ratio_of_offset(self.window.offset());
            self.status_bar.set_ratio(ratio);
            let spaces = self.status_bar.render(&mut self.canvas, self.window.width);
            proof {
                middle = self.canvas;
                blanks = spaces;
            }
            if let Some(space_count) = spaces {
                proof {
                    crate::status_bar::lemma_decimal_short(self.status_bar.ratio as nat);
                }
                self.finder.render_status_bar(&mut self.canvas, space_count);
            }
        }
        proof {
            assert(self.frame_drawn(old(self), &blank, &middle, blanks));
        }
        Fetch::Ready(true)
    }

    /// True when the window stands on a line that the finder is satisfied
    /// with: the last line where it stands at its start, else the loaded
    /// line that starts at its offset.
    pub open spec fn at_match(&self) -> bool {
        if self.window.offset >= self.document.last_line_start() {
            self.finder.satisfies(self.document.last_line@)
        } else {
            self.document.line_known(self.window.offset as int) && self.finder.satisfies(
                self.document.line_at(self.window.offset as int),
            )
        }
    }

    /// True when `after` is this controller with `message` as the message
    /// that the status bar shows once.
    pub open spec fn told(&self, after: &Manager, message: Seq<char>) -> bool {
        &&& after.status_bar.oneoff_error_text matches Some(text) && text@ == message
        &&& after.status_bar.text == self.status_bar.text
        &&& after.status_bar.ratio == self.status_bar.ratio
        &&& after.document == self.document
        &&& after.window == self.window
        &&& after.event_source == self.event_source
        &&& after.bookmark_store == self.bookmark_store
        &&& after.finder == self.finder
        &&& after.context == self.context
        &&& after.canvas == self.canvas
        &&& after.mode == self.mode
    }

    /// A controller that shows a file still shows it when its window has
    /// moved to the start of a loaded line or of the last line.
    pub proof fn lemma_move_to_line_keeps_showing(
        &self,
        after: &Manager,
        offset: usize,
        file: Seq<u8>,
    )
        requires
            self.wf(),
            self.shows(file),
            self.window_moved(after, offset),
            offset == self.document.last_line_start() || self.document.line_known(offset as int),
        ensures
            after.shows(file),
    {
        self.document.lemma_last_line_is_tail(file);
        if offset != self.document.last_line_start() {
            let (k, i) = choose|k: int, i: int| self.document.holds_line(k, i, offset as int);
            self.document.lemma_row_is_file_line(file, k, i);
            self.document.lemma_row_bounds(k, i);
        }
        self.lemma_move_keeps_showing(after, offset, file);
    }

    /// True when the lines of `document` from `from` up to `to` are loaded,
    /// stand before the last line, and `finder` is satisfied with none of
    /// them.
    pub open spec fn unmatched_below(
        document: &Document,
        finder: &Finder,
        from: int,
        to: int,
    ) -> bool
        decreases to - from,
    {
        let next = from + document.line_at(from).len() + 1;
        if from >= to {
            from == to
        } else if next > to {
            false
        } else {
            &&& from < document.last_line_start()
            &&& document.line_known(from)
            &&& !finder.satisfies(document.line_at(from))
            &&& Self::unmatched_below(document, finder, next, to)
        }
    }

    /// True when the lines of `document` between `to` and `from`, walked
    /// upwards from `from`, are loaded and `finder` is satisfied with none
    /// of them.
    pub open spec fn unmatched_above(
        document: &Document,
        finder: &Finder,
        from: int,
        to: int,
    ) -> bool
        decreases from - to,
    {
        let next = from - document.line_before(from).len() - 1;
        if from <= to {
            from == to
        } else if next < to {
            false
        } else {
            &&& document.line_before_known(from)
            &&& !finder.satisfies(document.line_before(from))
            &&& Self::unmatched_above(document, finder, next, to)
        }
    }

    /// Lines that a predicate has turned down which answers as the finder
    /// does are lines that the finder is not satisfied with.
    pub proof fn lemma_turned_down_is_unmatched<F: Fn(&Vec<u8>) -> bool>(
        document: &Document,
        finder: &Finder,
        predicate: F,
        from: int,
        to: int,
    )
        requires
            document.turned_down(predicate, from, to),
            forall|line: &Vec<u8>, found: bool|
                call_ensures(predicate, (line,), found) ==> found == finder.satisfies(line@),
        ensures
            Self::unmatched_below(document, finder, from, to),
        decreases to - from,
    {
        if from < to {
            let next = from + document.line_at(from).len() + 1;
            assert(document.judged(predicate, from, false));
            Self::lemma_turned_down_is_unmatched(document, finder, predicate, next, to);
        }
    }

    /// Lines above that a predicate has turned down which answers as the
    /// finder does are lines that the finder is not satisfied with.
    pub proof fn lemma_turned_down_above_is_unmatched<F: Fn(&Vec<u8>) -> bool>(
        document: &Document,
        finder: &Finder,
        predicate: F,
        from: int,
        to: int,
    )
        requires
            document.turned_down_above(predicate, from, to),
            forall|line: &Vec<u8>, found: bool|
                call_ensures(predicate, (line,), found) ==> found == finder.satisfies(line@),
        ensures
            Self::unmatched_above(document, finder, from, to),
        decreases from - to,
    {
        if from > to {
            let next = from - document.line_before(from).len() - 1;
            assert(document.judged_before(predicate, from, false));
            Self::lemma_turned_down_above_is_unmatched(document, finder, predicate, next, to);
        }
    }

    /// True when `after` is this controller with its window moved to a
    /// line that the finder is satisfied with.
    pub open spec fn moved_to_match(&self, after: &Manager) -> bool {
        &&& self.window_moved(after, after.window.offset)
        &&& after.at_match()
        &&& after.ready()
    }

    /// True when `stop` is where the search upwards from the window ends
    /// with a match: no line between it and the window satisfies the
    /// finder, and the line that ends before it starts at `offset`.
    pub open spec fn match_above(&self, stop: int, offset: int) -> bool {
        &&& Self::unmatched_above(&self.document, &self.finder, self.window.offset as int, stop)
        &&& self.document.line_before_known(stop)
        &&& offset == stop - self.document.line_before(stop).len() - 1
    }

    /// True when the search upwards from the window ends with a match at
    /// the line that starts at `offset`.
    pub open spec fn found_above(&self, offset: int) -> bool {
        exists|stop: int| #[trigger] self.match_above(stop, offset)
    }

    /// True when `after` and `searched` are what the search upwards makes
    /// of this controller: the window moves to the nearest line above it
    /// that the finder is satisfied with, or the status bar says that there
    /// is none; or the document has to be read first, at the offset of the
    /// window or at the line break above the lines that were seen.
    pub open spec fn searched_up(&self, after: &Manager, searched: Fetch<()>) -> bool {
        let offset = self.window.offset as int;
        match searched {
            Fetch::Missing(at) => {
                &&& *after == *self
                &&& !self.document.covered(at as int)
                &&& if at == offset {
                    offset != self.document.last_line_start() && offset > 0
                } else {
                    Self::unmatched_above(&self.document, &self.finder, offset, at + 1)
                }
            },
            Fetch::Ready(_) => {
                ||| self.told(after, "Not found"@) && Self::unmatched_above(
                    &self.document,
                    &self.finder,
                    offset,
                    0,
                )
                ||| self.moved_to_match(after) && after.window.offset < offset
                    && self.found_above(after.window.offset as int)
            },
        }
    }

    /// True when `stop`, at or after the start of the last line, is where
    /// the search downwards from `start` ends without a match.
    pub open spec fn no_match_below(&self, start: int, stop: int) -> bool {
        &&& stop >= self.document.last_line_start()
        &&& Self::unmatched_below(&self.document, &self.finder, start, stop)
        &&& !self.finder.satisfies(self.document.last_line@)
    }

    /// True when the search downwards from `start` ends without a match.
    pub open spec fn ended_below(&self, start: int) -> bool {
        exists|stop: int| #[trigger] self.no_match_below(start, stop)
    }

    /// True when `after` and `searched` are what the search downwards makes
    /// of this controller: the window moves to the nearest line at or below
    /// it, or below it where the search goes on from a match, that the
    /// finder is satisfied with, or the status bar says that there is none;
    /// or the document has to be read first, below the lines that were
    /// seen.
    pub open spec fn searched_down(
        &self,
        after: &Manager,
        from_next_event: bool,
        searched: Fetch<()>,
    ) -> bool {
        let offset = self.window.offset as int;
        let skipped = if from_next_event {
            self.document.distance_below(offset, 1)
        } else {
            Fetch::Ready(0int)
        };
        match skipped {
            Fetch::Missing(at) => searched == Fetch::<()>::Missing(at) && *after == *self
                && !self.document.covered(at as int),
            Fetch::Ready(extra) => match searched {
                Fetch::Missing(at) => {
                    &&& *after == *self
                    &&& !self.document.covered(at as int)
                    &&& at < self.document.last_line_start()
                    &&& Self::unmatched_below(&self.document, &self.finder, offset + extra, at as int)
                },
                Fetch::Ready(_) => {
                    ||| self.told(after, "Not found"@) && self.ended_below(offset + extra)
                    ||| self.moved_to_match(after) && after.window.offset >= offset
                        && Self::unmatched_below(
                        &self.document,
                        &self.finder,
                        offset + extra,
                        after.window.offset as int,
                    )
                },
            },
        }
    }

    /// Moves the window to the nearest line above it that the finder is
    /// satisfied with, or says that there is none.
    #[verifier::rlimit(60)]
    pub fn search_up(&mut self) -> (searched: Fetch<()>)
        requires
            old(self).ready(),
        ensures
            final(self).wf(),
            old(self).searched_up(final(self), searched),
            forall|file: Seq<u8>| old(self).shows(file) ==> final(self).shows(file),
    {
        let ghost before = *self;
        let finder = &self.finder;
        let search_predict = |line: &Vec<u8>| -> (found: bool)
            requires
                finder.wf(),
            ensures
                found == finder.satisfies(line@),
            { finder.can_satisfy_active_search_patterns(line.as_slice()) };
        let offset = self.window.offset();
        match self.document.query_distance_to_prev_match(offset, search_predict) {
            Fetch::Missing(at) => {
                proof {
                    if at != offset {
                        Self::lemma_turned_down_above_is_unmatched(
                            &before.document,
                            &before.finder,
                            search_predict,
                            offset as int,
                            at + 1,
                        );
                    }
                }
                Fetch::Missing(at)
            },
            Fetch::Ready(None) => {
                proof {
                    Self::lemma_turned_down_above_is_unmatched(
                        &before.document,
                        &before.finder,
                        search_predict,
                        offset as int,
                        0,
                    );
                }
                self.status_bar.set_oneoff_error_text("Not found");
                Fetch::Ready(())
            },
            Fetch::Ready(Some(distance)) => {
                let ghost mut ended: int = 0;
                proof {
                    let stop = choose|stop: int|
                        #[trigger] before.document.turned_down_above(
                            search_predict,
                            offset as int,
                            stop,
                        ) && before.document.judged_before(search_predict, stop, true) && offset
                            - distance == stop - before.document.line_before(stop).len() - 1;
                    let (k, i) = choose|k: int, i: int| before.document.holds_line_before(k, i, stop);
                    before.document.lemma_line_before_unique(k, i, stop);
                    before.document.lemma_row_bounds(k, i);
                    assert(before.document.holds_line(k, i, offset - distance));
                    before.document.lemma_line_unique(k, i, offset - distance);
                    assert(before.finder.satisfies(before.document.line_at(offset - distance)));
                    Self::lemma_turned_down_above_is_unmatched(
                        &before.document,
                        &before.finder,
                        search_predict,
                        offset as int,
                        stop,
                    );
                    ended = stop;
                }
                self.window.move_offset_by(distance, Direction::Up);
                proof {
                    assert(before.window_moved(self, self.window.offset));
                    assert(before.match_above(ended, self.window.offset as int));
                    assert(before.found_above(self.window.offset as int));
                    assert forall|file: Seq<u8>| before.shows(file) implies self.shows(file) by {
                        before.lemma_move_to_line_keeps_showing(self, self.window.offset, file);
                    }
                }
                Fetch::Ready(())
            },
        }
    }

    /// A line that a predicate takes which answers as the finder does is a
    /// line that the finder is satisfied with.
    pub proof fn lemma_found_is_match<F: Fn(&Vec<u8>) -> bool>(
        document: &Document,
        finder: &Finder,
        predicate: F,
        target: int,
    )
        requires
            document.judged(predicate, target, true),
            forall|line: &Vec<u8>, found: bool|
                call_ensures(predicate, (line,), found) ==> found == finder.satisfies(line@),
        ensures
            if target >= document.last_line_start() {
                finder.satisfies(document.last_line@)
            } else {
                document.line_known(target) && finder.satisfies(document.line_at(target))
            },
    {
    }

    /// Moves the window to the nearest line at or below it that the finder
    /// is satisfied with, or below it where the search goes on from a
    /// match, or says that there is none.
    #[verifier::rlimit(60)]
    pub fn search_down(&mut self, from_next_event: bool) -> (searched: Fetch<()>)
        requires
            old(self).ready(),
        ensures
            final(self).wf(),
            old(self).searched_down(final(self), from_next_event, searched),
            forall|file: Seq<u8>| old(self).shows(file) ==> final(self).shows(file),
    {
        let ghost before = *self;
        let finder = &self.finder;
        let search_predict = |line: &Vec<u8>| -> (found: bool)
            requires
                finder.wf(),
            ensures
                found == finder.satisfies(line@),
            { finder.can_satisfy_active_search_patterns(line.as_slice()) };
        let offset = self.window.offset();
        let extra_distance = if from_next_event {
            match self.document.query_distance_to_below_n_lines(offset, 1) {
                Fetch::Missing(at) => {
                    return Fetch::Missing(at);
                },
                Fetch::Ready(distance) => distance,
            }
        } else {
            0
        };
        let ghost start = offset + extra_distance;
        match self.document.query_distance_to_next_match(offset + extra_distance, search_predict) {
            Fetch::Missing(at) => {
                proof {
                    Self::lemma_turned_down_is_unmatched(
                        &before.document,
                        &before.finder,
                        search_predict,
                        start,
                        at as int,
                    );
                }
                Fetch::Missing(at)
            },
            Fetch::Ready(None) => {
                proof {
                    let stop = choose|stop: int|
                        stop >= before.document.last_line_start()
                            && #[trigger] before.document.turned_down(search_predict, start, stop)
                            && before.document.judged(search_predict, stop, false);
                    Self::lemma_turned_down_is_unmatched(
                        &before.document,
                        &before.finder,
                        search_predict,
                        start,
                        stop,
                    );
                    assert(before.no_match_below(start, stop));
                    assert(before.ended_below(start));
                }
                self.status_bar.set_oneoff_error_text("Not found");
                Fetch::Ready(())
            },
            Fetch::Ready(Some(distance)) => {
                let ghost target = offset + extra_distance + distance;
                proof {
                    Self::lemma_turned_down_is_unmatched(
                        &before.document,
                        &before.finder,
                        search_predict,
                        start,
                        target,
                    );
                    Self::lemma_found_is_match(
                        &before.document,
                        &before.finder,
                        search_predict,
                        target,
                    );
                }
                self.window.move_offset_by(distance + extra_distance, Direction::Down);
                proof {
                    assert(before.window_moved(self, self.window.offset));
                    assert forall|file: Seq<u8>| before.shows(file) implies self.shows(file) by {
                        before.lemma_move_to_line_keeps_showing(self, self.window.offset, file);
                    }
                }
                Fetch::Ready(())
            },
        }
    }

    /// True when `after` and `searched` are what a search in the direction
    /// `direction` makes of this controller.
    pub open spec fn search_done(
        &self,
        after: &Manager,
        direction: Direction,
        from_next_event: bool,
        searched: Fetch<()>,
    ) -> bool {
        if direction == Direction::Up {
            self.searched_up(after, searched)
        } else {
            self.searched_down(after, from_next_event, searched)
        }
    }

    /// Moves the window to the next line, upwards or downwards, that the
    /// finder is satisfied with; going on from a match, downwards, the
    /// search starts below the line of the window. Where there is no such
    /// line the status bar says so.
    pub fn search_next(&mut self, direction: Direction, from_next_event: bool) -> (searched: Fetch<()>)
        requires
            old(self).ready(),
            direction == Direction::Up || direction == Direction::Down,
        ensures
            final(self).wf(),
            old(self).search_done(final(self), direction, from_next_event, searched),
            forall|file: Seq<u8>| old(self).shows(file) ==> final(self).shows(file),
    {
        if direction == Direction::Up {
            self.search_up()
        } else {
            self.search_down(from_next_event)
        }
    }

    /// True when `after` is this controller with the text of its status bar
    /// taken away and `pattern` given to the active slots of the finder.
    pub open spec fn search_entered(&self, after: &Manager, pattern: Seq<char>) -> bool {
        &&& self.finder.pattern_set(&after.finder, pattern)
        &&& after.status_bar.text@.len() == 0
        &&& after.status_bar.oneoff_error_text == self.status_bar.oneoff_error_text
        &&& after.status_bar.ratio == self.status_bar.ratio
        &&& after.document == self.document
        &&& after.window == self.window
        &&& after.event_source == self.event_source
        &&& after.bookmark_store == self.bookmark_store
        &&& after.context == self.context
        &&& after.canvas == self.canvas
        &&& after.mode == self.mode
    }

    /// True when `after` and `handled` are what the action `action` of the
    /// search prompt makes of this controller.
    pub open spec fn search_event_done(
        &self,
        after: &Manager,
        action: &PromptAction,
        handled: Fetch<()>,
    ) -> bool {
        &&& after.document == self.document
        &&& handled matches Fetch::Missing(at) ==> !self.document.covered(at as int)
            && after.window == self.window
            && after.context.searching_direction == self.context.searching_direction
        &&& handled is Ready ==> match *action {
            PromptAction::Start(direction) => after.context.searching_direction
                == direction && after.status_bar.text@ == "Search: "@
                    && after.window == self.window,
            PromptAction::Content(content) => after.status_bar.text@ == "Search: "@
                + content@ && after.window == self.window,
            PromptAction::Cancel => after.context.searching_direction is None
                && after.status_bar.text@.len() == 0 && after.window == self.window,
            PromptAction::Enter(content) => if self.finder.active_slots@.len() > 1 {
                self.told(
                    after,
                    "Cannot search with more than one active Finder slot"@,
                )
            } else {
                &&& self.finder.pattern_set(&after.finder, content@)
                &&& after.context.searching_direction is None
                &&& after.status_bar.text@.len() == 0
                &&& exists|entered: Manager, sought: Manager|
                    {
                        &&& #[trigger] self.search_entered(&entered, content@)
                        &&& #[trigger] entered.search_done(
                            &sought,
                            self.context.searching_direction->0,
                            false,
                            handled,
                        )
                        &&& *after == (Manager {
                            context: Context { searching_direction: None, ..sought.context },
                            ..sought
                        })
                    }
            },
        }
        &&& handled matches Fetch::Missing(at) ==> *action is Enter && exists|entered: Manager|
            #[trigger] self.search_entered(&entered, action->Enter_0@) && entered.search_done(
                after,
                self.context.searching_direction->0,
                false,
                handled,
            )
    }

    /// Takes what the search prompt did: shows its text on the status bar,
    /// and on Enter gives the text to the one active slot of the finder as
    /// its pattern and searches for it; with more than one active slot it
    /// says that this cannot be done.
    pub fn on_search_event(&mut self, action: &PromptAction) -> (handled: Fetch<()>)
        requires
            old(self).ready(),
            match *action {
                PromptAction::Start(direction) => direction == Some(Direction::Up) || direction
                    == Some(Direction::Down),
                PromptAction::Enter(_) => old(self).context.searching_direction == Some(
                    Direction::Up,
                ) || old(self).context.searching_direction == Some(Direction::Down),
                _ => true,
            },
        ensures
            final(self).wf(),
            old(self).search_event_done(final(self), action, handled),
            forall|file: Seq<u8>| old(self).shows(file) ==> final(self).shows(file),
    {
        match action {
            PromptAction::Start(direction) => {
                self.context.searching_direction = *direction;
                self.status_bar.set_text("Search: ");
            },
            PromptAction::Content(content) => {
                let text = String::from_str("Search: ").concat(content.as_str());
                self.status_bar.set_text(text.as_str());
            },
            PromptAction::Cancel => {
                self.context.searching_direction = None;
                self.status_bar.clear_text();
            },
            PromptAction::Enter(content) => {
                if self.finder.active_slots().len() > 1 {
                    self.status_bar.set_oneoff_error_text(
                        "Cannot search with more than one active Finder slot",
                    );
                } else {
                    let direction = match self.context.searching_direction {
                        Some(direction) => direction,
                        None => Direction::Down,
                    };
                    self.status_bar.clear_text();
                    self.finder.update_search_pattern(content.as_str());
                    let ghost entered = *self;
                    proof {
                        assert(old(self).search_entered(&entered, content@));
                        assert forall|file: Seq<u8>| old(self).shows(file) implies self.shows(
                            file,
                        ) by {}
                    }
                    match self.search_next(direction, false) {
                        Fetch::Missing(at) => {
                            return Fetch::Missing(at);
                        },
                        Fetch::Ready(unit) => {
                            assert(unit == ());
                        },
                    }
                    let ghost sought = *self;
                    self.context.searching_direction = None;
                    proof {
                        assert(entered.search_done(&sought, direction, false, Fetch::Ready(())));
                    }
                }
            },
        }
        Fetch::Ready(())
    }

    /// True when `after` and `sought` are what the jump to the end of the
    /// document makes of this controller.
    pub open spec fn sought_end(
        &self,
        after: &Manager,
        document_updated: bool,
        sought: Fetch<()>,
    ) -> bool {
        &&& match sought {
            Fetch::Missing(at) => !self.document.covered(at as int) && after.window == self.window
                && after.document == self.document && self.document.distance_above(
                self.document.last_line_start(),
                (if self.window.height > 0 {
                    self.window.height - 1
                } else {
                    0
                }) as nat,
            ) == Fetch::<int>::Missing(at),
            Fetch::Ready(_) => self.document.distance_above(
                self.document.last_line_start(),
                (if self.window.height > 0 {
                    self.window.height - 1
                } else {
                    0
                }) as nat,
            ) matches Fetch::Ready(distance) && self.window.moved_to(
                &after.window,
                (self.document.last_line_start() - distance) as usize,
            ) && after.document == self.document && after.ready(),
        }
        &&& after.context.need_rerender == document_updated
        &&& after.mode == self.mode
        &&& after.status_bar == self.status_bar
        &&& after.finder == self.finder
        &&& after.bookmark_store == self.bookmark_store
        &&& after.event_source == self.event_source
        &&& after.canvas == self.canvas
    }

    /// Moves the window so that the last line of the document stands on its
    /// last row, as far as the document has lines for the rows above, and
    /// notes whether the next frame has to be drawn.
    pub fn seek_to_end(&mut self, document_updated: bool) -> (sought: Fetch<()>)
        requires
            old(self).wf(),
        ensures
            final(self).wf(),
            old(self).sought_end(final(self), document_updated, sought),
            forall|file: Seq<u8>| old(self).shows(file) ==> final(self).shows(file),
    {
        let ghost before = *self;
        self.context.need_rerender = document_updated;
        let last_line_start = self.document.last_line_start_offset();
        let distance = match self.document.query_distance_to_above_n_lines(
            last_line_start,
            self.window.height.saturating_sub(1),
        ) {
            Fetch::Missing(at) => {
                return Fetch::Missing(at);
            },
            Fetch::Ready(distance) => distance,
        };
        self.window.set_offset(last_line_start.saturating_sub(distance));
        proof {
            assert forall|file: Seq<u8>| before.shows(file) implies self.shows(file) by {
                before.document.lemma_last_line_is_tail(file);
                let rows = (if before.window.height > 0 {
                    before.window.height - 1
                } else {
                    0
                }) as nat;
                if rows > 0 && last_line_start > 0 {
                    before.document.lemma_distance_back_reaches_line_start(
                        file,
                        last_line_start as int,
                        rows,
                    );
                }
                self.window.lemma_move_reaches(&before.window);
                before.window.lemma_move_keeps(
                    &self.window,
                    self.window.offset,
                    |offset: usize| Self::on_line(file, offset),
                );
            }
        }
        Fetch::Ready(())
    }

    /// True when `after` and `handled` are what the action `action` of the
    /// timestamp prompt makes of this controller.
    pub open spec fn timestamp_event_done(
        &self,
        after: &Manager,
        action: &PromptAction,
        handled: Fetch<()>,
    ) -> bool {
        &&& after.document.chunks == self.document.chunks
        &&& after.document.last_line == self.document.last_line
        &&& after.document.document_size == self.document.document_size
        &&& handled matches Fetch::Missing(at) ==> !after.document.covered(at as int)
            && after.window == self.window
        &&& handled is Ready ==> match *action {
            PromptAction::Start(_) => after.status_bar.text@ == "Jump to timestamp"@
                && after.window == self.window,
            PromptAction::Content(content) => after.status_bar.text@
                == "Jump to timestamp: "@ + content@ && after.window == self.window,
            PromptAction::Cancel => after.status_bar.text@.len() == 0
                && after.window == self.window,
            PromptAction::Enter(content) => after.status_bar.text@.len() == 0 && (
            crate::log_timestamp::spec_parse_log_timestamp(content@).1 is None
                ==> after.status_bar.message() == Some("Invalid timestamp"@) && after.window
                == self.window && after.document == self.document),
        }
        &&& match *action {
            PromptAction::Enter(content) => crate::log_timestamp::spec_parse_log_timestamp(
                content@,
            ).1 is Some
                ==> exists|date: Option<LogDate>, time: LogTime, found: Fetch<Option<usize>>|
                #[trigger] self.timestamp_jumped(after, content@, handled, date, time, found),
            _ => true,
        }
    }

    /// True when `after` and `handled` are what the jump to the date and
    /// time that `content` names, and that `date` and `time` hold, makes of
    /// this controller, `found` being what the document finds: the window
    /// moves to the offset found, or the status bar says that none was
    /// found.
    pub open spec fn timestamp_jumped(
        &self,
        after: &Manager,
        content: Seq<char>,
        handled: Fetch<()>,
        date: Option<LogDate>,
        time: LogTime,
        found: Fetch<Option<usize>>,
    ) -> bool {
        let named = crate::log_timestamp::spec_parse_log_timestamp(content);
        &&& named.1 == Some((time.secs as int, time.frac as int))
        &&& match date {
            Some(date) => named.0 == Some(date.days as int),
            None => named.0 is None,
        }
        &&& self.document.timestamp_sought(&after.document, date, time, found)
        &&& match found {
            Fetch::Missing(at) => handled == Fetch::<()>::Missing(at) && after.window
                == self.window,
            Fetch::Ready(Some(offset)) => handled is Ready && self.window.moved_to(
                &after.window,
                offset,
            ) && after.status_bar.oneoff_error_text == self.status_bar.oneoff_error_text,
            Fetch::Ready(None) => handled is Ready && after.window == self.window
                && after.status_bar.message() == Some("Cannot jump to timestamp"@),
        }
    }

    /// Takes what the timestamp prompt did: shows its text on the status
    /// bar, and on Enter reads the text as a timestamp and moves the window
    /// to the line that the document finds for it, or says that the text is
    /// no timestamp or that no line was found.
    pub fn on_jump_to_timestamp_event(&mut self, action: &PromptAction) -> (handled: Fetch<()>)
        requires
            old(self).wf(),
        ensures
            final(self).wf(),
            old(self).timestamp_event_done(final(self), action, handled),
            forall|file: Seq<u8>| old(self).shows(file) ==> final(self).shows(file),
    {
        let ghost before = *self;
        match action {
            PromptAction::Start(_) => {
                self.status_bar.set_text("Jump to timestamp");
            },
            PromptAction::Content(content) => {
                let text = String::from_str("Jump to timestamp: ").concat(content.as_str());
                self.status_bar.set_text(text.as_str());
            },
            PromptAction::Cancel => {
                self.status_bar.clear_text();
            },
            PromptAction::Enter(content) => {
                self.status_bar.clear_text();
                let (date, time) = parse_log_timestamp(content.as_str());
                if let Some(time) = time {
                    let found = self.document.query_offset_by_timestamp(date, time);
                    let ghost sought = found;
                    match found {
                        Fetch::Missing(at) => {
                            proof {
                                assert forall|file: Seq<u8>| before.shows(file) implies self.shows(
                                    file,
                                ) by {}
                                assert(before.timestamp_jumped(
                                    self,
                                    content@,
                                    Fetch::Missing(at),
                                    date,
                                    time,
                                    sought,
                                ));
                            }
                            return Fetch::Missing(at);
                        },
                        Fetch::Ready(Some(offset)) => {
                            let ghost document = self.document;
                            let ghost window = self.window;
                            self.window.set_offset(offset);
                            proof {
                                assert forall|file: Seq<u8>| before.shows(file) implies self.shows(
                                    file,
                                ) by {
                                    document.lemma_last_line_is_tail(file);
                                    crate::text::lemma_tail_start_bounds(file);
                                    if document.chunks@.len() > 0 && offset
                                        != document.last_line_start() {
                                        let (k, i) = choose|k: int, i: int|
                                            document.holds_line(k, i, offset as int);
                                        document.lemma_row_is_file_line(file, k, i);
                                        document.lemma_row_bounds(k, i);
                                    }
                                    window.lemma_move_keeps(
                                        &self.window,
                                        offset,
                                        |offset: usize| Self::on_line(file, offset),
                                    );
                                }
                            }
                        },
                        Fetch::Ready(None) => {
                            self.status_bar.set_oneoff_error_text("Cannot jump to timestamp");
                            proof {
                                assert forall|file: Seq<u8>| before.shows(file) implies self.shows(
                                    file,
                                ) by {}
                            }
                        },
                    }
                    proof {
                        assert(before.timestamp_jumped(
                            self,
                            content@,
                            Fetch::Ready(()),
                            date,
                            time,
                            sought,
                        ));
                    }
                    return Fetch::Ready(());
                } else {
                    self.status_bar.set_oneoff_error_text("Invalid timestamp");
                }
            },
        }
        Fetch::Ready(())
    }

    /// True when the jump by lines that `action` enters needs the document
    /// read at `at`: the distance of the jump is missing there.
    pub open spec fn jump_missing(&self, action: &PromptAction, at: usize) -> bool {
        match *action {
            PromptAction::Enter(content) => match spec_line_count(content@) {
                Some(step) => if self.context.jumping_direction == Some(Direction::Up) {
                    self.document.distance_above(self.window.offset as int, step as nat)
                        == Fetch::<int>::Missing(at)
                } else {
                    self.document.distance_below(self.window.offset as int, step as nat)
                        == Fetch::<int>::Missing(at)
                },
                None => false,
            },
            _ => false,
        }
    }

    /// True when `after` and `handled` are what the action `action` of the
    /// prompt of the jump by lines makes of this controller.
    pub open spec fn jump_event_done(
        &self,
        after: &Manager,
        action: &PromptAction,
        handled: Fetch<()>,
    ) -> bool {
        &&& after.document == self.document
        &&& handled matches Fetch::Missing(at) ==> !self.document.covered(at as int)
            && after.window == self.window
            && after.context.jumping_direction == self.context.jumping_direction
            && self.jump_missing(action, at)
        &&& handled is Ready ==> match *action {
            PromptAction::Start(direction) => after.context.jumping_direction == direction
                && after.window == self.window && after.status_bar.text@
                == "Jump to "@ + direction->0.above_or_below_text() + " N lines: "@,
            PromptAction::Content(content) => after.window == self.window
                && after.status_bar.text@ == "Jump to "@
                + self.context.jumping_direction->0.above_or_below_text() + " N lines: "@
                + content@,
            PromptAction::Cancel => after.context.jumping_direction is None
                && after.window == self.window && after.status_bar.text@.len() == 0,
            PromptAction::Enter(content) => after.context.jumping_direction is None
                && after.status_bar.text@.len() == 0 && match spec_line_count(content@) {
                Some(step) => match self.context.jumping_direction->0 {
                    Direction::Up => self.document.distance_above(
                        self.window.offset as int,
                        step as nat,
                    ) matches Fetch::Ready(distance) && self.window.moved_to(
                        &after.window,
                        (self.window.offset - distance) as usize,
                    ),
                    _ => self.document.distance_below(
                        self.window.offset as int,
                        step as nat,
                    ) matches Fetch::Ready(distance) && self.window.moved_to(
                        &after.window,
                        (self.window.offset + distance) as usize,
                    ),
                },
                                    None => after.window == self.window
                                        && after.status_bar.message()
                    == Some("Invalid line count"@),
            },
        }
    }

    /// Takes what the prompt of the jump by lines did: shows its text on
    /// the status bar, and on Enter reads the text as a number of lines and
    /// moves the window by them, or says that the text is no number.
    pub fn on_jump_by_lines_event(&mut self, action: &PromptAction) -> (handled: Fetch<()>)
        requires
            old(self).ready(),
            match *action {
                PromptAction::Start(direction) => direction == Some(Direction::Up) || direction
                    == Some(Direction::Down),
                PromptAction::Content(_) => old(self).context.jumping_direction is Some,
                PromptAction::Enter(_) => old(self).context.jumping_direction is Some,
                PromptAction::Cancel => true,
            },
            old(self).context.jumping_direction matches Some(direction) ==> direction
                == Direction::Up || direction == Direction::Down,
        ensures
            final(self).wf(),
            old(self).jump_event_done(final(self), action, handled),
            forall|file: Seq<u8>| old(self).shows(file) ==> final(self).shows(file),
    {
        match action {
            PromptAction::Start(direction) => {
                self.context.jumping_direction = *direction;
                let word = match direction {
                    Some(direction) => direction.above_or_below(),
                    None => "",
                };
                let text = String::from_str("Jump to ").concat(word).concat(" N lines: ");
                self.status_bar.set_text(text.as_str());
            },
            PromptAction::Content(content) => {
                let word = match self.context.jumping_direction {
                    Some(direction) => direction.above_or_below(),
                    None => "",
                };
                let text = String::from_str("Jump to ").concat(word).concat(" N lines: ").concat(
                    content.as_str(),
                );
                self.status_bar.set_text(text.as_str());
            },
            PromptAction::Cancel => {
                self.context.jumping_direction = None;
                self.status_bar.clear_text();
            },
            PromptAction::Enter(content) => {
                let direction = match self.context.jumping_direction {
                    Some(direction) => direction,
                    None => Direction::Down,
                };
                match parse_line_count(content.as_str()) {
                    Some(step) => {
                        match self.on_window_move_event(direction, step) {
                            Fetch::Missing(at) => {
                                return Fetch::Missing(at);
                            },
                            Fetch::Ready(_) => {},
                        }
                        self.status_bar.clear_text();
                    },
                    None => {
                        self.status_bar.clear_text();
                        self.status_bar.set_oneoff_error_text("Invalid line count");
                    },
                }
                self.context.jumping_direction = None;
            },
        }
        Fetch::Ready(())
    }

    /// True when `after` and `handled` are what the action `action` of the
    /// prompt of a new bookmark makes of this controller.
    pub open spec fn bookmark_event_done(
        &self,
        after: &Manager,
        action: &PromptAction,
        handled: Fetch<()>,
    ) -> bool {
        &&& after.document == self.document
        &&& after.window == self.window
        &&& handled matches Fetch::Missing(at) ==> !self.document.covered(at as int)
            && after.bookmark_store == self.bookmark_store && *action is Enter
            && self.document.lines_from(self.window.offset as int, 1) == Fetch::<
            Seq<Seq<u8>>,
        >::Missing(at)
        &&& handled is Ready ==> match *action {
            PromptAction::Start(_) => after.status_bar.text@ == "New bookmark: "@
                && after.bookmark_store == self.bookmark_store,
            PromptAction::Content(content) => after.status_bar.text@ == "New bookmark: "@
                + content@ && after.bookmark_store == self.bookmark_store,
            PromptAction::Cancel => after.status_bar.text@.len() == 0
                && after.bookmark_store == self.bookmark_store,
            PromptAction::Enter(content) => after.status_bar.text@.len() == 0
                && if vstd::utf8::encode_utf8(content@).len() > BOOKMARK_NAME_MAX_LEN {
                after.bookmark_store == self.bookmark_store && after.status_bar.message()
                    == Some("Bookmark name should have no more than 50 chars"@)
            } else {
                &&& self.document.lines_from(
                    self.window.offset as int,
                    1,
                ) matches Fetch::Ready(lines)
                &&& lines.len() > 0
                &&& BookmarkStore::put(
                    crate::bookmark::views(self.bookmark_store.bookmarks@),
                    crate::bookmark::views(after.bookmark_store.bookmarks@),
                    crate::bookmark::BookmarkView {
                        name: content@,
                        offset: self.window.offset,
                        line: lines[0],
                    },
                )
                &&& after.status_bar.message() == Some("Bookmark saved: "@ + content@)
            },
        }
    }

    /// Takes what the prompt of a new bookmark did: shows its text on the
    /// status bar, and on Enter keeps the offset of the window and its line
    /// under the text as a name, unless the name is too long.
    #[verifier::rlimit(30)]
    pub fn on_new_bookmark_event(&mut self, action: &PromptAction) -> (handled: Fetch<()>)
        requires
            old(self).ready(),
        ensures
            final(self).wf(),
            old(self).bookmark_event_done(final(self), action, handled),
            forall|file: Seq<u8>| old(self).shows(file) ==> final(self).shows(file),
    {
        let ghost before = *self;
        match action {
            PromptAction::Start(_) => {
                self.status_bar.set_text("New bookmark: ");
            },
            PromptAction::Content(content) => {
                let text = String::from_str("New bookmark: ").concat(content.as_str());
                self.status_bar.set_text(text.as_str());
            },
            PromptAction::Cancel => {
                self.status_bar.clear_text();
            },
            PromptAction::Enter(content) => {
                if content.as_str().as_bytes().len() > BOOKMARK_NAME_MAX_LEN {
                    self.status_bar.clear_text();
                    self.status_bar.set_oneoff_error_text(
                        "Bookmark name should have no more than 50 chars",
                    );
                } else {
                    let lines = match self.document.query_lines(self.window.offset(), 1) {
                        Fetch::Missing(at) => {
                            return Fetch::Missing(at);
                        },
                        Fetch::Ready(lines) => lines,
                    };
                    proof {
                        let found = self.document.lines_from(self.window.offset as int, 1);
                        assert(found == Fetch::Ready(lines_of(lines@)));
                        assert(lines_of(lines@).len() == lines@.len());
                        assert(self.document.lines_from(self.window.offset as int, 0)
                            == Fetch::Ready(Seq::<Seq<u8>>::empty()));
                        assert(lines_of(lines@).len() > 0);
                        assert(lines_of(lines@)[0] == lines@[0]@);
                    }
                    self.status_bar.clear_text();
                    self.bookmark_store.new_bookmark(
                        content.as_str(),
                        self.window.offset(),
                        lines[0].as_slice(),
                    );
                    let text = String::from_str("Bookmark saved: ").concat(content.as_str());
                    self.status_bar.set_oneoff_error_text(text.as_str());
                    proof {
                        assert forall|file: Seq<u8>| before.shows(file) implies self.shows(file) by {
                            before.lemma_shown_is_ready(file);
                            before.lemma_put_keeps_on_line(self, file);
                        }
                    }
                }
            },
        }
        Fetch::Ready(())
    }

    /// The bookmarks stay on lines of a file when one is put among them at
    /// the offset of the window.
    pub proof fn lemma_put_keeps_on_line(&self, after: &Manager, file: Seq<u8>)
        requires
            self.shows(file),
            Self::on_line(file, self.window.offset),
            after.document == self.document,
            after.window == self.window,
            after.bookmark_store.filtered_bookmarks == self.bookmark_store.filtered_bookmarks,
            exists|name: Seq<char>, line: Seq<u8>|
                BookmarkStore::put(
                    crate::bookmark::views(self.bookmark_store.bookmarks@),
                    crate::bookmark::views(after.bookmark_store.bookmarks@),
                    crate::bookmark::BookmarkView { name, offset: self.window.offset, line },
                ),
        ensures
            after.shows(file),
    {
        let (name, line) = choose|name: Seq<char>, line: Seq<u8>|
            BookmarkStore::put(
                crate::bookmark::views(self.bookmark_store.bookmarks@),
                crate::bookmark::views(after.bookmark_store.bookmarks@),
                crate::bookmark::BookmarkView { name, offset: self.window.offset, line },
            );
        let before_views = crate::bookmark::views(self.bookmark_store.bookmarks@);
        let after_views = crate::bookmark::views(after.bookmark_store.bookmarks@);
        let added = crate::bookmark::BookmarkView { name, offset: self.window.offset, line };
        let place = choose|place: int|
            {
                &&& 0 <= place <= before_views.len()
                &&& forall|k: int|
                    0 <= k < place ==> crate::bookmark::rank(
                        vstd::utf8::encode_utf8(#[trigger] before_views[k].name),
                        vstd::utf8::encode_utf8(added.name),
                    ) == crate::bookmark::Rank::Before
                &&& #[trigger] BookmarkStore::found_at(before_views, after_views, added, place)
            };
        assert(after_views.len() == after.bookmark_store.bookmarks@.len());
        assert(before_views.len() == self.bookmark_store.bookmarks@.len());
        assert forall|i: int| 0 <= i < after.bookmark_store.bookmarks@.len() implies Self::on_line(
            file,
            (#[trigger] after.bookmark_store.bookmarks@[i]).offset,
        ) by {
            assert(after_views[i].offset == after.bookmark_store.bookmarks@[i].offset);
            if place < before_views.len() && before_views[place].name == added.name {
                if i != place {
                    assert(after_views[i] == before_views[i]);
                    assert(before_views[i].offset == self.bookmark_store.bookmarks@[i].offset);
                }
            } else if i < place {
                assert(after_views[i] == before_views[i]);
                assert(before_views[i].offset == self.bookmark_store.bookmarks@[i].offset);
            } else if i > place {
                assert(after_views[i] == before_views[i - 1]);
                assert(before_views[i - 1].offset == self.bookmark_store.bookmarks@[i - 1].offset);
            }
        }
    }

    /// True when `after` is what the action `action` of the bookmark menu
    /// makes of this controller.
    pub open spec fn bookmark_menu_done(
        &self,
        after: &Manager,
        action: &BookmarkMenuAction,
    ) -> bool {
        &&& after.document == self.document
        &&& after.bookmark_store.bookmarks == self.bookmark_store.bookmarks
        &&& match *action {
            BookmarkMenuAction::Enter => if self.bookmark_store.filtered_bookmarks@.len()
                == 0 {
                *after == *self
            } else {
                let picked = self.bookmark_store.filtered_bookmarks@[
                    self.bookmark_store.menu_index->0 as int
                ];
                &&& self.window.moved_to(&after.window, picked.offset)
                &&& after.bookmark_store.menu_index is None
                &&& after.status_bar.message() == Some(
                    "Jumped to bookmark: "@ + picked.name@,
                )
            },
            _ => after.window == self.window && after.status_bar == self.status_bar,
        }
    }

    /// Takes what the bookmark menu did: on Enter the window moves to the
    /// bookmark that the menu points at, where bookmarks are shown, and the
    /// status bar says so; everything else is for the store of the
    /// bookmarks.
    pub fn on_bookmark_menu_event(&mut self, action: &BookmarkMenuAction)
        requires
            old(self).wf(),
            match *action {
                BookmarkMenuAction::Start => old(self).bookmark_store.menu_index is None,
                BookmarkMenuAction::Arrow(direction) => old(self).bookmark_store.menu_index is Some
                    && (direction == Direction::Up || direction == Direction::Down),
                BookmarkMenuAction::Content(_) => old(self).bookmark_store.menu_index is Some,
                BookmarkMenuAction::Enter => old(self).bookmark_store.menu_index is Some,
                BookmarkMenuAction::Cancel => true,
            },
        ensures
            final(self).wf(),
            old(self).bookmark_menu_done(final(self), action),
            forall|file: Seq<u8>| old(self).shows(file) ==> final(self).shows(file),
    {
        let ghost before = *self;
        match action {
            BookmarkMenuAction::Enter => {
                if let Some(bookmark) = self.bookmark_store.handle_enter_event() {
                    let offset = bookmark.offset;
                    let text = String::from_str("Jumped to bookmark: ").concat(
                        bookmark.name.as_str(),
                    );
                    self.window.set_offset(offset);
                    self.status_bar.set_oneoff_error_text(text.as_str());
                    proof {
                        assert forall|file: Seq<u8>| before.shows(file) implies self.shows(file) by {
                            let index = before.bookmark_store.menu_index->0 as int;
                            assert(Self::on_line(
                                file,
                                before.bookmark_store.filtered_bookmarks@[index].offset,
                            ));
                            before.window.lemma_move_keeps(
                                &self.window,
                                offset,
                                |offset: usize| Self::on_line(file, offset),
                            );
                        }
                    }
                }
            },
            BookmarkMenuAction::Start => {
                self.bookmark_store.handle_other_event(BookmarkMenuAction::Start);
                proof {
                    before.lemma_selection_on_line(self, Seq::empty());
                }
            },
            BookmarkMenuAction::Arrow(direction) => {
                self.bookmark_store.handle_other_event(BookmarkMenuAction::Arrow(*direction));
            },
            BookmarkMenuAction::Content(filter_content) => {
                self.bookmark_store.handle_other_event(
                    BookmarkMenuAction::Content(filter_content.clone()),
                );
                proof {
                    before.lemma_selection_on_line(self, filter_content@);
                }
            },
            BookmarkMenuAction::Cancel => {
                self.bookmark_store.handle_other_event(BookmarkMenuAction::Cancel);
            },
        }
    }

    /// The bookmarks that a filter leaves are among the bookmarks: where
    /// those stand on lines of a file, so do these.
    pub proof fn lemma_selection_on_line(&self, after: &Manager, filter: Seq<char>)
        requires
            after.document == self.document,
            after.window == self.window,
            after.bookmark_store.bookmarks == self.bookmark_store.bookmarks,
            crate::bookmark::views(after.bookmark_store.filtered_bookmarks@)
                == crate::bookmark::select(
                crate::bookmark::views(self.bookmark_store.bookmarks@),
                filter,
            ),
        ensures
            forall|file: Seq<u8>| self.shows(file) ==> after.shows(file),
    {
        let all = crate::bookmark::views(self.bookmark_store.bookmarks@);
        let selected = crate::bookmark::views(after.bookmark_store.filtered_bookmarks@);
        assert forall|file: Seq<u8>| self.shows(file) implies after.shows(file) by {
            assert forall|i: int|
                0 <= i < after.bookmark_store.filtered_bookmarks@.len() implies Self::on_line(
                file,
                (#[trigger] after.bookmark_store.filtered_bookmarks@[i]).offset,
            ) by {
                assert(selected[i].offset == after.bookmark_store.filtered_bookmarks@[i].offset);
                Self::lemma_selected_is_listed(all, filter, i);
                let k = choose|k: int| 0 <= k < all.len() && all[k] == selected[i];
                assert(all[k].offset == self.bookmark_store.bookmarks@[k].offset);
            }
        }
    }

    /// Each bookmark that a filter leaves is one of the bookmarks.
    pub proof fn lemma_selected_is_listed(
        all: Seq<crate::bookmark::BookmarkView>,
        filter: Seq<char>,
        i: int,
    )
        requires
            0 <= i < crate::bookmark::select(all, filter).len(),
        ensures
            exists|k: int| 0 <= k < all.len() && all[k] == crate::bookmark::select(all, filter)[i],
        decreases all.len(),
    {
        let rest = crate::bookmark::select(all.drop_last(), filter);
        if i < rest.len() {
            Self::lemma_selected_is_listed(all.drop_last(), filter, i);
            let k = choose|k: int| 0 <= k < all.drop_last().len() && all.drop_last()[k] == rest[i];
            assert(all[k] == all.drop_last()[k]);
        } else {
            assert(all[all.len() - 1] == all.last());
        }
    }

    /// True when `after` is what the action `action` for the finder makes of
    /// this controller.
    pub open spec fn finder_event_done(&self, after: &Manager, action: FinderAction) -> bool {
        &&& after.document == self.document
        &&& after.window == self.window
        &&& after.bookmark_store == self.bookmark_store
        &&& match action {
            FinderAction::AddActiveSlotStart => after.status_bar.text@
                == "Adding Finder active slot ..."@ && after.finder == self.finder,
            FinderAction::RemoveActiveSlotStart => after.status_bar.text@
                == "Removing Finder active slot ..."@ && after.finder == self.finder,
            _ => after.status_bar.text@.len() == 0 && self.finder.handled(&after.finder, action),
        }
        &&& after.event_source == self.event_source
        &&& after.context == self.context
        &&& after.canvas == self.canvas
        &&& after.mode == self.mode
        &&& after.status_bar.ratio == self.status_bar.ratio
        &&& after.status_bar.oneoff_error_text == self.status_bar.oneoff_error_text
    }

    /// Takes what the finder is asked to do: the two actions that announce
    /// a slot number are told on the status bar, every other action clears
    /// the text of the bar and goes to the finder.
    pub fn on_finder_event(&mut self, action: FinderAction)
        requires
            old(self).wf(),
            match action {
                FinderAction::SwitchActiveSlot(slot_index) => slot_index <= 9,
                FinderAction::AddActiveSlot(slot_index) => slot_index <= 9,
                _ => true,
            },
        ensures
            final(self).wf(),
            old(self).finder_event_done(final(self), action),
    {
        match action {
            FinderAction::AddActiveSlotStart => {
                self.status_bar.set_text("Adding Finder active slot ...");
            },
            FinderAction::RemoveActiveSlotStart => {
                self.status_bar.set_text("Removing Finder active slot ...");
            },
            _ => {
                self.status_bar.clear_text();
                self.finder.handle_event(action);
            },
        }
    }

    /// True when `after` is this controller set to follow the end of the
    /// file.
    pub open spec fn follow_entered(&self, after: &Manager) -> bool {
        &&& after.mode == Mode::Follow
        &&& after.status_bar.text@ == "Waiting for data... (interrupt to abort)"@
        &&& after.document == self.document
        &&& after.window == self.window
        &&& after.bookmark_store == self.bookmark_store
    }

    /// Starts to follow the end of the file.
    pub fn enter_follow_mode(&mut self)
        requires
            old(self).wf(),
            old(self).mode == Mode::Normal,
        ensures
            final(self).wf(),
            old(self).follow_entered(final(self)),
    {
        self.mode = Mode::Follow;
        self.status_bar.set_text("Waiting for data... (interrupt to abort)");
    }

    /// One step of following the end of the file: an interrupt ends it,
    /// else the window goes to the end of the document.
    pub fn on_follow_tick(&mut self, interrupted: bool, document_updated: bool) -> (ticked: Fetch<
        (),
    >)
        requires
            old(self).wf(),
            old(self).mode == Mode::Follow,
        ensures
            final(self).wf(),
            final(self).document == old(self).document,
            if interrupted {
                &&& ticked is Ready
                &&& final(self).mode == Mode::Normal
                &&& final(self).status_bar.text@.len() == 0
                &&& final(self).status_bar.oneoff_error_text == old(self).status_bar.oneoff_error_text
                &&& final(self).status_bar.ratio == old(self).status_bar.ratio
                &&& final(self).window == old(self).window
                &&& final(self).context == old(self).context
                &&& final(self).finder == old(self).finder
                &&& final(self).bookmark_store == old(self).bookmark_store
                &&& final(self).event_source == old(self).event_source
                &&& final(self).canvas == old(self).canvas
            } else {
                old(self).sought_end(final(self), document_updated, ticked)
            },
            forall|file: Seq<u8>| old(self).shows(file) ==> final(self).shows(file),
    {
        if interrupted {
            self.mode = Mode::Normal;
            self.status_bar.clear_text();
            Fetch::Ready(())
        } else {
            self.seek_to_end(document_updated)
        }
    }

    /// Tells whether the window stands where the document can be asked:
    /// at or before the start of the last line and, before it, at the start
    /// of a line.
    pub fn ensure_consistency(&self) -> (consistent: Fetch<bool>)
        requires
            self.wf(),
        ensures
            match consistent {
                Fetch::Ready(ready) => ready == self.ready(),
                Fetch::Missing(at) => at == self.window.offset && !self.document.covered(at as int)
                    && self.ready(),
            },
    {
        let offset = self.window.offset();
        let last_line_start = self.document.last_line_start_offset();
        if offset > last_line_start {
            return Fetch::Ready(false);
        }
        if offset < last_line_start {
            return self.document.assert_offset_is_at_line_start(offset);
        }
        Fetch::Ready(true)
    }

    /// True when `after` and `updated` are what the controller becomes
    /// when the file is found to hold `document_size` bytes, `tail` being
    /// the content of its tail window: the document takes note of it, and
    /// a window that would stand after the start of the new last line moves
    /// to that start.
    pub open spec fn size_updated(
        &self,
        after: &Manager,
        document_size: usize,
        tail: Seq<u8>,
        updated: Result<bool, LoadError>,
    ) -> bool {
        &&& self.document.refreshed(&after.document, document_size, tail, updated)
        &&& if self.window.offset <= after.document.last_line_start() {
            after.window == self.window
        } else {
            self.window.moved_to(&after.window, after.document.last_line_start() as usize)
        }
        &&& after.status_bar == self.status_bar
        &&& after.event_source == self.event_source
        &&& after.bookmark_store == self.bookmark_store
        &&& after.finder == self.finder
        &&& after.context == self.context
        &&& after.canvas == self.canvas
        &&& after.mode == self.mode
    }

    /// Takes note of the size that the file has now, given `tail`, the
    /// content of the tail window of a file of that size, and keeps the
    /// window at or before the start of the last line. Tells whether the
    /// size is new.
    pub fn update_docsize_and_lastline(&mut self, document_size: usize, tail: &[u8]) -> (updated:
        Result<bool, LoadError>)
        requires
            old(self).wf(),
        ensures
            final(self).wf(),
            old(self).size_updated(final(self), document_size, tail@, updated),
            old(self).ready() ==> final(self).ready(),
    {
        let ghost before = *self;
        let updated = self.document.update_docsize_and_lastline(document_size, tail);
        let start = self.document.last_line_start_offset();
        if self.window.offset > start {
            self.window.set_offset(start);
        }
        proof {
            if before.ready() && before.window.offset <= start {
                let offset = before.window.offset as int;
                if self.document.covered(offset) {
                    let k = choose|k: int|
                        0 <= k < self.document.chunks@.len() && #[trigger] self.document.covered_by(
                            k,
                            offset,
                        );
                    assert(before.document.covered_by(k, offset));
                    assert(before.document.covered(offset));
                    assert(before.document.line_known(offset));
                    let (m, i) = choose|m: int, i: int| before.document.holds_line(m, i, offset);
                    assert(self.document.holds_line(m, i, offset));
                }
            }
        }
        updated
    }

    /// The window of the file to read before the document can answer at
    /// `offset`.
    pub fn plan_load_around(&self, offset: usize) -> (plan: Option<(usize, usize)>)
        requires
            self.wf(),
            self.document.around(offset as int).0 < self.document.document_size,
        ensures
            plan == self.document.spec_plan(
                self.document.around(offset as int).0,
                self.document.around(offset as int).1,
            ),
            plan matches Some((read_begin, read_end)) ==> read_begin < read_end
                <= self.document.document_size,
    {
        self.document.plan_load_around(offset)
    }

    /// Hands the document the bytes of the window that `plan_load_around`
    /// gives for `offset`. A controller that shows a file still shows it
    /// afterwards where the bytes are those of the file.
    pub fn load_chunk_around(&mut self, offset: usize, bytes: &[u8]) -> (loaded: Result<
        Option<usize>,
        LoadError,
    >)
        requires
            old(self).wf(),
            old(self).document.around(offset as int).0 < old(self).document.document_size,
        ensures
            final(self).wf(),
            old(self).document.loads(
                &final(self).document,
                old(self).document.around(offset as int).0,
                old(self).document.around(offset as int).1,
                bytes@,
                loaded,
            ),
            final(self).window == old(self).window,
            final(self).status_bar == old(self).status_bar,
            final(self).event_source == old(self).event_source,
            final(self).bookmark_store == old(self).bookmark_store,
            final(self).finder == old(self).finder,
            final(self).context == old(self).context,
            final(self).canvas == old(self).canvas,
            final(self).mode == old(self).mode,
            forall|file: Seq<u8>|
                old(self).shows(file) && old(self).document.read_from(
                    file,
                    old(self).document.around(offset as int).0,
                    old(self).document.around(offset as int).1,
                    bytes@,
                ) ==> #[trigger] final(self).shows(file),
    {
        let ghost before = *self;
        let ghost plan = self.document.spec_plan(
            self.document.around(offset as int).0,
            self.document.around(offset as int).1,
        );
        let planned = self.document.plan_load_around(offset);
        let loaded = self.document.load_chunk_around(offset, bytes);
        proof {
            assert forall|file: Seq<u8>|
                before.shows(file) && before.document.read_from(
                    file,
                    before.document.around(offset as int).0,
                    before.document.around(offset as int).1,
                    bytes@,
                ) implies #[trigger] self.shows(file) by {
                before.document.lemma_load_keeps_agreement(
                    &self.document,
                    file,
                    before.document.around(offset as int).0,
                    before.document.around(offset as int).1,
                    bytes@,
                    loaded,
                );
            }
        }
        loaded
    }

    /// True when the controller can take `event`: the prompts and menus
    /// stand as the event needs them, and the numbers in it fit.
    pub open spec fn accepts(&self, event: &Event) -> bool {
        match *event {
            Event::WindowMove(direction, step) => direction == Direction::Right
                ==> self.window.horizontal_shift + step <= usize::MAX,
            Event::Search(action) => match action {
                PromptAction::Start(direction) => direction == Some(Direction::Up) || direction
                    == Some(Direction::Down),
                PromptAction::Enter(_) => self.context.searching_direction is Some,
                _ => true,
            },
            Event::JumpByLines(action) => match action {
                PromptAction::Start(direction) => direction == Some(Direction::Up) || direction
                    == Some(Direction::Down),
                PromptAction::Content(_) => self.context.jumping_direction is Some,
                PromptAction::Enter(_) => self.context.jumping_direction is Some,
                PromptAction::Cancel => true,
            },
            Event::TerminalResize(_, height) => height >= 1,
            Event::GotoBookmark(action) => match action {
                BookmarkMenuAction::Start => self.bookmark_store.menu_index is None,
                BookmarkMenuAction::Arrow(direction) => self.bookmark_store.menu_index is Some && (
                direction == Direction::Up || direction == Direction::Down),
                BookmarkMenuAction::Content(_) => self.bookmark_store.menu_index is Some,
                BookmarkMenuAction::Enter => self.bookmark_store.menu_index is Some,
                BookmarkMenuAction::Cancel => true,
            },
            Event::FinderOperation(action) => match action {
                FinderAction::SwitchActiveSlot(slot_index) => slot_index <= 9,
                FinderAction::AddActiveSlot(slot_index) => slot_index <= 9,
                _ => true,
            },
            Event::Follow => self.mode == Mode::Normal,
            _ => true,
        }
    }

    /// True when `after` is this controller but for its window.
    pub open spec fn only_window_changed(&self, after: &Manager) -> bool {
        &&& after.document == self.document
        &&& after.status_bar == self.status_bar
        &&& after.event_source == self.event_source
        &&& after.bookmark_store == self.bookmark_store
        &&& after.finder == self.finder
        &&& after.context == self.context
        &&& after.canvas == self.canvas
        &&& after.mode == self.mode
    }

    /// True when `after` and `exit` are what the event `event` makes of this
    /// controller: each event is handed to the part that it is for, and
    /// only Exit ends the viewer. Where the document has to be read first,
    /// `exit` is missing at the offset to read at.
    pub open spec fn dispatched(
        &self,
        after: &Manager,
        event: &Event,
        document_updated: bool,
        exit: Fetch<bool>,
    ) -> bool {
        let handled = handled_of(exit);
        match *event {
            Event::Exit => exit == Fetch::Ready(true) && *after == *self,
            Event::ToggleWrapLine => exit == Fetch::Ready(false) && *after == (Manager {
                context: Context { wrap_lines: !self.context.wrap_lines, ..self.context },
                ..*self
            }),
            Event::WindowMove(direction, step) => self.window_move_done(
                after,
                direction,
                step,
                handled,
            ),
            Event::Search(action) => self.search_event_done(after, &action, handled),
            Event::SearchNext => self.search_done(after, Direction::Down, true, handled),
            Event::SearchPrevious => self.search_done(after, Direction::Up, true, handled),
            Event::SeekToEnd => self.sought_end(after, document_updated, handled),
            Event::SeekToHome => exit == Fetch::Ready(false) && self.window_moved(after, 0),
            Event::JumpToTimestamp(action) => self.timestamp_event_done(after, &action, handled),
            Event::JumpByLines(action) => self.jump_event_done(after, &action, handled),
            Event::TerminalResize(width, height) => exit == Fetch::Ready(false)
                && self.window.resized(&after.window, width, height) && self.only_window_changed(
                after,
            ),
            Event::NewBookmark(action) => self.bookmark_event_done(after, &action, handled),
            Event::GotoBookmark(action) => exit == Fetch::Ready(false) && self.bookmark_menu_done(
                after,
                &action,
            ),
            Event::UndoWindowVerticalMove => exit == Fetch::Ready(false) && self.window.gone_back(
                &after.window,
            ) && self.only_window_changed(after),
            Event::RedoWindowVerticalMove => exit == Fetch::Ready(false)
                && self.window.gone_forward(&after.window) && self.only_window_changed(after),
            Event::FinderOperation(action) => exit == Fetch::Ready(false) && self.finder_event_done(
                after,
                action,
            ),
            Event::Follow => exit == Fetch::Ready(false) && self.follow_entered(after),
        }
    }

    /// Does what `event` asks for and tells whether the viewer is to end.
    /// The answer is missing where the document has to be read first; the
    /// event is then to be handed in again. `document_updated` says whether
    /// the file has grown since it was last looked at, which only the jump
    /// to the end of the document asks.
    #[verifier::rlimit(60)]
    pub fn dispatch_event(&mut self, event: &Event, document_updated: bool) -> (exit: Fetch<bool>)
        requires
            old(self).ready(),
            old(self).accepts(event),
        ensures
            final(self).wf(),
            old(self).dispatched(final(self), event, document_updated, exit),
            match exit {
                Fetch::Ready(ends) => ends == (*event is Exit),
                Fetch::Missing(at) => !final(self).document.covered(at as int),
            },
            final(self).document.chunks == old(self).document.chunks,
            final(self).document.last_line == old(self).document.last_line,
            final(self).document.document_size == old(self).document.document_size,
            forall|file: Seq<u8>| old(self).shows(file) ==> final(self).shows(file),
    {
        let ghost before = *self;
        match event {
            Event::Exit => Fetch::Ready(true),
            Event::ToggleWrapLine => {
                self.context.wrap_lines = !self.context.wrap_lines;
                Fetch::Ready(false)
            },
            Event::WindowMove(direction, step) => {
                let handled = self.on_window_move_event(*direction, *step);
                exit_of(handled)
            },
            Event::Search(action) => {
                let handled = self.on_search_event(action);
                exit_of(handled)
            },
            Event::SearchNext => {
                let handled = self.search_next(Direction::Down, true);
                exit_of(handled)
            },
            Event::SearchPrevious => {
                let handled = self.search_next(Direction::Up, true);
                exit_of(handled)
            },
            Event::SeekToEnd => {
                let handled = self.seek_to_end(document_updated);
                exit_of(handled)
            },
            Event::SeekToHome => {
                self.window.set_offset(0);
                proof {
                    assert forall|file: Seq<u8>| before.shows(file) implies self.shows(file) by {
                        lemma_tail_start_bounds(file);
                        before.window.lemma_move_keeps(
                            &self.window,
                            0,
                            |offset: usize| Self::on_line(file, offset),
                        );
                    }
                }
                Fetch::Ready(false)
            },
            Event::JumpToTimestamp(action) => {
                let handled = self.on_jump_to_timestamp_event(action);
                exit_of(handled)
            },
            Event::JumpByLines(action) => {
                let handled = self.on_jump_by_lines_event(action);
                exit_of(handled)
            },
            Event::TerminalResize(width, height) => {
                self.window.resize(*width, *height);
                Fetch::Ready(false)
            },
            Event::NewBookmark(action) => {
                let handled = self.on_new_bookmark_event(action);
                exit_of(handled)
            },
            Event::GotoBookmark(action) => {
                self.on_bookmark_menu_event(action);
                Fetch::Ready(false)
            },
            Event::UndoWindowVerticalMove => {
                self.window.goto_previous_offset();
                Fetch::Ready(false)
            },
            Event::RedoWindowVerticalMove => {
                self.window.goto_next_offset();
                Fetch::Ready(false)
            },
            Event::FinderOperation(action) => {
                self.on_finder_event(*action);
                Fetch::Ready(false)
            },
            Event::Follow => {
                self.enter_follow_mode();
                Fetch::Ready(false)
            },
        }
    }
}

} // verus!
