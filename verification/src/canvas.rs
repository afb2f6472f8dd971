//! The canvas: the lines of one frame, before they are written to the
//! terminal.

use crate::render::{composed, is_rendering, renderable, LineWithRenderScheme};
use vstd::prelude::*;
use vstd::string::StringSliceAdditionalSpecFns;
use vstd::utf8::encode_utf8;

verus! {

/// The lines of one frame.
#[derive(Debug)]
pub struct Canvas {
    pub body_area: Vec<LineWithRenderScheme>,
    pub popup_menu: Vec<LineWithRenderScheme>,
    pub status_bar: LineWithRenderScheme,
    pub cursor_pos_x: Option<usize>,
}

impl Default for Canvas {
    fn default() -> (canvas: Self)
        ensures
            canvas.body_area@.len() == 0,
            canvas.popup_menu@.len() == 0,
            canvas.status_bar@.content.len() == 0,
            canvas.status_bar@.schemes.len() == 0,
            canvas.cursor_pos_x is None,
            canvas.wf(),
    {
        Self {
            body_area: Vec::new(),
            popup_menu: Vec::new(),
            status_bar: LineWithRenderScheme::empty(),
            cursor_pos_x: None,
        }
    }
}

/// The byte of the sign that fills the title of a menu.
pub const TITLE_FILL: u8 = 61;

/// The byte of a blank.
pub const BLANK: u8 = 32;

/// The title of a menu for a window of `window_width` columns: a row of
/// equals signs, at least twenty, with `name` in its middle, cut to the
/// width of the window.
pub open spec fn spec_menu_title(name: Seq<u8>, window_width: int) -> Seq<u8> {
    let width = if window_width > 20 {
        window_width
    } else {
        20
    };
    let begin = (width - name.len()) / 2;
    Seq::new(
        width as nat,
        |i: int|
            if begin <= i < begin + name.len() {
                name[i - begin]
            } else {
                TITLE_FILL
            },
    ).take(if window_width < width {
        window_width
    } else {
        width
    })
}

/// The title of a menu for a window of `window_width` columns.
pub fn menu_title(name: &str, window_width: usize) -> (title: Vec<u8>)
    requires
        encode_utf8(name@).len() <= 20,
    ensures
        title@ == spec_menu_title(encode_utf8(name@), window_width as int),
{
    let name = name.as_bytes();
    let width = if window_width > 20 {
        window_width
    } else {
        20
    };
    let begin = (width - name.len()) / 2;
    let mut title: Vec<u8> = Vec::new();
    let mut i: usize = 0;
    while i < window_width && i < width
        invariant
            i <= window_width,
            i <= width,
            width == if window_width > 20 {
                window_width
            } else {
                20
            },
            name@.len() <= 20,
            begin == (width - name@.len()) / 2,
            title@.len() == i,
            forall|k: int|
                0 <= k < i ==> title@[k] == if begin <= k < begin + name@.len() {
                    name@[k - begin]
                } else {
                    TITLE_FILL
                },
        decreases window_width - i,
    {
        if begin <= i && i - begin < name.len() {
            title.push(name[i - begin]);
        } else {
            title.push(TITLE_FILL);
        }
        i += 1;
    }
    assert(title@ =~= spec_menu_title(name@, window_width as int));
    title
}

/// Puts the bytes of `text` at the end of `buffer`.
pub fn push_text(buffer: &mut Vec<u8>, text: &str)
    ensures
        final(buffer)@ == old(buffer)@ + encode_utf8(text@),
{
    buffer.extend_from_slice(text.as_bytes());
}

/// Puts `count` blanks at the end of `buffer`.
pub fn push_blanks(buffer: &mut Vec<u8>, count: usize)
    ensures
        final(buffer)@ == old(buffer)@ + Seq::new(count as nat, |i: int| BLANK),
{
    let mut i: usize = 0;
    assert(buffer@ =~= old(buffer)@ + Seq::new(0, |i: int| BLANK));
    while i < count
        invariant
            i <= count,
            buffer@ == old(buffer)@ + Seq::new(i as nat, |k: int| BLANK),
        decreases count - i,
    {
        buffer.push(BLANK);
        assert(buffer@ =~= old(buffer)@ + Seq::new((i + 1) as nat, |k: int| BLANK));
        i += 1;
    }
}

/// Carriage return and line feed: the end of a line on the screen.
pub open spec fn line_end() -> Seq<u8> {
    seq![13u8, 10u8]
}

impl Canvas {
    /// The invariant of a canvas: the ranges of each of its lines do not
    /// overlap and lie within the line.
    pub open spec fn wf(&self) -> bool {
        &&& forall|i: int|
            0 <= i < self.body_area@.len() ==> (#[trigger] self.body_area@[i]).wf() && renderable(
                self.body_area@[i]@,
            )
        &&& forall|i: int|
            0 <= i < self.popup_menu@.len() ==> (#[trigger] self.popup_menu@[i]).wf() && renderable(
                self.popup_menu@[i]@,
            )
        &&& self.status_bar.wf()
        &&& renderable(self.status_bar@)
    }

    /// Takes everything off the canvas but the place of the cursor.
    pub fn clear(&mut self)
        ensures
            final(self).body_area@.len() == 0,
            final(self).popup_menu@.len() == 0,
            final(self).status_bar@.content.len() == 0,
            final(self).status_bar@.schemes.len() == 0,
            final(self).cursor_pos_x == old(self).cursor_pos_x,
            final(self).wf(),
    {
        self.body_area.clear();
        self.popup_menu.clear();
        self.status_bar.clear();
    }

    /// The lines of the frame as they are written to the terminal: the
    /// lines of the body, as far as the menu leaves them room, then the
    /// lines of the menu, each rendered and followed by carriage return and
    /// line feed, then the status bar, rendered.
    pub fn screen_buffer(&self) -> (screen: Vec<Vec<u8>>)
        requires
            self.wf(),
            self.popup_menu@.len() <= self.body_area@.len(),
        ensures
            screen@.len() == self.body_area@.len() + 1,
            forall|i: int|
                0 <= i < self.body_area@.len() - self.popup_menu@.len() ==> is_rendering(
                    self.body_area@[i]@,
                    line_end(),
                    (#[trigger] screen@[i])@,
                ),
            forall|i: int|
                self.body_area@.len() - self.popup_menu@.len() <= i < self.body_area@.len()
                    ==> is_rendering(
                    self.popup_menu@[i - (self.body_area@.len() - self.popup_menu@.len())]@,
                    line_end(),
                    (#[trigger] screen@[i])@,
                ),
            is_rendering(self.status_bar@, Seq::empty(), screen@[self.body_area@.len() as int]@),
    {
        let mut screen: Vec<Vec<u8>> = Vec::new();
        let body_area_height = self.body_area.len() - self.popup_menu.len();
        let mut i: usize = 0;
        while i < body_area_height
            invariant
                self.wf(),
                i <= body_area_height <= self.body_area@.len(),
                screen@.len() == i,
                forall|k: int|
                    0 <= k < i ==> is_rendering(
                        self.body_area@[k]@,
                        line_end(),
                        (#[trigger] screen@[k])@,
                    ),
            decreases body_area_height - i,
        {
            let line = Self::screen_line(&self.body_area[i]);
            screen.push(line);
            i += 1;
        }
        let mut j: usize = 0;
        while j < self.popup_menu.len()
            invariant
                self.wf(),
                j <= self.popup_menu@.len(),
                body_area_height + self.popup_menu@.len() == self.body_area@.len(),
                screen@.len() == body_area_height + j,
                forall|k: int|
                    0 <= k < body_area_height ==> is_rendering(
                        self.body_area@[k]@,
                        line_end(),
                        (#[trigger] screen@[k])@,
                    ),
                forall|k: int|
                    body_area_height <= k < body_area_height + j ==> is_rendering(
                        self.popup_menu@[k - body_area_height]@,
                        line_end(),
                        (#[trigger] screen@[k])@,
                    ),
            decreases self.popup_menu@.len() - j,
        {
            let line = Self::screen_line(&self.popup_menu[j]);
            screen.push(line);
            j += 1;
        }
        screen.push(self.status_bar.render());
        screen
    }

    /// A line rendered, with carriage return and line feed after it.
    pub fn screen_line(line: &LineWithRenderScheme) -> (bytes: Vec<u8>)
        requires
            line.wf(),
            renderable(line@),
        ensures
            is_rendering(line@, line_end(), bytes@),
    {
        let mut bytes = line.render();
        let ghost pieces = choose|pieces: Seq<Seq<u8>>|
            pieces.len() == line@.schemes.len() && bytes@ == #[trigger] composed(line@, pieces, 0, 0)
                + Seq::<u8>::empty();
        bytes.push(13);
        bytes.push(10);
        assert(bytes@ =~= composed(line@, pieces, 0, 0) + line_end());
        bytes
    }
}

} // verus!
