//! The helper menu: the list of the keys.

use crate::canvas::{menu_title, spec_menu_title, Canvas};
use crate::render::LineWithRenderScheme;
use vstd::prelude::*;
use vstd::string::StringSliceAdditionalSpecFns;
use vstd::utf8::encode_utf8;

verus! {

/// Whether the helper menu is shown.
#[derive(Debug)]
pub struct HelperMenu {
    pub active: bool,
}

impl Default for HelperMenu {
    fn default() -> (menu: Self)
        ensures
            !menu.active,
    {
        Self { active: false }
    }
}

/// The number of lines of the helper menu.
pub const HELPER_MENU_HEIGHT: usize = 17;

/// The least width of a window that shows the helper menu.
pub const HELPER_MENU_MIN_WIDTH: usize = 75;

/// The name in the title of the helper menu.
pub const HELPER_MENU_STR: &'static str = " Helper Menu ";

/// Line `index` of the helper menu below its title.
pub fn helper_line(index: usize) -> (line: &'static str)
    ensures
        line@ == spec_helper_line(index as int),
{
    match index {
        0 => "+------- basic commands -------+     +------- finder commands -------+",
        1 => "| q: exit                      |     | +:   add active slot          |",
        2 => "| w: toggle wrap line          |     | -:   remove active slot       |",
        3 => "| /: search down               |     | 0-9: switch active slot       |",
        4 => "| ?: search up                 |     | o:   toggle highlight flag    |",
        5 => "| n: search next               |     | r:   toggle raw/regex pattern |",
        6 => "| N: search previous           |     | x:   clear slot content       |",
        7 => "| t: jump to timestamp         |     | m:   open finder menu         |",
        8 => "| j: jump down n lines         |     +-------------------------------+",
        9 => "| J: jump up n lines           |",
        10 => "| b: set bookmark              |",
        11 => "| g: open bookmark menu        |",
        12 => "| ,: undo window vertical move |",
        13 => "| .: redo window vertical move |",
        14 => "| F: enter follow mode         |",
        _ => "+------------------------------+",
    }
}

/// Line `index` of the helper menu below its title.
pub open spec fn spec_helper_line(index: int) -> Seq<char> {
    if index == 0 {
        "+------- basic commands -------+     +------- finder commands -------+"@
    } else if index == 1 {
        "| q: exit                      |     | +:   add active slot          |"@
    } else if index == 2 {
        "| w: toggle wrap line          |     | -:   remove active slot       |"@
    } else if index == 3 {
        "| /: search down               |     | 0-9: switch active slot       |"@
    } else if index == 4 {
        "| ?: search up                 |     | o:   toggle highlight flag    |"@
    } else if index == 5 {
        "| n: search next               |     | r:   toggle raw/regex pattern |"@
    } else if index == 6 {
        "| N: search previous           |     | x:   clear slot content       |"@
    } else if index == 7 {
        "| t: jump to timestamp         |     | m:   open finder menu         |"@
    } else if index == 8 {
        "| j: jump down n lines         |     +-------------------------------+"@
    } else if index == 9 {
        "| J: jump up n lines           |"@
    } else if index == 10 {
        "| b: set bookmark              |"@
    } else if index == 11 {
        "| g: open bookmark menu        |"@
    } else if index == 12 {
        "| ,: undo window vertical move |"@
    } else if index == 13 {
        "| .: redo window vertical move |"@
    } else if index == 14 {
        "| F: enter follow mode         |"@
    } else {
        "+------------------------------+"@
    }
}

impl HelperMenu {
    pub fn is_active(&self) -> (active: bool)
        ensures
            active == self.active,
    {
        self.active
    }

    pub fn toggle_active(&mut self)
        ensures
            final(self).active == !old(self).active,
    {
        self.active = !self.active;
    }

    /// True when a window of the given size shows the menu itself, not only
    /// its title.
    pub open spec fn fits(window_width: int, window_height: int) -> bool {
        window_height >= HELPER_MENU_HEIGHT + 5 && window_width >= HELPER_MENU_MIN_WIDTH
    }

    /// Puts the helper menu on the canvas: its title and the sixteen lines
    /// of keys as the popup menu, with an empty status bar; or, in a window
    /// too small for it, its title alone on the status bar.
    pub fn render(&mut self, canvas: &mut Canvas, window_width: usize, window_height: usize)
        requires
            old(canvas).wf(),
        ensures
            final(canvas).wf(),
            final(self).active == old(self).active,
            final(canvas).body_area == old(canvas).body_area,
            if Self::fits(window_width as int, window_height as int) {
                &&& final(canvas).popup_menu@.len() == HELPER_MENU_HEIGHT
                &&& final(canvas).popup_menu@[0]@.content == spec_menu_title(
                    encode_utf8(HELPER_MENU_STR@),
                    window_width as int,
                )
                &&& forall|i: int|
                    1 <= i < HELPER_MENU_HEIGHT
                        ==> (#[trigger] final(canvas).popup_menu@[i])@.content
                        == encode_utf8(spec_helper_line(i - 1))
                &&& forall|i: int|
                    0 <= i < HELPER_MENU_HEIGHT
                        ==> (#[trigger] final(canvas).popup_menu@[i])@.schemes.len() == 0
                &&& final(canvas).status_bar@.content.len() == 0
                &&& final(canvas).status_bar@.schemes.len() == 0
                &&& final(canvas).cursor_pos_x == Some(0usize)
            } else {
                &&& final(canvas).popup_menu == old(canvas).popup_menu
                &&& final(canvas).status_bar@.content == spec_menu_title(
                    encode_utf8(HELPER_MENU_STR@),
                    window_width as int,
                )
                &&& final(canvas).status_bar@.schemes.len() == 0
                &&& final(canvas).cursor_pos_x is None
            },
    {
        proof {
            reveal_strlit(" Helper Menu ");
            vstd::utf8::is_ascii_chars_encode_utf8(HELPER_MENU_STR@);
        }
        let title = menu_title(HELPER_MENU_STR, window_width);
        if window_height < HELPER_MENU_HEIGHT + 5 || window_width < HELPER_MENU_MIN_WIDTH {
            canvas.status_bar = LineWithRenderScheme::new(title.as_slice());
            canvas.cursor_pos_x = None;
            return ;
        }
        populate_helper_menu(canvas, title.as_slice());
        canvas.status_bar = LineWithRenderScheme::empty();
        canvas.cursor_pos_x = Some(0);
    }
}

/// Puts `title` and the lines of keys on the canvas as its popup menu.
pub fn populate_helper_menu(canvas: &mut Canvas, title: &[u8])
    requires
        old(canvas).wf(),
    ensures
        final(canvas).wf(),
        final(canvas).body_area == old(canvas).body_area,
        final(canvas).status_bar == old(canvas).status_bar,
        final(canvas).cursor_pos_x == old(canvas).cursor_pos_x,
        final(canvas).popup_menu@.len() == HELPER_MENU_HEIGHT,
        final(canvas).popup_menu@[0]@.content == title@,
        forall|i: int|
            1 <= i < HELPER_MENU_HEIGHT ==> (#[trigger] final(canvas).popup_menu@[i])@.content
                == encode_utf8(spec_helper_line(i - 1)),
        forall|i: int|
            0 <= i < HELPER_MENU_HEIGHT ==> (#[trigger] final(canvas).popup_menu@[i])@.schemes.len()
                == 0,
{
    canvas.popup_menu.clear();
    canvas.popup_menu.push(LineWithRenderScheme::new(title));
    let mut index: usize = 0;
    while index < HELPER_MENU_HEIGHT - 1
        invariant
            index <= HELPER_MENU_HEIGHT - 1,
            canvas.wf(),
            canvas.body_area == old(canvas).body_area,
            canvas.status_bar == old(canvas).status_bar,
            canvas.cursor_pos_x == old(canvas).cursor_pos_x,
            canvas.popup_menu@.len() == index + 1,
            canvas.popup_menu@[0]@.content == title@,
            forall|i: int|
                1 <= i < index + 1 ==> (#[trigger] canvas.popup_menu@[i])@.content == encode_utf8(
                    spec_helper_line(i - 1),
                ),
            forall|i: int|
                0 <= i < index + 1 ==> (#[trigger] canvas.popup_menu@[i])@.schemes.len() == 0,
        decreases HELPER_MENU_HEIGHT - 1 - index,
    {
        canvas.popup_menu.push(LineWithRenderScheme::new(helper_line(index).as_bytes()));
        index += 1;
    }
}

} // verus!
