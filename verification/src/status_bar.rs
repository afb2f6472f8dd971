//! The status bar: a text, the place in the document in hundredths, and a
//! message that is shown once.

use crate::canvas::{Canvas, BLANK};
use crate::render::LineWithRenderScheme;
use vstd::prelude::*;
use vstd::string::{StringExecFns, StringSliceAdditionalSpecFns};
use vstd::utf8::encode_utf8;

verus! {

/// What the status bar shows.
#[derive(Debug)]
pub struct StatusBar {
    pub text: String,
    pub oneoff_error_text: Option<String>,
    pub ratio: usize,
}

impl Default for StatusBar {
    fn default() -> (bar: Self)
        ensures
            bar.text@.len() == 0,
            bar.oneoff_error_text is None,
            bar.ratio == 0,
    {
        Self { text: String::new(), oneoff_error_text: None, ratio: 0 }
    }
}

/// The byte of the per cent sign.
pub const PER_CENT: u8 = 37;

/// The digits of `n`, written to the base ten.
pub open spec fn decimal(n: nat) -> Seq<u8>
    decreases n,
{
    if n < 10 {
        seq![(48 + n) as u8]
    } else {
        decimal(n / 10).push((48 + n % 10) as u8)
    }
}

/// The digits of `n`, written to the base ten.
pub fn decimal_digits(n: usize) -> (digits: Vec<u8>)
    ensures
        digits@ == decimal(n as nat),
    decreases n,
{
    if n < 10 {
        let mut digits: Vec<u8> = Vec::new();
        digits.push((48 + n) as u8);
        digits
    } else {
        let mut digits = decimal_digits(n / 10);
        digits.push((48 + n % 10) as u8);
        digits
    }
}

/// A number of at most three digits has at most three digits.
pub proof fn lemma_decimal_short(n: nat)
    requires
        n <= 999,
    ensures
        1 <= decimal(n).len() <= 3,
{
    reveal_with_fuel(decimal, 3);
}

impl StatusBar {
    /// The message that the bar shows once, where it has one.
    pub open spec fn message(&self) -> Option<Seq<char>> {
        match self.oneoff_error_text {
            Some(text) => Some(text@),
            None => None,
        }
    }

    pub fn set_text(&mut self, text: &str)
        ensures
            final(self).text@ == text@,
            final(self).oneoff_error_text == old(self).oneoff_error_text,
            final(self).ratio == old(self).ratio,
    {
        self.text = String::from_str(text);
    }

    pub fn clear_text(&mut self)
        ensures
            final(self).text@.len() == 0,
            final(self).oneoff_error_text == old(self).oneoff_error_text,
            final(self).ratio == old(self).ratio,
    {
        self.text = String::new();
    }

    /// Sets the message that is shown once in place of the text.
    pub fn set_oneoff_error_text(&mut self, text: &str)
        ensures
            final(self).oneoff_error_text matches Some(message) && message@ == text@,
            final(self).text == old(self).text,
            final(self).ratio == old(self).ratio,
    {
        self.oneoff_error_text = Some(String::from_str(text));
    }

    pub fn set_ratio(&mut self, ratio: usize)
        ensures
            final(self).ratio == ratio,
            final(self).text == old(self).text,
            final(self).oneoff_error_text == old(self).oneoff_error_text,
    {
        self.ratio = ratio;
    }

    /// The number of blanks between the text and the ratio on a bar of
    /// `window_width` columns, where the text leaves room for the ratio.
    pub open spec fn spaces(&self, window_width: int) -> Option<int> {
        let text = encode_utf8(self.text@);
        if text.len() + 6 < window_width {
            Some(window_width - text.len() - decimal(self.ratio as nat).len() - 1)
        } else {
            None
        }
    }

    /// The bytes of the bar of `window_width` columns without a message:
    /// the text, blanks and the ratio with a per cent sign at the right end
    /// of the bar; or the text alone, cut to the width of the bar, where it
    /// leaves no room for the ratio.
    pub open spec fn bar(&self, window_width: int) -> Seq<u8> {
        let text = encode_utf8(self.text@);
        match self.spaces(window_width) {
            Some(count) => text + Seq::new(count as nat, |i: int| BLANK) + decimal(
                self.ratio as nat,
            ).push(PER_CENT),
            None => if window_width < text.len() {
                text.take(window_width)
            } else {
                text
            },
        }
    }

    /// True when `after` and `canvas_after` are this bar and the canvas
    /// `canvas_before` after the bar is put on the canvas: the message
    /// where there is one, which is then forgotten, else the text with the
    /// ratio; `space_count` is the number of blanks between text and ratio
    /// where both are shown.
    pub open spec fn drawn(
        &self,
        after: &StatusBar,
        canvas_before: &Canvas,
        canvas_after: &Canvas,
        window_width: int,
        space_count: Option<usize>,
    ) -> bool {
        &&& canvas_after.body_area == canvas_before.body_area
        &&& canvas_after.popup_menu == canvas_before.popup_menu
        &&& canvas_after.status_bar@.schemes.len() == 0
        &&& after.text == self.text
        &&& after.ratio == self.ratio
        &&& after.oneoff_error_text is None
        &&& match self.oneoff_error_text {
                Some(message) => {
                    let text = encode_utf8(message@);
                    &&& space_count is None
                    &&& canvas_after.cursor_pos_x == Some(text.len() as usize)
                    &&& canvas_after.status_bar@.content == if window_width < text.len() {
                        text.take(window_width)
                    } else {
                        text
                    }
                },
                None => {
                    &&& canvas_after.cursor_pos_x == Some(encode_utf8(self.text@).len() as usize)
                    &&& canvas_after.status_bar@.content == self.bar(window_width)
                    &&& match space_count {
                        Some(count) => self.spaces(window_width) == Some(count as int),
                        None => self.spaces(window_width) is None,
                    }
                },
            }
    }

    /// Puts the bar on the canvas: the message where there is one, which is
    /// then forgotten, else the text with the ratio. Returns the number of
    /// blanks between text and ratio where both are shown.
    pub fn render(&mut self, canvas: &mut Canvas, window_width: usize) -> (space_count: Option<
        usize,
    >)
        requires
            old(self).ratio <= 999,
            old(canvas).wf(),
        ensures
            final(canvas).wf(),
            old(self).drawn(final(self), old(canvas), final(canvas), window_width as int, space_count),
    {
        if let Some(text) = self.oneoff_error_text.take() {
            let bytes = text.as_str().as_bytes();
            let length = bytes.len();
            let line = LineWithRenderScheme::new(bytes).truncate(window_width);
            assert(line@.content =~= if window_width < bytes@.len() {
                bytes@.take(window_width as int)
            } else {
                bytes@
            });
            assert(line@.schemes =~= Seq::empty());
            canvas.status_bar = line;
            canvas.cursor_pos_x = Some(length);
            return None;
        }
        let bytes = self.text.as_str().as_bytes();
        let length = bytes.len();
        canvas.cursor_pos_x = Some(length);
        let space_count;
        let mut text: Vec<u8> = Vec::new();
        text.extend_from_slice(bytes);
        if length < window_width && window_width - length > 6 {
            let mut ratio_str = decimal_digits(self.ratio);
            ratio_str.push(PER_CENT);
            proof {
                lemma_decimal_short(self.ratio as nat);
            }
            let count = window_width - length - ratio_str.len();
            let mut i: usize = 0;
            while i < count
                invariant
                    i <= count,
                    text@ == bytes@ + Seq::new(i as nat, |k: int| BLANK),
                decreases count - i,
            {
                text.push(BLANK);
                assert(text@ =~= bytes@ + Seq::new((i + 1) as nat, |k: int| BLANK));
                i += 1;
            }
            text.extend_from_slice(ratio_str.as_slice());
            space_count = Some(count);
        } else {
            space_count = None;
            text.truncate(window_width);
            assert(text@ =~= if window_width < bytes@.len() {
                bytes@.take(window_width as int)
            } else {
                bytes@
            });
        }
        assert(text@ =~= old(self).bar(window_width as int));
        canvas.status_bar = LineWithRenderScheme::new(text.as_slice());
        space_count
    }
}

} // verus!
