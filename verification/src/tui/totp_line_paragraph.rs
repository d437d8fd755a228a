//! The line that shows how many seconds of the current time step have
//! passed, as `USED/STEP`.

use super::widgets::LineParagraph;
use crate::clock::unix_time_now;
use crate::text::{decimal, pad_zeros_left, push_zero_padded, string_from_chars};
use crate::totp::duration_used;
use vstd::prelude::*;

verus! {

/// The text for `unix_secs` with steps of `duration_max` seconds: the
/// seconds used in the current step, at least two digits, a '/', and the
/// step length.
pub open spec fn progress_text(duration_max: u64, unix_secs: u64) -> Seq<char> {
    pad_zeros_left(decimal((unix_secs % duration_max) as nat), 2) + seq!['/'] + decimal(
        duration_max as nat,
    )
}

/// The progress line, which is drawn again only when its text changed.
pub struct TotpLineParagraph {
    pub line_paragraph: LineParagraph,
    pub redraw: bool,
}

impl TotpLineParagraph {
    /// An empty line, to be drawn the first time.
    pub fn new() -> (p: Self)
        ensures
            p.line_paragraph.text@ == Seq::<char>::empty(),
            p.redraw,
    {
        TotpLineParagraph { line_paragraph: LineParagraph::new(String::new()), redraw: true }
    }

    /// Sets the text for `time`; marks the line for drawing when the text
    /// changed, and leaves the mark as it was otherwise.
    pub fn update_line_text(&mut self, duration_max: u64, time: u64)
        requires
            duration_max > 0,
        ensures
            final(self).line_paragraph.text@ == progress_text(duration_max, time),
            final(self).redraw == needs_redraw(
                old(self).redraw,
                old(self).line_paragraph.text@,
                progress_text(duration_max, time),
            ),
    {
        let used = duration_used(duration_max, time);
        let mut out: Vec<char> = Vec::new();
        push_zero_padded(&mut out, used, 2);
        out.push('/');
        push_zero_padded(&mut out, duration_max, 0);
        proof {
            assert(pad_zeros_left(decimal(duration_max as nat), 0) == decimal(duration_max as nat));
            assert(out@ =~= progress_text(duration_max, time));
        }
        let new_paragraph_text = string_from_chars(out.as_slice());
        if new_paragraph_text != self.line_paragraph.text {
            self.line_paragraph.text = new_paragraph_text;
            self.redraw = true;
        }
    }

    /// The text to draw, when the line is marked for drawing; the mark is
    /// cleared.
    pub fn display(&mut self) -> (text: Option<String>)
        ensures
            final(self).line_paragraph.text == old(self).line_paragraph.text,
            !final(self).redraw,
            old(self).redraw ==> text == Some(old(self).line_paragraph.text),
            !old(self).redraw ==> text is None,
    {
        if self.redraw {
            self.redraw = false;
            Some(self.line_paragraph.text.clone())
        } else {
            None
        }
    }

    /// Reads the clock and sets the text for that time with steps of 30
    /// seconds (as `update_line_text(30, now)`); gives the time read, or
    /// `None` (and leaves the line as it is) when the clock reads before the
    /// UNIX epoch.
    pub fn refresh(&mut self) -> (read: Option<u64>)
        ensures
            match read {
                Some(now) => {
                    &&& final(self).line_paragraph.text@ == progress_text(30, now)
                    &&& final(self).redraw == needs_redraw(
                        old(self).redraw,
                        old(self).line_paragraph.text@,
                        progress_text(30, now),
                    )
                },
                None => *final(self) == *old(self),
            },
    {
        let read = unix_time_now();
        if let Some(now) = read {
            self.update_line_text(30, now);
        }
        read
    }
}

/// Whether the line must be drawn after its text `old_text` is set to
/// `new_text`: when it already had to be, or when the text changed.
pub open spec fn needs_redraw(old_redraw: bool, old_text: Seq<char>, new_text: Seq<char>) -> bool {
    old_redraw || old_text != new_text
}

/// A drawn line whose text is set to the text it shows is not drawn again.
pub proof fn lemma_same_text_is_not_drawn_again(text: Seq<char>)
    ensures
        !needs_redraw(false, text, text),
{
}

} // verus!
