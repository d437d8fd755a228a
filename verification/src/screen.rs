//! What the terminal hands the views (key presses) and what the views hand
//! back to be drawn.

use vstd::prelude::*;

verus! {

/// A key press, as the views tell them apart: a character key or Enter
/// pressed without modifiers, or anything else.
#[derive(Clone, Copy, PartialEq, Eq, Debug)]
pub enum KeyInput {
    Char(char),
    Enter,
    Other,
}

/// Whether a key ends the program: `q`.
pub fn quits(key: KeyInput) -> (q: bool)
    ensures
        q == (key == KeyInput::Char('q')),
{
    match key {
        KeyInput::Char(c) => c == 'q',
        _ => false,
    }
}

/// How one line of a list is to be drawn.
#[derive(Clone, PartialEq, Eq, Debug)]
pub enum LineDraw {
    /// The line did not change: leave it as it is.
    Unchanged,
    /// Draw the text plainly.
    Plain(String),
    /// Draw the text highlighted, as the current line.
    Highlighted(String),
}

/// How a line is drawn: not at all when it did not change, highlighted
/// when it is the current line, plainly otherwise.
pub open spec fn line_draw(changed: bool, current: bool, text: String) -> LineDraw {
    if !changed {
        LineDraw::Unchanged
    } else if current {
        LineDraw::Highlighted(text)
    } else {
        LineDraw::Plain(text)
    }
}

/// Once every line is drawn and no longer counts as changed, drawing again
/// draws nothing.
pub proof fn lemma_drawn_lines_are_not_drawn_again(changed: Seq<bool>, texts: Seq<String>, current: int)
    requires
        changed.len() == texts.len(),
        forall|i: int| 0 <= i < changed.len() ==> !#[trigger] changed[i],
    ensures
        forall|i: int|
            0 <= i < changed.len() ==> line_draw(#[trigger] changed[i], i == current, texts[i])
                == LineDraw::Unchanged,
{
}

} // verus!
