//! A list of text lines with a current line, where each line remembers
//! whether it changed since it was last drawn.

use crate::screen::{line_draw, KeyInput, LineDraw};
use crate::tui::widgets::{next_index, prev_index};
use vstd::prelude::*;

verus! {

/// A list of lines with the index of the current one.
pub struct ListView {
    pub line_items: Vec<LineItem>,
    pub current_index: usize,
}

/// A line of text that remembers whether it must be drawn again.
pub struct LineItem {
    pub text: String,
    pub modified: bool,
}

impl LineItem {
    /// A line that has yet to be drawn.
    pub fn new(text: &str) -> (item: Self)
        ensures
            item.text@ == text@,
            item.modified,
    {
        LineItem { text: text.to_string(), modified: true }
    }
}

impl ListView {
    pub fn new(line_items: Vec<LineItem>) -> (list: Self)
        ensures
            list.line_items@ == line_items@,
            list.current_index == 0,
    {
        ListView { line_items, current_index: 0 }
    }

    /// Replaces the lines; the current index stays as it was.
    pub fn set_line_items(&mut self, line_items: Vec<LineItem>)
        ensures
            final(self).line_items@ == line_items@,
            final(self).current_index == old(self).current_index,
    {
        self.line_items = line_items;
    }

    /// What to draw: each changed line, highlighted when it is the current
    /// one; afterwards no line counts as changed.
    pub fn display(&mut self) -> (draws: Vec<LineDraw>)
        ensures
            final(self).current_index == old(self).current_index,
            final(self).line_items@.len() == old(self).line_items@.len(),
            draws@.len() == old(self).line_items@.len(),
            forall|i: int|
                0 <= i < draws@.len() ==> {
                    let before = old(self).line_items@[i];
                    &&& (#[trigger] final(self).line_items@[i]).text == before.text
                    &&& !final(self).line_items@[i].modified
                    &&& draws@[i] == line_draw(before.modified, i == old(self).current_index, before.text)
                },
    {
        let n = self.line_items.len();
        let mut draws: Vec<LineDraw> = Vec::new();
        for i in 0..n
            invariant
                n == self.line_items@.len(),
                n == old(self).line_items@.len(),
                self.current_index == old(self).current_index,
                draws@.len() == i,
                forall|j: int|
                    0 <= j < n ==> {
                        let before = old(self).line_items@[j];
                        &&& (#[trigger] self.line_items@[j]).text == before.text
                        &&& (j < i ==> !self.line_items@[j].modified)
                        &&& (j >= i ==> self.line_items@[j].modified == before.modified)
                    },
                forall|j: int|
                    0 <= j < i ==> {
                        let before = old(self).line_items@[j];
                        #[trigger] draws@[j] == line_draw(
                            before.modified,
                            j == old(self).current_index,
                            before.text,
                        )
                    },
        {
            if self.line_items[i].modified {
                let text = self.line_items[i].text.clone();
                if i == self.current_index {
                    draws.push(LineDraw::Highlighted(text));
                } else {
                    draws.push(LineDraw::Plain(text));
                }
                self.line_items[i].modified = false;
            } else {
                draws.push(LineDraw::Unchanged);
            }
        }
        draws
    }

    /// Reacts to a key. `j` moves the current line one down unless it is
    /// the last one, `k` one up unless it is the first one, and both mark
    /// the lines left and reached as changed; Enter gives the text of the
    /// current line, to be handed to the selection callback.
    pub fn handle_event(&mut self, key: KeyInput) -> (selected: Option<String>)
        requires
            key == KeyInput::Char('k') || key == KeyInput::Enter ==> old(self).current_index
                < old(self).line_items@.len(),
        ensures
            final(self).line_items@.len() == old(self).line_items@.len(),
            final(self).current_index == (if key == KeyInput::Char('j') {
                next_index(old(self).current_index as int, old(self).line_items@.len() as int)
            } else if key == KeyInput::Char('k') {
                prev_index(old(self).current_index as int)
            } else {
                old(self).current_index as int
            }),
            forall|i: int|
                0 <= i < final(self).line_items@.len() ==> {
                    let before = old(self).line_items@[i];
                    let moved = (key == KeyInput::Char('j') || key == KeyInput::Char('k'))
                        && final(self).current_index != old(self).current_index;
                    let touched = (key == KeyInput::Char('k') || moved) && (i
                        == old(self).current_index || i == final(self).current_index);
                    &&& (#[trigger] final(self).line_items@[i]).text == before.text
                    &&& final(self).line_items@[i].modified == (before.modified || touched)
                },
            key == KeyInput::Enter ==> selected == Some(
                old(self).line_items@[old(self).current_index as int].text,
            ),
            key != KeyInput::Enter ==> selected is None,
    {
        match key {
            KeyInput::Char('j') => {
                if self.current_index < self.max_index() {
                    let i = self.current_index;
                    self.line_items[i].modified = true;
                    self.current_index = i + 1;
                    self.line_items[i + 1].modified = true;
                }
                None
            },
            KeyInput::Char('k') => {
                let i = self.current_index;
                self.line_items[i].modified = true;
                let j = if i > 0 {
                    i - 1
                } else {
                    0
                };
                self.current_index = j;
                self.line_items[j].modified = true;
                None
            },
            KeyInput::Enter => Some(self.line_items[self.current_index].text.clone()),
            _ => None,
        }
    }

    /// The index of the last line (0 when the list is empty).
    fn max_index(&self) -> (m: usize)
        ensures
            m == crate::tui::widgets::last_index(self.line_items@.len() as int),
    {
        if self.line_items.len() > 0 {
            self.line_items.len() - 1
        } else {
            0
        }
    }
}

} // verus!
