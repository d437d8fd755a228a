//! A list of lines, each carrying a value, with one current line.

use vstd::prelude::*;

verus! {

/// The index that follows `current` in a list of `len` lines: one further
/// down, unless `current` is already at the last line (or beyond it).
pub open spec fn next_index(current: int, len: int) -> int {
    if current < last_index(len) {
        current + 1
    } else {
        current
    }
}

/// The index before `current`: one further up, stopping at the first line.
pub open spec fn prev_index(current: int) -> int {
    if current > 0 {
        current - 1
    } else {
        0
    }
}

/// The index of the last line of a list of `len` lines (0 when empty).
pub open spec fn last_index(len: int) -> int {
    if len > 0 {
        len - 1
    } else {
        0
    }
}

/// A list of lines, with the index of the current one.
pub struct ListView<T> {
    pub line_items: Vec<LineItem<T>>,
    pub current_index: usize,
}

/// A line of text that carries a value, a selection mark, and whether it
/// changed since it was last drawn.
pub struct LineItem<T> {
    pub text: String,
    pub value: T,
    pub marked: bool,
    pub modified: bool,
}

impl<T> ListView<T> {
    pub fn new(line_items: Vec<LineItem<T>>) -> (list: Self)
        ensures
            list.line_items@ == line_items@,
            list.current_index == 0,
    {
        ListView { line_items, current_index: 0 }
    }

    /// Replaces the lines; the current index stays as it was.
    pub fn set_line_items(&mut self, line_items: Vec<LineItem<T>>)
        ensures
            final(self).line_items@ == line_items@,
            final(self).current_index == old(self).current_index,
        no_unwind
    {
        self.line_items = line_items;
    }

    /// Moves the current line one down, unless it is the last one.
    pub fn select_next(&mut self)
        ensures
            final(self).line_items@ == old(self).line_items@,
            final(self).current_index == next_index(
                old(self).current_index as int,
                old(self).line_items@.len() as int,
            ),
        no_unwind
    {
        if self.current_index < self.max_index() {
            self.current_index = self.current_index + 1;
        }
    }

    /// Moves the current line one up, unless it is the first one.
    pub fn select_prev(&mut self)
        ensures
            final(self).line_items@ == old(self).line_items@,
            final(self).current_index == prev_index(old(self).current_index as int),
        no_unwind
    {
        if self.current_index > 0 {
            self.current_index = self.current_index - 1;
        }
    }

    /// Marks the current line and unmarks every other one.
    pub fn mark_selected_line_item(&mut self)
        requires
            old(self).current_index < old(self).line_items@.len(),
        ensures
            final(self).current_index == old(self).current_index,
            final(self).line_items@.len() == old(self).line_items@.len(),
            forall|i: int|
                0 <= i < final(self).line_items@.len() ==> {
                    &&& (#[trigger] final(self).line_items@[i]).text == old(self).line_items@[i].text
                    &&& final(self).line_items@[i].value == old(self).line_items@[i].value
                    &&& final(self).line_items@[i].modified == old(self).line_items@[i].modified
                    &&& final(self).line_items@[i].marked == (i == old(self).current_index)
                },
    {
        self.unmark_all_line_items();
        let i = self.current_index;
        self.line_items[i].mark();
    }

    /// The current line.
    pub fn get_selected_line_item(&self) -> (item: &LineItem<T>)
        requires
            self.current_index < self.line_items@.len(),
        ensures
            *item == self.line_items@[self.current_index as int],
    {
        &self.line_items[self.current_index]
    }

    /// Unmarks every line.
    pub fn unmark_all_line_items(&mut self)
        ensures
            final(self).current_index == old(self).current_index,
            final(self).line_items@.len() == old(self).line_items@.len(),
            forall|i: int|
                0 <= i < final(self).line_items@.len() ==> {
                    &&& (#[trigger] final(self).line_items@[i]).text == old(self).line_items@[i].text
                    &&& final(self).line_items@[i].value == old(self).line_items@[i].value
                    &&& final(self).line_items@[i].modified == old(self).line_items@[i].modified
                    &&& !final(self).line_items@[i].marked
                },
    {
        let n = self.line_items.len();
        for i in 0..n
            invariant
                n == self.line_items@.len(),
                self.current_index == old(self).current_index,
                self.line_items@.len() == old(self).line_items@.len(),
                forall|j: int|
                    0 <= j < n ==> {
                        &&& (#[trigger] self.line_items@[j]).text == old(self).line_items@[j].text
                        &&& self.line_items@[j].value == old(self).line_items@[j].value
                        &&& self.line_items@[j].modified == old(self).line_items@[j].modified
                        &&& (j < i ==> !self.line_items@[j].marked)
                    },
        {
            if self.line_items[i].is_marked() {
                self.line_items[i].unmark();
            }
        }
    }

    /// Sets whether the line at `index` is to be drawn again.
    pub fn set_modified(&mut self, index: usize, modified: bool)
        requires
            index < old(self).line_items@.len(),
        ensures
            final(self).current_index == old(self).current_index,
            final(self).line_items@.len() == old(self).line_items@.len(),
            forall|i: int|
                0 <= i < final(self).line_items@.len() ==> {
                    &&& (#[trigger] final(self).line_items@[i]).text == old(self).line_items@[i].text
                    &&& final(self).line_items@[i].value == old(self).line_items@[i].value
                    &&& final(self).line_items@[i].marked == old(self).line_items@[i].marked
                    &&& final(self).line_items@[i].modified == if i == index {
                        modified
                    } else {
                        old(self).line_items@[i].modified
                    }
                },
        no_unwind
    {
        self.line_items[index].modified = modified;
    }

    /// The index of the last line (0 when the list is empty).
    fn max_index(&self) -> (m: usize)
        ensures
            m == last_index(self.line_items@.len() as int),
        no_unwind
    {
        if self.line_items.len() > 0 {
            self.line_items.len() - 1
        } else {
            0
        }
    }
}

impl<T> LineItem<T> {
    /// An unmarked line that has yet to be drawn.
    pub fn new(text: &str, value: T) -> (item: Self)
        ensures
            item.text@ == text@,
            item.value == value,
            !item.marked,
            item.modified,
    {
        LineItem { text: text.to_string(), value, marked: false, modified: true }
    }

    pub fn text(&self) -> (t: &str)
        ensures
            t@ == self.text@,
    {
        self.text.as_str()
    }

    pub fn value(&self) -> (v: &T)
        ensures
            *v == self.value,
    {
        &self.value
    }

    pub fn is_marked(&self) -> (m: bool)
        ensures
            m == self.marked,
    {
        self.marked
    }

    pub fn mark(&mut self)
        ensures
            final(self).text == old(self).text,
            final(self).value == old(self).value,
            final(self).modified == old(self).modified,
            final(self).marked,
    {
        self.marked = true;
    }

    pub fn unmark(&mut self)
        ensures
            final(self).text == old(self).text,
            final(self).value == old(self).value,
            final(self).modified == old(self).modified,
            !final(self).marked,
    {
        self.marked = false;
    }
}

/// Moving down and then up returns to the line one started from, unless
/// one started at the last line.
pub proof fn lemma_next_then_prev(current: int, len: int)
    requires
        0 <= current < last_index(len),
    ensures
        prev_index(next_index(current, len)) == current,
{
}

/// Moving up and then down returns to the line one started from, unless
/// one started at the first line (or beyond the last).
pub proof fn lemma_prev_then_next(current: int, len: int)
    requires
        0 < current <= last_index(len),
    ensures
        next_index(prev_index(current), len) == current,
{
}

/// Moving up or down keeps the current index on a line of a non-empty list.
pub proof fn lemma_moves_stay_in_range(current: int, len: int)
    requires
        0 <= current < len,
    ensures
        0 <= next_index(current, len) < len,
        0 <= prev_index(current) < len,
{
}

} // verus!
