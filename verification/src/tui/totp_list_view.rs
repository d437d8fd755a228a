//! The list of configured codes: one line per entry, `NAME | CODE`, with
//! the names padded to the longest one.

use super::widgets::{next_index, prev_index, LineItem, ListView};
use crate::clock::unix_time_now;
use crate::screen::{line_draw, KeyInput, LineDraw};
use crate::text::{
    decimal, lemma_max_char_count, max_char_count, pad_spaces_right, pad_zeros_left, push_padded_right, push_zero_padded,
    string_from_chars,
};
use crate::totp::{starts_new_step, Totp};
use vstd::prelude::*;

verus! {

/// The line for `config` at `unix_secs`: the name, padded with spaces to
/// `width` characters, " | ", and the zero-padded code.
pub open spec fn totp_line(config: Totp, unix_secs: u64, width: nat) -> Seq<char> {
    pad_spaces_right(config.name@, width) + seq![' ', '|', ' '] + pad_zeros_left(
        decimal(config.code_at(unix_secs)),
        config.digits as nat,
    )
}

/// The names of the entries.
pub open spec fn names(totps: Seq<Totp>) -> Seq<Seq<char>> {
    totps.map_values(|t: Totp| t.name@)
}

/// Every entry can produce codes.
pub open spec fn all_can_generate(totps: Seq<Totp>) -> bool {
    forall|i: int| 0 <= i < totps.len() ==> (#[trigger] totps[i]).can_generate()
}

/// The line for `config` at `unix_secs`, with the name padded to
/// `name_max_length` characters.
pub fn format_totp(config: &Totp, unix_secs: u64, name_max_length: usize) -> (line: String)
    requires
        config.can_generate(),
    ensures
        line@ == totp_line(*config, unix_secs, name_max_length as nat),
{
    let mut out: Vec<char> = Vec::new();
    push_padded_right(&mut out, config.name.as_str(), name_max_length);
    out.push(' ');
    out.push('|');
    out.push(' ');
    let code = config.code(unix_secs);
    push_zero_padded(&mut out, code as u64, config.digits as usize);
    proof {
        assert(out@ =~= totp_line(*config, unix_secs, name_max_length as nat));
    }
    string_from_chars(out.as_slice())
}

/// The character count of the longest string, or `None` when there is none.
pub fn longest_string(strs: &[&str]) -> (longest: Option<usize>)
    ensures
        strs@.len() == 0 ==> longest is None,
        strs@.len() > 0 ==> (longest matches Some(m) && m == max_char_count(
            strs@.map_values(|s: &str| s@),
        )),
{
    let ghost texts = strs@.map_values(|s: &str| s@);
    if strs.len() == 0 {
        return None;
    }
    let mut best: usize = 0;
    for i in 0..strs.len()
        invariant
            texts == strs@.map_values(|s: &str| s@),
            best == max_char_count(texts.take(i as int)),
    {
        assert(texts.take(i + 1).drop_last() =~= texts.take(i as int));
        let n = strs[i].unicode_len();
        if n > best {
            best = n;
        }
    }
    assert(texts.take(strs@.len() as int) =~= texts);
    Some(best)
}

/// One line per entry at `unix_secs`, each carrying its entry, none marked.
pub fn create_line_items(totps: &[Totp], unix_secs: u64) -> (items: Vec<LineItem<Totp>>)
    requires
        totps@.len() > 0,
        all_can_generate(totps@),
    ensures
        items@.len() == totps@.len(),
        forall|i: int|
            0 <= i < items@.len() ==> {
                &&& (#[trigger] items@[i]).text@ == totp_line(
                    totps@[i],
                    unix_secs,
                    max_char_count(names(totps@)),
                )
                &&& items@[i].value == totps@[i]
                &&& !items@[i].marked
                &&& items@[i].modified
            },
{
    let mut name_list: Vec<&str> = Vec::new();
    for i in 0..totps.len()
        invariant
            name_list@.len() == i,
            forall|k: int| 0 <= k < i ==> (#[trigger] name_list@[k])@ == totps@[k].name@,
    {
        name_list.push(totps[i].name.as_str());
    }
    let longest = longest_string(name_list.as_slice());
    assert(name_list@.map_values(|s: &str| s@) =~= names(totps@));
    let width = match longest {
        Some(w) => w,
        None => {
            return Vec::new();
        },
    };
    let mut items: Vec<LineItem<Totp>> = Vec::new();
    for i in 0..totps.len()
        invariant
            width == max_char_count(names(totps@)),
            all_can_generate(totps@),
            items@.len() == i,
            forall|k: int|
                0 <= k < i ==> {
                    &&& (#[trigger] items@[k]).text@ == totp_line(totps@[k], unix_secs, width as nat)
                    &&& items@[k].value == totps@[k]
                    &&& !items@[k].marked
                    &&& items@[k].modified
                },
    {
        assert(totps@[i as int].can_generate());
        let line = format_totp(&totps[i], unix_secs, width);
        items.push(LineItem::new(line.as_str(), totps[i].copy()));
    }
    items
}

/// In the list, every line has its " | " at the same column: the length
/// of the longest name.
pub proof fn lemma_lines_are_aligned(totps: Seq<Totp>, unix_secs: u64, i: int)
    requires
        0 <= i < totps.len(),
    ensures
        ({
            let width = max_char_count(names(totps));
            let line = totp_line(totps[i], unix_secs, width);
            line.subrange(width as int, width as int + 3) == seq![' ', '|', ' ']
        }),
{
    let width = max_char_count(names(totps));
    lemma_max_char_count(names(totps));
    assert(names(totps)[i] == totps[i].name@);
    let padded = pad_spaces_right(totps[i].name@, width);
    assert(padded.len() == width);
    let line = totp_line(totps[i], unix_secs, width);
    assert(line.subrange(width as int, width as int + 3) =~= seq![' ', '|', ' ']);
}

/// The index after `key` in a list of `len` lines: `j` moves one down and
/// `k` one up (see `next_index`, `prev_index`); other keys keep it.
pub open spec fn index_after_key(key: KeyInput, current: int, len: int) -> int {
    if key == KeyInput::Char('j') {
        next_index(current, len)
    } else if key == KeyInput::Char('k') {
        prev_index(current)
    } else {
        current
    }
}

/// The list of codes: one line per entry, each carrying its entry and
/// showing its code at the time the lines were built.
pub struct TotpListView {
    totps: Vec<Totp>,
    shown: ShownLines,
    interval: u64,
}

/// The lines and the time they were built at.
struct ShownLines {
    list_view: ListView<Totp>,
    built_at: u64,
}

impl TotpListView {
    /// One line per entry, each carrying its entry and showing its code at
    /// the time the lines were built, with a current line.
    #[verifier::type_invariant]
    spec fn well_formed(self) -> bool {
        &&& self.totps@.len() > 0
        &&& all_can_generate(self.totps@)
        &&& self.shown.list_view.line_items@.len() == self.totps@.len()
        &&& forall|i: int|
            0 <= i < self.totps@.len() ==> (#[trigger] self.shown.list_view.line_items@[i]).value
                == self.totps@[i]
        &&& self.shown.list_view.current_index < self.totps@.len()
        &&& forall|i: int|
            0 <= i < self.totps@.len() ==> (#[trigger] self.shown.list_view.line_items@[i]).text@
                == totp_line(self.totps@[i], self.shown.built_at, max_char_count(names(self.totps@)))
    }

    /// The entries.
    pub closed spec fn entries(self) -> Seq<Totp> {
        self.totps@
    }

    /// The lines.
    pub closed spec fn lines(self) -> Seq<LineItem<Totp>> {
        self.shown.list_view.line_items@
    }

    /// The index of the current line.
    pub closed spec fn selected(self) -> int {
        self.shown.list_view.current_index as int
    }

    /// The length of a time step.
    pub closed spec fn step(self) -> u64 {
        self.interval
    }

    /// The time the lines were last built at.
    pub closed spec fn lines_built_at(self) -> u64 {
        self.shown.built_at
    }

    /// The lines show the codes at `unix_secs`.
    pub open spec fn shows_codes_at(self, unix_secs: u64) -> bool {
        forall|i: int|
            0 <= i < self.lines().len() ==> (#[trigger] self.lines()[i]).text@ == totp_line(
                self.entries()[i],
                unix_secs,
                max_char_count(names(self.entries())),
            )
    }

    /// The lines, built at `unix_secs`: each shows its entry's code at that
    /// time, carries its entry, is unmarked and is to be drawn.
    pub open spec fn fresh_lines_at(self, unix_secs: u64) -> bool {
        &&& self.lines().len() == self.entries().len()
        &&& self.lines_built_at() == unix_secs
        &&& self.shows_codes_at(unix_secs)
        &&& forall|i: int|
            0 <= i < self.lines().len() ==> {
                &&& (#[trigger] self.lines()[i]).value == self.entries()[i]
                &&& !self.lines()[i].marked
                &&& self.lines()[i].modified
            }
    }

    pub fn new(time: u64, interval: u64, totps: Vec<Totp>) -> (view: Self)
        requires
            totps@.len() > 0,
            all_can_generate(totps@),
        ensures
            view.entries() == totps@,
            view.step() == interval,
            view.selected() == 0,
            view.fresh_lines_at(time),
    {
        let line_items = create_line_items(totps.as_slice(), time);
        TotpListView {
            totps,
            shown: ShownLines { list_view: ListView::new(line_items), built_at: time },
            interval,
        }
    }

    /// The index of the current line.
    pub fn current_index(&self) -> (i: usize)
        ensures
            i == self.selected(),
            i < self.lines().len(),
            self.lines().len() == self.entries().len(),
    {
        proof {
            use_type_invariant(self);
        }
        self.shown.list_view.current_index
    }

    /// The lines.
    pub fn line_items(&self) -> (items: &Vec<LineItem<Totp>>)
        ensures
            items@ == self.lines(),
    {
        &self.shown.list_view.line_items
    }

    /// The entries.
    pub fn totps(&self) -> (totps: &Vec<Totp>)
        ensures
            totps@ == self.entries(),
    {
        &self.totps
    }

    /// The length of a time step.
    pub fn interval(&self) -> (interval: u64)
        ensures
            interval == self.step(),
    {
        self.interval
    }

    /// The time the lines were last built at; they show the codes of
    /// that time.
    pub fn built_at(&self) -> (time: u64)
        ensures
            time == self.lines_built_at(),
            self.shows_codes_at(time),
    {
        proof {
            use_type_invariant(self);
        }
        self.shown.built_at
    }

    /// Reacts to a key: `j` moves the current line down and `k` up (the
    /// line left and the line reached are to be drawn again when it moves),
    /// and Enter gives the code shown on the current line, to be copied:
    /// its entry's code at the time the lines were built.
    pub fn handle_event(&mut self, key: KeyInput) -> (copied: Option<String>)
        ensures
            final(self).entries() == old(self).entries(),
            final(self).step() == old(self).step(),
            final(self).lines_built_at() == old(self).lines_built_at(),
            final(self).selected() == index_after_key(
                key,
                old(self).selected(),
                old(self).lines().len() as int,
            ),
            final(self).lines().len() == old(self).lines().len(),
            forall|i: int|
                0 <= i < final(self).lines().len() ==> {
                    let before = old(self).lines()[i];
                    let moved = final(self).selected() != old(self).selected();
                    &&& (#[trigger] final(self).lines()[i]).text == before.text
                    &&& final(self).lines()[i].value == before.value
                    &&& final(self).lines()[i].marked == before.marked
                    &&& final(self).lines()[i].modified == (before.modified || (moved && (i
                        == old(self).selected() || i == final(self).selected())))
                },
            key == KeyInput::Enter ==> (copied matches Some(code) && code@ == pad_zeros_left(
                decimal(
                    old(self).entries()[old(self).selected()].code_at(old(self).lines_built_at()),
                ),
                old(self).entries()[old(self).selected()].digits as nat,
            ) && old(self).lines()[old(self).selected()].text@ == pad_spaces_right(
                old(self).entries()[old(self).selected()].name@,
                max_char_count(names(old(self).entries())),
            ) + seq![' ', '|', ' '] + code@),
            key != KeyInput::Enter ==> copied is None,
    {
        proof {
            use_type_invariant(&*self);
        }
        let before = self.shown.list_view.current_index;
        match key {
            KeyInput::Char('j') => {
                self.shown.list_view.select_next();
            },
            KeyInput::Char('k') => {
                self.shown.list_view.select_prev();
            },
            KeyInput::Enter => {
                let i = self.shown.list_view.current_index;
                assert(self.shown.list_view.line_items@[i as int].value == self.totps@[i as int]);
                assert(self.totps@[i as int].can_generate());
                let code = self.shown.list_view.line_items[i].value.code_padded(self.shown.built_at);
                return Some(code);
            },
            _ => {},
        }
        let after = self.shown.list_view.current_index;
        if after != before {
            self.shown.list_view.set_modified(before, true);
            self.shown.list_view.set_modified(after, true);
        }
        None
    }

    /// What to draw: each line to be drawn, highlighted when it is the
    /// current one; afterwards no line is to be drawn. Marks stay as they
    /// are.
    pub fn display(&mut self) -> (draws: Vec<LineDraw>)
        ensures
            final(self).entries() == old(self).entries(),
            final(self).step() == old(self).step(),
            final(self).lines_built_at() == old(self).lines_built_at(),
            final(self).selected() == old(self).selected(),
            final(self).lines().len() == old(self).lines().len(),
            draws@.len() == old(self).lines().len(),
            forall|i: int|
                0 <= i < draws@.len() ==> {
                    let before = old(self).lines()[i];
                    &&& (#[trigger] final(self).lines()[i]).text == before.text
                    &&& final(self).lines()[i].value == before.value
                    &&& final(self).lines()[i].marked == before.marked
                    &&& !final(self).lines()[i].modified
                    &&& draws@[i] == line_draw(
                        before.modified,
                        i == old(self).selected(),
                        before.text,
                    )
                },
    {
        proof {
            use_type_invariant(&*self);
        }
        let n = self.shown.list_view.line_items.len();
        let mut draws: Vec<LineDraw> = Vec::new();
        for i in 0..n
            invariant
                n == self.shown.list_view.line_items@.len(),
                n == old(self).shown.list_view.line_items@.len(),
                self.well_formed(),
                self.totps == old(self).totps,
                self.interval == old(self).interval,
                self.shown.built_at == old(self).shown.built_at,
                self.shown.list_view.current_index == old(self).shown.list_view.current_index,
                draws@.len() == i,
                forall|j: int|
                    0 <= j < n ==> {
                        let before = old(self).shown.list_view.line_items@[j];
                        &&& (#[trigger] self.shown.list_view.line_items@[j]).text == before.text
                        &&& self.shown.list_view.line_items@[j].value == before.value
                        &&& self.shown.list_view.line_items@[j].marked == before.marked
                        &&& (j < i ==> !self.shown.list_view.line_items@[j].modified)
                        &&& (j >= i ==> self.shown.list_view.line_items@[j].modified == before.modified)
                    },
                forall|j: int|
                    0 <= j < i ==> {
                        let before = old(self).shown.list_view.line_items@[j];
                        #[trigger] draws@[j] == line_draw(
                            before.modified,
                            j == old(self).shown.list_view.current_index,
                            before.text,
                        )
                    },
        {
            if self.shown.list_view.line_items[i].modified {
                let text = self.shown.list_view.line_items[i].text.clone();
                if i == self.shown.list_view.current_index {
                    draws.push(LineDraw::Highlighted(text));
                } else {
                    draws.push(LineDraw::Plain(text));
                }
                self.shown.list_view.set_modified(i, false);
            } else {
                draws.push(LineDraw::Unchanged);
            }
        }
        draws
    }

    /// Reads the clock and refreshes the view at that time (see
    /// `refresh_at`); gives the time read, or `None` (and leaves the view as
    /// it is) when the clock reads before the UNIX epoch.
    pub fn refresh(&mut self) -> (read: Option<u64>)
        requires
            old(self).step() > 0,
        ensures
            match read {
                Some(now) => old(self).refreshed_at(*final(self), now),
                None => *final(self) == *old(self),
            },
    {
        let read = unix_time_now();
        if let Some(now) = read {
            self.refresh_at(now);
        }
        read
    }

    /// At the start of a time step (`now % interval == 0`), builds the lines
    /// anew at `now`, keeping the current index; at any other time leaves
    /// the view as it is.
    pub fn refresh_at(&mut self, now: u64)
        requires
            old(self).step() > 0,
        ensures
            old(self).refreshed_at(*final(self), now),
    {
        proof {
            use_type_invariant(&*self);
        }
        if starts_new_step(self.interval, now) {
            let current = self.shown.list_view.current_index;
            let items = create_line_items(self.totps.as_slice(), now);
            let mut list_view = ListView::new(items);
            list_view.current_index = current;
            self.shown = ShownLines { list_view, built_at: now };
        }
    }

    /// `after` is this view refreshed at `now`.
    pub open spec fn refreshed_at(self, after: Self, now: u64) -> bool {
        if now % self.step() == 0 {
            &&& after.entries() == self.entries()
            &&& after.step() == self.step()
            &&& after.selected() == self.selected()
            &&& after.fresh_lines_at(now)
        } else {
            after == self
        }
    }
}

} // verus!
