//! The state of the program and what every key does to it.

use vstd::prelude::*;

use crate::ai::{build_prompt, csv_of_reply, extract_csv, prompt_text};
use crate::colors::{
    color_spec, color_spec_reads_back, colors_of, nothing_typed_clears, palette_place,
    parse_color_spec, place_or_none, spec_text,
};
use crate::csv::{
    csv_cells, csv_fits, csv_sheet_has_cells, csv_text, csv_to_sheet, sheet_to_csv,
};
use crate::model::{typing_reads_back, Book, Color, Coord, Sheet, SheetV};
use crate::num::{Bits, NumModel, Numerics, Op};
use crate::recalc::{recalc, recalc_keeps, recalculated};
use crate::table::sheet_with;
use crate::text::{chars_are, chars_of, push_text, same_text, string_of, trim, trim_space};

verus! {

/// How many edits can be undone.
pub const UNDO_CAP: usize = 100;

/// Fixed column width (display columns).
pub const COL_W: usize = 10;

/// The open book, the cursor, the first visible row and column, the size of the
/// terminal, the one-shot status message, and the sheets before the last edits.
pub struct App {
    pub book: Book,
    pub cur_row: u32,
    pub cur_col: u32,
    pub top_row: u32,
    pub top_col: u32,
    pub term_w: u16,
    pub term_h: u16,
    pub status: String,
    pub undo: Vec<(usize, Sheet)>,
}

/// The state with its texts as character sequences. The path of the book, which
/// never changes, is left out.
pub struct AppV {
    pub sheets: Seq<SheetV>,
    pub active: usize,
    pub dirty: bool,
    pub cur_row: u32,
    pub cur_col: u32,
    pub top_row: u32,
    pub top_col: u32,
    pub term_w: u16,
    pub term_h: u16,
    pub status: Seq<char>,
    pub undo: Seq<(usize, SheetV)>,
}

impl View for App {
    type V = AppV;

    open spec fn view(&self) -> AppV {
        AppV {
            sheets: Seq::new(self.book.sheets@.len(), |i: int| self.book.sheets@[i]@),
            active: self.book.active,
            dirty: self.book.dirty,
            cur_row: self.cur_row,
            cur_col: self.cur_col,
            top_row: self.top_row,
            top_col: self.top_col,
            term_w: self.term_w,
            term_h: self.term_h,
            status: self.status@,
            undo: Seq::new(
                self.undo@.len(),
                |i: int| (self.undo@[i].0, self.undo@[i].1@),
            ),
        }
    }
}

pub open spec fn lower(a: u32, b: u32) -> u32 {
    if a < b {
        a
    } else {
        b
    }
}

impl AppV {
    /// The active sheet.
    pub open spec fn sheet(self) -> SheetV {
        self.sheets[self.active as int]
    }

    /// The raw text of the cell under the cursor.
    pub open spec fn raw(self) -> Seq<char> {
        self.sheet().cell(self.cur_row, self.cur_col).raw
    }

    /// The active sheet is one of the book's, the cursor is no further out than
    /// one row and one column past its extent, no more edits are remembered than
    /// can be undone, every sheet is well formed, and the terminal has a row each
    /// for the two bars and the column names.
    pub open spec fn inv(self) -> bool {
        &&& self.active < self.sheets.len()
        &&& self.cur_row <= self.sheet().nrows
        &&& self.cur_col <= self.sheet().ncols
        &&& self.undo.len() <= UNDO_CAP
        &&& self.term_h >= 3
        &&& forall|i: int| 0 <= i < self.sheets.len() ==> (#[trigger] self.sheets[i]).well_formed()
        &&& forall|i: int|
            0 <= i < self.undo.len() ==> (#[trigger] self.undo[i]).1.well_formed()
    }

    /// The cursor is on a cell whose row and column have numbers.
    pub open spec fn on_cell(self) -> bool {
        self.cur_row < u32::MAX && self.cur_col < u32::MAX
    }

    /// The state with the active sheet replaced.
    pub open spec fn with_sheet(self, sheet: SheetV) -> AppV {
        AppV { sheets: self.sheets.update(self.active as int, sheet), ..self }
    }

    /// The state with the active sheet remembered, the oldest one forgotten where
    /// there are too many.
    pub open spec fn noted(self) -> AppV {
        let kept = if self.undo.len() >= UNDO_CAP {
            self.undo.skip(1)
        } else {
            self.undo
        };
        AppV { undo: kept.push((self.active, self.sheet())), ..self }
    }

    /// The state after an edit that gives the active sheet a new content.
    pub open spec fn edited_to(self, sheet: SheetV) -> AppV {
        AppV { dirty: true, ..self.noted().with_sheet(sheet) }
    }

    /// The state with the cursor moved back into the extent of the active sheet.
    pub open spec fn cursor_clamped(self) -> AppV {
        AppV {
            cur_row: lower(self.cur_row, self.sheet().nrows),
            cur_col: lower(self.cur_col, self.sheet().ncols),
            ..self
        }
    }

    /// The state after the last edit was undone.
    pub open spec fn undone(self) -> AppV {
        if self.undo.len() == 0 {
            AppV { status: "Nothing to undo"@, ..self }
        } else {
            let (index, sheet) = self.undo.last();
            let active = if index < self.sheets.len() {
                index
            } else {
                (self.sheets.len() - 1) as usize
            };
            AppV {
                dirty: true,
                status: "Undone"@,
                undo: self.undo.drop_last(),
                ..AppV { active, ..self }.with_sheet(sheet).cursor_clamped()
            }
        }
    }

    /// The state after the cell under the cursor was given a text in place of
    /// `cur`; nothing changes where that is the same.
    pub open spec fn typed(self, m: NumModel, cur: Seq<char>, v: Seq<char>) -> AppV {
        if v == cur {
            self
        } else {
            self.edited_to(
                recalculated(m, self.sheet().with_raw(self.cur_row, self.cur_col, v)),
            )
        }
    }

    /// The state after the cell under the cursor was cleared.
    pub open spec fn cleared(self, m: NumModel) -> AppV {
        self.typed(m, self.raw(), Seq::empty())
    }

    /// The state after the cell under the cursor was given the colours of a
    /// specification.
    pub open spec fn colored(self, input: Seq<char>) -> AppV {
        let (fg, bg) = colors_of(input);
        self.edited_to(
            self.sheet().with_colors(
                self.cur_row,
                self.cur_col,
                palette_or_none(fg),
                palette_or_none(bg),
            ),
        )
    }

    /// The colours of the cell under the cursor, as they would be typed.
    pub open spec fn offered_colors(self) -> Seq<char> {
        let cell = self.sheet().cell(self.cur_row, self.cur_col);
        if cell.fg is Some || cell.bg is Some {
            spec_text(place_or_none(cell.fg), place_or_none(cell.bg))
        } else {
            Seq::empty()
        }
    }

    /// The state after a reply to an AI edit, or a failure.
    pub open spec fn replied(self, m: NumModel, reply: Result<Seq<char>, Seq<char>>) -> AppV {
        match reply {
            Err(e) => AppV { status: "AI: "@ + e, ..self },
            Ok(text) => match csv_of_reply(text) {
                None => AppV { status: "AI: no usable CSV in the reply"@, ..self },
                Some(body) => {
                    let sheet = sheet_with(self.sheet().name, csv_cells(body));
                    AppV {
                        top_row: 0,
                        top_col: 0,
                        status: "AI edit applied"@,
                        ..self.edited_to(recalculated(m, sheet)).cursor_clamped()
                    }
                },
            },
        }
    }

    /// The state with another sheet active, so many further on, the first one
    /// following the last, and the cursor at its first cell.
    pub open spec fn switched(self, delta: int) -> AppV {
        let n = self.sheets.len() as int;
        if n <= 1 {
            self
        } else {
            AppV {
                active: ((self.active + delta) % n) as usize,
                cur_row: 0,
                cur_col: 0,
                top_row: 0,
                top_col: 0,
                ..self
            }
        }
    }

    /// How many rows of data fit on the screen.
    pub open spec fn data_rows(self) -> int {
        self.term_h - 3
    }

    /// The state after an attempt to save.
    pub open spec fn saved(self, result: Result<(), Seq<char>>, path: Seq<char>) -> AppV {
        match result {
            Ok(_) => AppV { dirty: false, status: "Saved "@ + path, ..self },
            Err(e) => AppV { status: "Save failed: "@ + e, ..self },
        }
    }
}

/// The colour of a place in the palette, none for none.
pub open spec fn palette_or_none(n: Option<u8>) -> Option<Color> {
    match n {
        Some(k) => Some(Color::Palette(k)),
        None => None,
    }
}

/// What is left to do after a key.
#[derive(Clone, Copy, PartialEq, Eq, Structural, Debug)]
pub enum Action {
    Nothing,
    /// End the program.
    Quit,
    /// Ask whether to save, and end the program unless that is cancelled.
    ConfirmQuit,
    /// Ask for a new text of the cell, beginning with its old one.
    Edit,
    /// Ask for a formula.
    EditFormula,
    AiEdit,
    SetColor,
    Help,
    Save,
    Resize,
}

pub open spec fn least(a: int, b: int) -> u32 {
    (if a < b {
        a
    } else {
        b
    }) as u32
}

pub open spec fn not_below_zero(a: int) -> u32 {
    (if a < 0 {
        0
    } else {
        a
    }) as u32
}

/// Where a key moves the cursor; none where it is no such key. One empty row and
/// column past the last can be reached, to append.
pub open spec fn moved_to(a: AppV, key: Seq<char>) -> Option<Coord> {
    let (r, c) = (a.cur_row, a.cur_col);
    let max_row = a.sheet().nrows as int;
    let max_col = a.sheet().ncols as int;
    if key == "h"@ || key == "LEFT"@ {
        Some((r, not_below_zero(c - 1)))
    } else if key == "l"@ || key == "RIGHT"@ {
        Some((r, least(c + 1, max_col)))
    } else if key == "k"@ || key == "UP"@ {
        Some((not_below_zero(r - 1), c))
    } else if key == "j"@ || key == "DOWN"@ {
        Some((least(r + 1, max_row), c))
    } else if key == "g"@ || key == "C-HOME"@ {
        Some((0, c))
    } else if key == "G"@ || key == "C-END"@ {
        Some((not_below_zero(max_row - 1), c))
    } else if key == "0"@ || key == "HOME"@ {
        Some((r, 0))
    } else if key == "$"@ || key == "END"@ {
        Some((r, not_below_zero(max_col - 1)))
    } else if key == "PgDOWN"@ {
        Some((least(r + a.data_rows(), max_row), c))
    } else if key == "PgUP"@ {
        Some((not_below_zero(r - a.data_rows()), c))
    } else {
        None
    }
}

/// What a key does: the state after it, and what is left to do. A fresh keypress
/// clears the status message.
pub open spec fn pressed(m: NumModel, before: AppV, key: Seq<char>) -> (AppV, Action) {
    let a = AppV { status: Seq::empty(), ..before };
    match moved_to(a, key) {
        Some(at) => (AppV { cur_row: at.0, cur_col: at.1, ..a }, Action::Nothing),
        None => if key == "q"@ {
            (
                a,
                if a.dirty {
                    Action::ConfirmQuit
                } else {
                    Action::Quit
                },
            )
        } else if key == "Q"@ {
            (a, Action::Quit)
        } else if key == "ENTER"@ || key == "i"@ {
            (a, Action::Edit)
        } else if key == "="@ {
            (a, Action::EditFormula)
        } else if key == "c"@ {
            (a, Action::AiEdit)
        } else if key == "C"@ {
            (a, Action::SetColor)
        } else if key == "u"@ {
            (a.undone(), Action::Nothing)
        } else if key == "TAB"@ {
            (a.switched(1), Action::Nothing)
        } else if key == "S-TAB"@ {
            (a.switched(-1), Action::Nothing)
        } else if key == "?"@ {
            (a, Action::Help)
        } else if key == "d"@ || key == "DEL"@ {
            (a.cleared(m), Action::Nothing)
        } else if key == "s"@ {
            (a, Action::Save)
        } else if key == "RESIZE"@ {
            (a, Action::Resize)
        } else {
            (a, Action::Nothing)
        },
    }
}

/// What the question whether to save before the end is answered.
#[derive(Clone, Copy, PartialEq, Eq, Structural, Debug)]
pub enum Answer {
    /// Save and end the program.
    Save,
    /// End the program.
    Discard,
    /// Go on.
    Cancel,
}

/// What a key answers; none where it is no answer, and the question stands.
pub open spec fn answered(key: Seq<char>) -> Option<Answer> {
    if key == "y"@ || key == "Y"@ {
        Some(Answer::Save)
    } else if key == "n"@ || key == "N"@ {
        Some(Answer::Discard)
    } else if key == "ESC"@ {
        Some(Answer::Cancel)
    } else {
        None
    }
}

/// What a key answers to the question whether to save before the end.
pub fn confirm_quit(key: &str) -> (r: Option<Answer>)
    ensures
        r == answered(key@),
{
    let chars = chars_of(key);
    let k = chars.as_slice();
    if chars_are(k, "y") || chars_are(k, "Y") {
        Some(Answer::Save)
    } else if chars_are(k, "n") || chars_are(k, "N") {
        Some(Answer::Discard)
    } else if chars_are(k, "ESC") {
        Some(Answer::Cancel)
    } else {
        None
    }
}

// ---- code -----------------------------------------------------------------

impl App {
    /// The state of a program that has just opened a book.
    pub fn new(book: Book, term_w: u16, term_h: u16) -> (app: App)
        requires
            book.well_formed(),
            forall|i: int|
                0 <= i < book.sheets@.len() ==> (#[trigger] book.sheets@[i])@.well_formed(),
            term_h >= 3,
        ensures
            app@.inv(),
            app.book == book,
            app@ == (AppV {
                cur_row: 0,
                cur_col: 0,
                top_row: 0,
                top_col: 0,
                term_w,
                term_h,
                status: Seq::empty(),
                undo: Seq::empty(),
                ..app@
            }),
    {
        let app = App {
            book,
            cur_row: 0,
            cur_col: 0,
            top_row: 0,
            top_col: 0,
            term_w,
            term_h,
            status: String::new(),
            undo: Vec::new(),
        };
        assert(app@.undo =~= Seq::<(usize, SheetV)>::empty());
        app
    }

    /// Snapshots the active sheet before a mutation (bounded stack).
    pub fn snapshot(&mut self)
        requires
            old(self)@.inv(),
        ensures
            final(self)@ == old(self)@.noted(),
            final(self)@.inv(),
            final(self).book == old(self).book,
    {
        let ghost before = self@;
        if self.undo.len() >= UNDO_CAP {
            self.undo.remove(0);
            assert(self@.undo =~= before.undo.skip(1));
        }
        let ghost kept = self@.undo;
        let sheet = self.book.sheet().clone();
        self.undo.push((self.book.active, sheet));
        assert(self@.undo =~= kept.push((before.active, before.sheet())));
        assert(self@.sheets =~= before.sheets);
    }

    /// Puts a sheet in the place of the active one.
    fn put_sheet(&mut self, sheet: Sheet)
        requires
            old(self)@.active < old(self)@.sheets.len(),
        ensures
            final(self)@ == old(self)@.with_sheet(sheet@),
            final(self).book.path == old(self).book.path,
    {
        let ghost before = self@;
        *self.book.sheet_mut() = sheet;
        assert(self@.sheets =~= before.sheets.update(before.active as int, sheet@));
        assert(self@.undo =~= before.undo);
    }

    /// Remembers the active sheet, and puts an edited one in its place.
    fn edit_to(&mut self, sheet: Sheet)
        requires
            old(self)@.inv(),
            sheet@.well_formed(),
            old(self)@.cur_row <= sheet@.nrows,
            old(self)@.cur_col <= sheet@.ncols,
        ensures
            final(self)@ == old(self)@.edited_to(sheet@),
            final(self)@.inv(),
            final(self).book.path == old(self).book.path,
    {
        self.snapshot();
        self.put_sheet(sheet);
        self.book.dirty = true;
    }

    fn clamp_cursor(&mut self)
        requires
            old(self)@.active < old(self)@.sheets.len(),
        ensures
            final(self)@ == old(self)@.cursor_clamped(),
            final(self).book == old(self).book,
    {
        let (nrows, ncols) = (self.book.sheet().nrows, self.book.sheet().ncols);
        if nrows < self.cur_row {
            self.cur_row = nrows;
        }
        if ncols < self.cur_col {
            self.cur_col = ncols;
        }
    }

    /// Restores the most recent snapshot.
    pub fn undo(&mut self)
        requires
            old(self)@.inv(),
        ensures
            final(self)@ == old(self)@.undone(),
            final(self)@.inv(),
            final(self).book.path == old(self).book.path,
    {
        let ghost before = self@;
        match self.undo.pop() {
            Some((index, sheet)) => {
                assert(self@.undo =~= before.undo.drop_last());
                assert(before.undo.last() == (index, sheet@));
                let n: usize = self.book.sheets.len();
                self.book.active = if index < n {
                    index
                } else {
                    n - 1
                };
                let ghost moved = self@;
                assert(moved.sheets =~= before.sheets);
                self.put_sheet(sheet);
                self.clamp_cursor();
                self.book.dirty = true;
                self.status = "Undone".to_owned();
                assert(self@ =~= before.undone());
            },
            None => {
                self.status = "Nothing to undo".to_owned();
                assert(self@.undo =~= before.undo);
            },
        }
    }

    /// The text under the cursor.
    pub fn raw(&self) -> (s: &str)
        requires
            self@.inv(),
        ensures
            s@ == self@.raw(),
    {
        self.book.sheet().raw(self.cur_row, self.cur_col)
    }

    /// Gives the cell under the cursor the text `v` in place of `cur`.
    pub fn edit_cell<
        P: Fn(&str) -> Option<Bits>,
        S: Fn(Bits) -> String,
        C: Fn(Op, Bits, Bits) -> Bits,
    >(
        &mut self,
        numerics: &Numerics<P, S, C>,
        cur: &str,
        v: String,
    )
        requires
            numerics.valid(),
            old(self)@.inv(),
            old(self)@.on_cell(),
        ensures
            final(self)@ == old(self)@.typed(numerics.model(), cur@, v@),
            final(self)@.inv(),
            final(self).book.path == old(self).book.path,
    {
        if same_text(v.as_str(), cur) {
            return;  // no change: don't pollute the undo stack
        }
        let mut sheet = self.book.sheet().clone();
        sheet.set(self.cur_row, self.cur_col, v);
        proof {
            recalc_keeps(numerics.model(), sheet@);
        }
        recalc(numerics, &mut sheet);
        self.edit_to(sheet);
    }

    /// Clears the cell under the cursor.
    pub fn clear_cell<
        P: Fn(&str) -> Option<Bits>,
        S: Fn(Bits) -> String,
        C: Fn(Op, Bits, Bits) -> Bits,
    >(
        &mut self,
        numerics: &Numerics<P, S, C>,
    )
        requires
            numerics.valid(),
            old(self)@.inv(),
        ensures
            final(self)@ == old(self)@.cleared(numerics.model()),
            final(self)@.inv(),
            final(self).book.path == old(self).book.path,
    {
        let cur = self.raw().to_owned();
        if cur.as_str().is_empty() {
            assert(cur@ =~= Seq::<char>::empty());
            return;
        }
        assert(self@.sheet().cells.contains_key((self.cur_row, self.cur_col)));
        self.edit_cell(numerics, cur.as_str(), String::new());
    }

    /// The colours of the cell under the cursor, as they would be typed.
    pub fn color_prompt(&self) -> (s: String)
        requires
            self@.inv(),
        ensures
            s@ == self@.offered_colors(),
    {
        let (fg, bg) = self.book.sheet().colors(self.cur_row, self.cur_col);
        if fg.is_some() || bg.is_some() {
            color_spec(palette_place(fg), palette_place(bg))
        } else {
            String::new()
        }
    }

    /// Sets the colours of the cell under the cursor from a "fg,bg" spec (palette
    /// 0-255 or a colour name; blank clears).
    pub fn set_color(&mut self, input: &str)
        requires
            old(self)@.inv(),
            old(self)@.on_cell(),
        ensures
            final(self)@ == old(self)@.colored(input@),
            final(self)@.inv(),
            final(self).book.path == old(self).book.path,
    {
        let (fg, bg) = parse_color_spec(input);
        let mut sheet = self.book.sheet().clone();
        sheet.set_colors(self.cur_row, self.cur_col, from_palette(fg), from_palette(bg));
        self.edit_to(sheet);
    }

    /// The prompt of an AI edit; none where the instruction is blank.
    pub fn ai_prompt(&self, instruction: &str) -> (r: Option<String>)
        requires
            self@.inv(),
        ensures
            match r {
                Some(p) => trim_space(instruction@).len() > 0 && p@ == prompt_text(
                    csv_text(self@.sheet()),
                    instruction@,
                ),
                None => trim_space(instruction@).len() == 0,
            },
    {
        let chars = chars_of(instruction);
        if trim(chars.as_slice()).len() == 0 {
            return None;
        }
        let csv = sheet_to_csv(self.book.sheet());
        Some(build_prompt(csv.as_str(), instruction))
    }

    /// Replaces the active sheet with what came back from an AI edit.
    pub fn ai_edit<
        P: Fn(&str) -> Option<Bits>,
        S: Fn(Bits) -> String,
        C: Fn(Op, Bits, Bits) -> Bits,
    >(
        &mut self,
        numerics: &Numerics<P, S, C>,
        reply: Result<String, String>,
    )
        requires
            numerics.valid(),
            old(self)@.inv(),
            reply matches Ok(text) ==> (csv_of_reply(text@) matches Some(body) ==> csv_fits(body)),
        ensures
            final(self)@ == old(self)@.replied(numerics.model(), reply_view(reply)),
            final(self)@.inv(),
            final(self).book.path == old(self).book.path,
    {
        let ghost before = self@;
        match reply {
            Ok(text) => match extract_csv(text.as_str()) {
                Some(body) => {
                    let name = self.book.sheet().name.clone();
                    let mut sheet = csv_to_sheet(body.as_str(), name);
                    proof {
                        recalc_keeps(numerics.model(), sheet@);
                    }
                    recalc(numerics, &mut sheet);
                    self.snapshot();
                    self.put_sheet(sheet);
                    self.book.dirty = true;
                    self.clamp_cursor();
                    self.top_row = 0;
                    self.top_col = 0;
                    self.status = "AI edit applied".to_owned();
                    assert(self@ =~= before.replied(numerics.model(), reply_view(reply)));
                },
                None => {
                    self.status = "AI: no usable CSV in the reply".to_owned();
                    assert(self@ =~= before.replied(numerics.model(), reply_view(reply)));
                },
            },
            Err(e) => {
                let mut v = chars_of("AI: ");
                push_text(&mut v, e.as_str());
                self.status = string_of(v.as_slice());
                assert(self@ =~= before.replied(numerics.model(), reply_view(reply)));
            },
        }
    }

    /// Cycles to another sheet (wraps), resetting the cursor to A1.
    pub fn switch_sheet(&mut self, delta: i32)
        requires
            old(self)@.inv(),
        ensures
            final(self)@ == old(self)@.switched(delta as int),
            final(self)@.inv(),
            final(self).book.path == old(self).book.path,
    {
        let ghost before = self@;
        let n: u128 = self.book.sheets.len() as u128;
        if n <= 1 {
            return;
        }
        let step: u128 = if delta >= 0 {
            (delta as u128) % n
        } else {
            n - ((-(delta as i64)) as u128) % n
        };
        let active: u128 = (self.book.active as u128 + step) % n;
        proof {
            wraps(before.active as int, delta as int, n as int);
        }
        self.book.active = active as usize;
        self.cur_row = 0;
        self.cur_col = 0;
        self.top_row = 0;
        self.top_col = 0;
        assert(self@.sheets =~= before.sheets);
        assert(self@.undo =~= before.undo);
    }

    /// Takes note of an attempt to save to `path`.
    pub fn saved(&mut self, result: Result<(), String>, path: &str)
        requires
            old(self)@.inv(),
        ensures
            final(self)@ == old(self)@.saved(
                match result {
                    Ok(_) => Ok::<(), Seq<char>>(()),
                    Err(e) => Err(e@),
                },
                path@,
            ),
            final(self)@.inv(),
            final(self).book.path == old(self).book.path,
    {
        match result {
            Ok(_) => {
                self.book.dirty = false;
                let mut v = chars_of("Saved ");
                push_text(&mut v, path);
                self.status = string_of(v.as_slice());
            },
            Err(e) => {
                let mut v = chars_of("Save failed: ");
                push_text(&mut v, e.as_str());
                self.status = string_of(v.as_slice());
            },
        }
    }

    /// Takes note of the size of the terminal; says whether it has changed.
    pub fn resize(&mut self, w: u16, h: u16) -> (changed: bool)
        requires
            old(self)@.inv(),
            h >= 3,
        ensures
            changed == (w != old(self)@.term_w || h != old(self)@.term_h),
            final(self)@ == (AppV { term_w: w, term_h: h, ..old(self)@ }),
            final(self)@.inv(),
            final(self).book == old(self).book,
    {
        if w == self.term_w && h == self.term_h {
            return false;
        }
        self.term_w = w;
        self.term_h = h;
        true
    }

    /// Rows of data that fit in the body (minus the header line).
    pub fn data_rows(&self) -> (n: usize)
        requires
            self@.inv(),
        ensures
            n == self@.data_rows(),
    {
        (self.term_h - 3) as usize
    }

    /// Does what a key asks for, and says what is left to do.
    pub fn handle<
        P: Fn(&str) -> Option<Bits>,
        S: Fn(Bits) -> String,
        C: Fn(Op, Bits, Bits) -> Bits,
    >(
        &mut self,
        numerics: &Numerics<P, S, C>,
        key: &str,
    ) -> (action: Action)
        requires
            numerics.valid(),
            old(self)@.inv(),
        ensures
            (final(self)@, action) == pressed(numerics.model(), old(self)@, key@),
            final(self)@.inv(),
            final(self).book.path == old(self).book.path,
    {
        // A fresh keypress clears any one-shot status message.
        self.status = String::new();
        let chars = chars_of(key);
        let k = chars.as_slice();
        let max_row: u32 = self.book.sheet().nrows;
        let max_col: u32 = self.book.sheet().ncols;
        let page: u32 = (self.term_h - 3) as u32;
        let quiet: bool = self.step(k, max_row, max_col, page);
        if quiet {
            return Action::Nothing;
        }
        if chars_are(k, "q") {
            if self.book.dirty {
                Action::ConfirmQuit
            } else {
                Action::Quit
            }
        } else if chars_are(k, "Q") {
            Action::Quit
        } else if chars_are(k, "ENTER") || chars_are(k, "i") {
            Action::Edit
        } else if chars_are(k, "=") {
            Action::EditFormula
        } else if chars_are(k, "c") {
            Action::AiEdit
        } else if chars_are(k, "C") {
            Action::SetColor
        } else if chars_are(k, "u") {
            self.undo();
            Action::Nothing
        } else if chars_are(k, "TAB") {
            self.switch_sheet(1);
            Action::Nothing
        } else if chars_are(k, "S-TAB") {
            self.switch_sheet(-1);
            Action::Nothing
        } else if chars_are(k, "?") {
            Action::Help
        } else if chars_are(k, "d") || chars_are(k, "DEL") {
            self.clear_cell(numerics);
            Action::Nothing
        } else if chars_are(k, "s") {
            Action::Save
        } else if chars_are(k, "RESIZE") {
            Action::Resize
        } else {
            Action::Nothing
        }
    }

    /// Moves the cursor where a key asks for it; says whether it did.
    fn step(&mut self, k: &[char], max_row: u32, max_col: u32, page: u32) -> (moved: bool)
        requires
            old(self)@.inv(),
            max_row == old(self)@.sheet().nrows,
            max_col == old(self)@.sheet().ncols,
            page == old(self)@.data_rows(),
        ensures
            moved == (moved_to(old(self)@, k@) is Some),
            final(self)@ == match moved_to(old(self)@, k@) {
                Some(at) => (AppV { cur_row: at.0, cur_col: at.1, ..old(self)@ }),
                None => old(self)@,
            },
            final(self)@.inv(),
            final(self).book == old(self).book,
    {
        if chars_are(k, "h") || chars_are(k, "LEFT") {
            if self.cur_col > 0 {
                self.cur_col = self.cur_col - 1;
            }
        } else if chars_are(k, "l") || chars_are(k, "RIGHT") {
            if self.cur_col < max_col {
                self.cur_col = self.cur_col + 1;
            }
        } else if chars_are(k, "k") || chars_are(k, "UP") {
            if self.cur_row > 0 {
                self.cur_row = self.cur_row - 1;
            }
        } else if chars_are(k, "j") || chars_are(k, "DOWN") {
            if self.cur_row < max_row {
                self.cur_row = self.cur_row + 1;
            }
        } else if chars_are(k, "g") || chars_are(k, "C-HOME") {
            self.cur_row = 0;
        } else if chars_are(k, "G") || chars_are(k, "C-END") {
            self.cur_row = if max_row > 0 {
                max_row - 1
            } else {
                0
            };
        } else if chars_are(k, "0") || chars_are(k, "HOME") {
            self.cur_col = 0;
        } else if chars_are(k, "$") || chars_are(k, "END") {
            self.cur_col = if max_col > 0 {
                max_col - 1
            } else {
                0
            };
        } else if chars_are(k, "PgDOWN") {
            self.cur_row = if page < max_row - self.cur_row {
                self.cur_row + page
            } else {
                max_row
            };
        } else if chars_are(k, "PgUP") {
            self.cur_row = if page < self.cur_row {
                self.cur_row - page
            } else {
                0
            };
        } else {
            return false;
        }
        true
    }
}

/// A reply with its texts as character sequences.
pub open spec fn reply_view(reply: Result<String, String>) -> Result<Seq<char>, Seq<char>> {
    match reply {
        Ok(text) => Ok(text@),
        Err(e) => Err(e@),
    }
}

fn from_palette(n: Option<u8>) -> (c: Option<Color>)
    ensures
        c == palette_or_none(n),
{
    match n {
        Some(k) => Some(Color::Palette(k)),
        None => None,
    }
}

/// Going round a ring of `n`, in steps that are not negative.
proof fn wraps(active: int, delta: int, n: int)
    requires
        0 <= active < n,
    ensures
        delta >= 0 ==> (active + delta % n) % n == (active + delta) % n,
        delta < 0 ==> (active + (n - (-delta) % n)) % n == (active + delta) % n,
        0 <= (active + delta) % n < n,
{
    if delta >= 0 {
        vstd::arithmetic::div_mod::lemma_add_mod_noop_right(active, delta, n);
    } else {
        let k = -delta;
        vstd::arithmetic::div_mod::lemma_sub_mod_noop_right(active, k, n);
        vstd::arithmetic::div_mod::lemma_mod_add_multiples_vanish(active - k % n, n);
        assert(active + (n - k % n) == n + (active - k % n));
    }
}

// ---- laws -----------------------------------------------------------------

/// Undoing an edit brings back the sheets as they were before it.
pub proof fn undo_restores(a: AppV, sheet: SheetV)
    requires
        a.inv(),
    ensures
        a.edited_to(sheet).undone().sheets == a.sheets,
        a.edited_to(sheet).undone().active == a.active,
        a.undo.len() < UNDO_CAP ==> a.edited_to(sheet).undone().undo == a.undo,
{
    let b = a.edited_to(sheet).undone();
    assert(b.sheets =~= a.sheets);
    assert(a.noted().undo.drop_last() =~= if a.undo.len() >= UNDO_CAP {
        a.undo.skip(1)
    } else {
        a.undo
    });
}

/// The names of the keys differ.
proof fn key_names()
    ensures
        "h"@.len() == 1 && "h"@[0] == 'h',
        "LEFT"@.len() == 4 && "LEFT"@[0] == 'L',
        "l"@.len() == 1 && "l"@[0] == 'l',
        "RIGHT"@.len() == 5 && "RIGHT"@[0] == 'R',
        "k"@.len() == 1 && "k"@[0] == 'k',
        "UP"@.len() == 2 && "UP"@[0] == 'U',
        "j"@.len() == 1 && "j"@[0] == 'j',
        "DOWN"@.len() == 4 && "DOWN"@[0] == 'D',
        "g"@.len() == 1 && "g"@[0] == 'g',
        "C-HOME"@.len() == 6 && "C-HOME"@[0] == 'C',
        "G"@.len() == 1 && "G"@[0] == 'G',
        "C-END"@.len() == 5 && "C-END"@[0] == 'C',
        "0"@.len() == 1 && "0"@[0] == '0',
        "HOME"@.len() == 4 && "HOME"@[0] == 'H',
        "$"@.len() == 1 && "$"@[0] == '$',
        "END"@.len() == 3 && "END"@[0] == 'E',
        "PgDOWN"@.len() == 6 && "PgDOWN"@[0] == 'P',
        "PgUP"@.len() == 4 && "PgUP"@[0] == 'P',
        "q"@.len() == 1 && "q"@[0] == 'q',
        "Q"@.len() == 1 && "Q"@[0] == 'Q',
        "ENTER"@.len() == 5 && "ENTER"@[0] == 'E',
        "i"@.len() == 1 && "i"@[0] == 'i',
        "="@.len() == 1 && "="@[0] == '=',
        "c"@.len() == 1 && "c"@[0] == 'c',
        "C"@.len() == 1 && "C"@[0] == 'C',
        "u"@.len() == 1 && "u"@[0] == 'u',
        "TAB"@.len() == 3 && "TAB"@[0] == 'T',
        "S-TAB"@.len() == 5 && "S-TAB"@[0] == 'S',
        "?"@.len() == 1 && "?"@[0] == '?',
        "d"@.len() == 1 && "d"@[0] == 'd',
        "DEL"@.len() == 3 && "DEL"@[0] == 'D',
        "s"@.len() == 1 && "s"@[0] == 's',
        "RESIZE"@.len() == 6 && "RESIZE"@[0] == 'R',
{
    reveal_strlit("h");
    reveal_strlit("LEFT");
    reveal_strlit("l");
    reveal_strlit("RIGHT");
    reveal_strlit("k");
    reveal_strlit("UP");
    reveal_strlit("j");
    reveal_strlit("DOWN");
    reveal_strlit("g");
    reveal_strlit("C-HOME");
    reveal_strlit("G");
    reveal_strlit("C-END");
    reveal_strlit("0");
    reveal_strlit("HOME");
    reveal_strlit("$");
    reveal_strlit("END");
    reveal_strlit("PgDOWN");
    reveal_strlit("PgUP");
    reveal_strlit("q");
    reveal_strlit("Q");
    reveal_strlit("ENTER");
    reveal_strlit("i");
    reveal_strlit("=");
    reveal_strlit("c");
    reveal_strlit("C");
    reveal_strlit("u");
    reveal_strlit("TAB");
    reveal_strlit("S-TAB");
    reveal_strlit("?");
    reveal_strlit("d");
    reveal_strlit("DEL");
    reveal_strlit("s");
    reveal_strlit("RESIZE");
}

/// A key that moves the cursor changes nothing but the cursor and the status message.
pub open spec fn only_moves(m: NumModel, a: AppV, key: Seq<char>, r: int, c: int) -> bool {
    let (b, action) = pressed(m, a, key);
    &&& action == Action::Nothing
    &&& b == (AppV { cur_row: b.cur_row, cur_col: b.cur_col, status: Seq::empty(), ..a })
    &&& b.cur_row == r
    &&& b.cur_col == c
}

/// The keys that move by one cell: left and up as far as the first cell, right and down
/// as far as one past the last.
pub proof fn keys_step(m: NumModel, a: AppV)
    requires
        a.inv(),
    ensures
        ({
            let (r, c) = (a.cur_row as int, a.cur_col as int);
            let (rows, cols) = (a.sheet().nrows, a.sheet().ncols);
            &&& c > 0 ==> only_moves(m, a, "h"@, r, c - 1) && only_moves(m, a, "LEFT"@, r, c - 1)
            &&& c == 0 ==> only_moves(m, a, "h"@, r, c) && only_moves(m, a, "LEFT"@, r, c)
            &&& c < cols ==> only_moves(m, a, "l"@, r, c + 1) && only_moves(m, a, "RIGHT"@, r, c + 1)
            &&& c == cols ==> only_moves(m, a, "l"@, r, c) && only_moves(m, a, "RIGHT"@, r, c)
            &&& r > 0 ==> only_moves(m, a, "k"@, r - 1, c) && only_moves(m, a, "UP"@, r - 1, c)
            &&& r == 0 ==> only_moves(m, a, "k"@, r, c) && only_moves(m, a, "UP"@, r, c)
            &&& r < rows ==> only_moves(m, a, "j"@, r + 1, c) && only_moves(m, a, "DOWN"@, r + 1, c)
            &&& r == rows ==> only_moves(m, a, "j"@, r, c) && only_moves(m, a, "DOWN"@, r, c)
        }),
{
    key_names();
}

/// The keys that jump: to the first and the last row and column, and by as many rows as
/// are visible, no further than the keys that move by one.
pub proof fn keys_jump(m: NumModel, a: AppV)
    requires
        a.inv(),
    ensures
        ({
            let (r, c) = (a.cur_row as int, a.cur_col as int);
            let (rows, cols) = (a.sheet().nrows, a.sheet().ncols);
            let page = a.term_h - 3;
            &&& only_moves(m, a, "g"@, 0, c) && only_moves(m, a, "C-HOME"@, 0, c)
            &&& only_moves(m, a, "0"@, r, 0) && only_moves(m, a, "HOME"@, r, 0)
            &&& rows > 0 ==> only_moves(m, a, "G"@, rows - 1, c) && only_moves(
                m,
                a,
                "C-END"@,
                rows - 1,
                c,
            )
            &&& rows == 0 ==> only_moves(m, a, "G"@, 0, c) && only_moves(m, a, "C-END"@, 0, c)
            &&& cols > 0 ==> only_moves(m, a, "$"@, r, cols - 1) && only_moves(
                m,
                a,
                "END"@,
                r,
                cols - 1,
            )
            &&& cols == 0 ==> only_moves(m, a, "$"@, r, 0) && only_moves(m, a, "END"@, r, 0)
            &&& r + page <= rows ==> only_moves(m, a, "PgDOWN"@, r + page, c)
            &&& r + page > rows ==> only_moves(m, a, "PgDOWN"@, rows as int, c)
            &&& r - page >= 0 ==> only_moves(m, a, "PgUP"@, r - page, c)
            &&& r - page < 0 ==> only_moves(m, a, "PgUP"@, 0, c)
        }),
{
    key_names();
}

/// The keys that leave something to do change nothing but the status message; what `q`
/// asks for depends on whether there are changes to lose.
pub proof fn keys_ask(m: NumModel, a: AppV)
    ensures
        ({
            let quiet = AppV { status: Seq::empty(), ..a };
            &&& pressed(m, a, "q"@) == (quiet, if a.dirty {
                Action::ConfirmQuit
            } else {
                Action::Quit
            })
            &&& pressed(m, a, "Q"@) == (quiet, Action::Quit)
            &&& pressed(m, a, "ENTER"@) == (quiet, Action::Edit)
            &&& pressed(m, a, "i"@) == (quiet, Action::Edit)
            &&& pressed(m, a, "="@) == (quiet, Action::EditFormula)
            &&& pressed(m, a, "c"@) == (quiet, Action::AiEdit)
            &&& pressed(m, a, "C"@) == (quiet, Action::SetColor)
            &&& pressed(m, a, "?"@) == (quiet, Action::Help)
            &&& pressed(m, a, "s"@) == (quiet, Action::Save)
            &&& pressed(m, a, "RESIZE"@) == (quiet, Action::Resize)
        }),
{
    key_names();
}

/// TAB goes to the next sheet and S-TAB to the one before, round the ends, and to the
/// first cell of it; with one sheet they do nothing.
pub proof fn keys_change_sheet(m: NumModel, a: AppV)
    requires
        a.inv(),
        a.sheets.len() <= usize::MAX,
    ensures
        ({
            let (next, x) = pressed(m, a, "TAB"@);
            let (back, y) = pressed(m, a, "S-TAB"@);
            let n = a.sheets.len();
            let at_first = |b: AppV|
                {
                    b == (AppV {
                        active: b.active,
                        cur_row: 0,
                        cur_col: 0,
                        top_row: 0,
                        top_col: 0,
                        status: Seq::empty(),
                        ..a
                    })
                };
            &&& x == Action::Nothing && y == Action::Nothing
            &&& n == 1 ==> next == (AppV { status: Seq::empty(), ..a }) && back == next
            &&& n > 1 ==> at_first(next) && at_first(back)
            &&& n > 1 && a.active < n - 1 ==> next.active == a.active + 1
            &&& n > 1 && a.active == n - 1 ==> next.active == 0
            &&& n > 1 && a.active > 0 ==> back.active == a.active - 1
            &&& n > 1 && a.active == 0 ==> back.active == n - 1
        }),
{
    key_names();
    let n = a.sheets.len() as int;
    if n > 1 {
        if a.active < n - 1 {
            vstd::arithmetic::div_mod::lemma_small_mod((a.active + 1) as nat, n as nat);
        } else {
            vstd::arithmetic::div_mod::lemma_mod_self_0(n);
        }
        if a.active > 0 {
            vstd::arithmetic::div_mod::lemma_small_mod((a.active - 1) as nat, n as nat);
        } else {
            vstd::arithmetic::div_mod::lemma_mod_add_multiples_vanish(-1, n);
            vstd::arithmetic::div_mod::lemma_small_mod((n - 1) as nat, n as nat);
            assert(n + -1 == n - 1);
        }
    }
}

/// A text that is typed stands in the cell under the cursor and every other cell keeps
/// its text; the sheet is what a recalculation makes of it, it is marked as changed, and
/// neither the cursor nor any other sheet changes. An unchanged text changes nothing.
pub proof fn typing_edits_one_cell(m: NumModel, a: AppV, cur: Seq<char>, v: Seq<char>)
    requires
        a.inv(),
        a.on_cell(),
    ensures
        ({
            let b = a.typed(m, cur, v);
            let typed = a.sheet().with_raw(a.cur_row, a.cur_col, v);
            &&& v == cur ==> b == a
            &&& v != cur ==> {
                &&& b.dirty
                &&& b.sheet() == recalculated(m, typed)
                &&& b.sheet().cell(a.cur_row, a.cur_col).raw == v
                &&& forall|r: u32, c: u32|
                    (r, c) != (a.cur_row, a.cur_col) ==> (#[trigger] b.sheet().cell(r, c)).raw
                        == a.sheet().cell(r, c).raw
                &&& b.cur_row == a.cur_row && b.cur_col == a.cur_col && b.active == a.active
                &&& b.sheets.len() == a.sheets.len()
                &&& forall|i: int|
                    0 <= i < a.sheets.len() && i != a.active ==> #[trigger] b.sheets[i]
                        == a.sheets[i]
            }
        }),
{
    if v != cur {
        let typed = a.sheet().with_raw(a.cur_row, a.cur_col, v);
        typing_reads_back(a.sheet(), a.cur_row, a.cur_col, v);
        recalc_keeps(m, typed);
        let b = a.typed(m, cur, v);
        assert(b.sheet() == recalculated(m, typed));
        assert forall|r: u32, c: u32|
            (r, c) != (a.cur_row, a.cur_col) implies (#[trigger] b.sheet().cell(r, c)).raw
            == a.sheet().cell(r, c).raw by {
            assert(typed.cell(r, c) == a.sheet().cell(r, c));
        }
    }
}

/// The keys that edit: `u` undoes, and `d` clears the cell under the cursor, which then
/// has no text, or nothing where it had none.
pub proof fn keys_edit(m: NumModel, a: AppV)
    requires
        a.inv(),
    ensures
        ({
            let quiet = AppV { status: Seq::empty(), ..a };
            let (b, x) = pressed(m, a, "d"@);
            &&& x == Action::Nothing
            &&& pressed(m, a, "DEL"@) == pressed(m, a, "d"@)
            &&& pressed(m, a, "u"@) == (quiet.undone(), Action::Nothing)
            &&& a.raw().len() == 0 ==> b == quiet
            &&& a.raw().len() > 0 && a.on_cell() ==> b.sheet().cell(a.cur_row, a.cur_col).raw.len()
                == 0 && b.dirty && b.cur_row == a.cur_row && b.cur_col == a.cur_col
        }),
{
    key_names();
    let quiet = AppV { status: Seq::empty(), ..a };
    if a.raw().len() == 0 {
        assert(a.raw() =~= Seq::<char>::empty());
    } else if a.on_cell() {
        typing_edits_one_cell(m, quiet, quiet.raw(), Seq::empty());
    }
}

/// What undoing brings back: the sheet that was remembered last, under its number, or
/// under the last there is, with the cursor no further out than the keys can move it.
/// Without such a sheet nothing changes but the status message.
pub proof fn undo_takes_the_last(a: AppV)
    requires
        a.inv(),
    ensures
        a.undo.len() == 0 ==> a.undone() == (AppV { status: "Nothing to undo"@, ..a }),
        a.undo.len() > 0 ==> {
            let b = a.undone();
            &&& a.undo.last().0 < a.sheets.len() ==> b.active == a.undo.last().0
            &&& a.undo.last().0 >= a.sheets.len() ==> b.active == a.sheets.len() - 1
            &&& b.sheet() == a.undo.last().1
            &&& b.undo == a.undo.take(a.undo.len() - 1)
            &&& b.dirty
            &&& b.status == "Undone"@
            &&& b.cur_row == if a.cur_row <= b.sheet().nrows {
                a.cur_row
            } else {
                b.sheet().nrows
            }
            &&& b.cur_col == if a.cur_col <= b.sheet().ncols {
                a.cur_col
            } else {
                b.sheet().ncols
            }
            &&& b.top_row == a.top_row && b.top_col == a.top_col
            &&& b.sheets.len() == a.sheets.len()
            &&& forall|i: int|
                0 <= i < a.sheets.len() && i != b.active ==> #[trigger] b.sheets[i] == a.sheets[i]
        },
{
    if a.undo.len() > 0 {
        assert(a.undone().undo =~= a.undo.take(a.undo.len() - 1));
    }
}

/// An AI edit that gives CSV replaces the texts of the active sheet by its fields, under
/// the name the sheet had, and shows its beginning; one that does not changes nothing
/// but the status message.
pub proof fn replies_replace_the_sheet(m: NumModel, a: AppV, text: Seq<char>, why: Seq<char>)
    requires
        a.inv(),
        csv_of_reply(text) matches Some(body) ==> csv_fits(body),
    ensures
        a.replied(m, Err(why)) == (AppV { status: "AI: "@ + why, ..a }),
        csv_of_reply(text) is None ==> a.replied(m, Ok(text)) == (AppV {
            status: "AI: no usable CSV in the reply"@,
            ..a
        }),
        csv_of_reply(text) matches Some(body) ==> {
            let b = a.replied(m, Ok(text));
            &&& b.sheet().name == a.sheet().name
            &&& b.dirty
            &&& b.top_row == 0 && b.top_col == 0
            &&& b.status == "AI edit applied"@
            &&& b.active == a.active
            &&& forall|r: u32, c: u32|
                (#[trigger] b.sheet().cell(r, c)).raw == if csv_cells(body).contains_key((r, c)) {
                    csv_cells(body)[(r, c)].raw
                } else {
                    Seq::empty()
                }
        },
{
    if let Some(body) = csv_of_reply(text) {
        csv_sheet_has_cells(a.sheet().name, body);
        let sheet = sheet_with(a.sheet().name, csv_cells(body));
        recalc_keeps(m, sheet);
        let b = a.replied(m, Ok(text));
        assert(b.sheet() == recalculated(m, sheet));
        assert forall|r: u32, c: u32|
            (#[trigger] b.sheet().cell(r, c)).raw == if csv_cells(body).contains_key((r, c)) {
                csv_cells(body)[(r, c)].raw
            } else {
                Seq::empty()
            } by {
            assert(recalculated(m, sheet).cell(r, c).raw == sheet.cell(r, c).raw);
        }
    }
}

/// A book that was saved has no changes to lose, one that could not be saved keeps them;
/// the status message says which, and nothing else changes.
pub proof fn saving_is_told(a: AppV, path: Seq<char>, why: Seq<char>)
    ensures
        a.saved(Ok(()), path) == (AppV { dirty: false, status: "Saved "@ + path, ..a }),
        a.saved(Err(why), path) == (AppV { status: "Save failed: "@ + why, ..a }),
{
}

/// Remembering a sheet makes the stack one longer, up to a hundred. The last entry is
/// the active sheet with its number, the entries before it are the earlier ones in
/// their order, but for the oldest where the stack was full, and nothing else
/// changes.
pub proof fn sheets_are_remembered(a: AppV)
    requires
        a.inv(),
    ensures
        ({
            let b = a.noted();
            let dropped: int = if a.undo.len() == UNDO_CAP {
                1
            } else {
                0
            };
            &&& b.undo.len() == a.undo.len() + 1 - dropped
            &&& b.undo.len() <= UNDO_CAP
            &&& b.undo.len() <= 100
            &&& a.undo.len() < 100 ==> dropped == 0
            &&& b.undo.last() == (a.active, a.sheet())
            &&& forall|i: int|
                0 <= i < b.undo.len() - 1 ==> #[trigger] b.undo[i] == a.undo[i + dropped]
            &&& b == (AppV { undo: b.undo, ..a })
        }),
{
}

/// The colours typed for a cell are offered again under the same numbers, and typing
/// what is offered leaves them.
pub proof fn offered_colors_are_kept(a: AppV, input: Seq<char>)
    requires
        a.inv(),
        a.on_cell(),
    ensures
        ({
            let b = a.colored(input);
            let c = b.colored(b.offered_colors());
            let (x, y) = (
                b.sheet().cell(a.cur_row, a.cur_col),
                c.sheet().cell(a.cur_row, a.cur_col),
            );
            let (fg, bg) = colors_of(input);
            &&& colors_of(b.offered_colors()) == (fg, bg)
            &&& place_or_none(x.fg) == fg && place_or_none(x.bg) == bg
            &&& x.fg == y.fg && x.bg == y.bg
        }),
{
    let (fg, bg) = colors_of(input);
    let b = a.colored(input);
    color_spec_reads_back(fg, bg);
    nothing_typed_clears();
    let cell = b.sheet().cell(a.cur_row, a.cur_col);
    assert(cell.fg == palette_or_none(fg) && cell.bg == palette_or_none(bg));
}

/// Every change of the sheet can be undone: a text typed into a cell, a cell
/// cleared, a cell coloured, a sheet replaced by an AI edit.
pub proof fn every_edit_can_be_undone(
    m: NumModel,
    a: AppV,
    cur: Seq<char>,
    v: Seq<char>,
    colors: Seq<char>,
    reply: Seq<char>,
)
    requires
        a.inv(),
    ensures
        v != cur ==> a.typed(m, cur, v).undone().sheets == a.sheets,
        a.raw().len() > 0 ==> a.cleared(m).undone().sheets == a.sheets,
        a.colored(colors).undone().sheets == a.sheets,
        csv_of_reply(reply) is Some ==> a.replied(m, Ok(reply)).undone().sheets == a.sheets,
{
    undo_restores(a, recalculated(m, a.sheet().with_raw(a.cur_row, a.cur_col, v)));
    undo_restores(a, recalculated(m, a.sheet().with_raw(a.cur_row, a.cur_col, Seq::empty())));
    let (fg, bg) = colors_of(colors);
    undo_restores(
        a,
        a.sheet().with_colors(a.cur_row, a.cur_col, palette_or_none(fg), palette_or_none(bg)),
    );
    if let Some(body) = csv_of_reply(reply) {
        let sheet = recalculated(m, sheet_with(a.sheet().name, csv_cells(body)));
        let b = a.replied(m, Ok(reply));
        undo_restores(a, sheet);
        assert(b.undone().sheets =~= a.edited_to(sheet).undone().sheets);
    }
}

/// Going round the sheets one way and back leads to the same sheet.
pub proof fn switching_back(a: AppV, delta: int)
    requires
        a.inv(),
        a.sheets.len() <= usize::MAX,
    ensures
        a.switched(delta).switched(-delta).active == a.active,
{
    let n = a.sheets.len() as int;
    if n > 1 {
        let there = (a.active + delta) % n;
        wraps(a.active as int, delta, n);
        vstd::arithmetic::div_mod::lemma_add_mod_noop(a.active + delta, -delta, n);
        vstd::arithmetic::div_mod::lemma_add_mod_noop(there, -delta, n);
        assert(there % n == there) by {
            vstd::arithmetic::div_mod::lemma_small_mod(there as nat, n as nat);
        }
        assert((there + (-delta)) % n == a.active as int % n);
        vstd::arithmetic::div_mod::lemma_small_mod(a.active as nat, n as nat);
    }
}

/// The question whether to save before the end has three answers, and the keys y, n and
/// escape give them, letters in either case; any other key leaves the question open.
pub proof fn questions_are_answered(key: Seq<char>)
    ensures
        answered("y"@) == Some(Answer::Save),
        answered("Y"@) == Some(Answer::Save),
        answered("n"@) == Some(Answer::Discard),
        answered("N"@) == Some(Answer::Discard),
        answered("ESC"@) == Some(Answer::Cancel),
        key != "y"@ && key != "Y"@ && key != "n"@ && key != "N"@ && key != "ESC"@
            ==> answered(key) is None,
{
    reveal_strlit("y");
    reveal_strlit("Y");
    reveal_strlit("n");
    reveal_strlit("N");
    reveal_strlit("ESC");
    assert("y"@[0] == 'y' && "Y"@[0] == 'Y' && "n"@[0] == 'n' && "N"@[0] == 'N');
    assert("y"@.len() == 1 && "Y"@.len() == 1 && "n"@.len() == 1 && "N"@.len() == 1);
    assert("ESC"@.len() == 3);
}

} // verus!
