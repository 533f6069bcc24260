//! What the screen shows.

use vstd::prelude::*;

use crate::colors::{color_spec, palette_place, place_or_none, spec_text};
use crate::decimal::{decimal, decimal_of, decimal_short};
use crate::fit::{
    center, centered, coded, coded_text, fit_cell, fitted, push_right, push_run, right_aligned,
    run_of,
};
use crate::model::{Color, Value};
use crate::num::{Bits, NumModel, Numerics, Op};
use crate::refs::{cell_ref, col_name, column_letters, reference_text};
use crate::text::{push_chars, push_text, string_of};
use crate::view::{App, AppV, COL_W};

verus! {

// ---- geometry -------------------------------------------------------------

/// The greater of two numbers.
pub open spec fn greatest(a: int, b: int) -> int {
    if a < b {
        b
    } else {
        a
    }
}

/// The width of the column of row numbers.
pub open spec fn gutter_width(a: AppV) -> int {
    let last = greatest(a.sheet().nrows as int, a.cur_row + 1);
    greatest(decimal(last as nat).len() as int + 1, 4)
}

/// How many columns of the sheet are visible.
pub open spec fn visible_cols(a: AppV) -> int {
    greatest(greatest(a.term_w - gutter_width(a), 0) / COL_W as int, 1)
}

/// The first visible row or column: moved no more than it takes for the cursor to
/// be one of the `n` visible ones.
pub open spec fn scroll(cur: u32, top: u32, n: int) -> u32 {
    if cur < top {
        cur
    } else if cur >= top + n {
        (cur + 1 - n) as u32
    } else {
        top
    }
}

/// The state with the visible window moved to the cursor.
pub open spec fn scrolled(a: AppV) -> AppV {
    AppV {
        top_row: scroll(a.cur_row, a.top_row, a.data_rows()),
        top_col: scroll(a.cur_col, a.top_col, visible_cols(a)),
        ..a
    }
}

/// The cursor is on a cell with a number, and so is every visible row and column.
pub open spec fn is_showable(a: AppV) -> bool {
    let b = scrolled(a);
    &&& a.on_cell()
    &&& b.top_row + a.data_rows() <= u32::MAX
    &&& b.top_col + visible_cols(a) <= u32::MAX
}

/// After scrolling, the cursor is visible, as long as there is a row for data.
pub proof fn cursor_visible(a: AppV)
    requires
        a.inv(),
        a.on_cell(),
        a.data_rows() > 0,
    ensures
        ({
            let b = scrolled(a);
            &&& b.top_row <= b.cur_row < b.top_row + b.data_rows()
            &&& b.top_col <= b.cur_col < b.top_col + visible_cols(b)
        }),
{
}

fn scroll_to(cur: u32, top: u32, n: usize) -> (r: u32)
    requires
        cur < u32::MAX,
    ensures
        r == scroll(cur, top, n as int),
{
    if cur < top {
        cur
    } else if (cur - top) as u64 >= n as u64 {
        if n == 0 {
            cur + 1
        } else {
            cur - (n - 1) as u32
        }
    } else {
        top
    }
}

impl App {
    /// Gutter (row-number column) width, stable across small scrolls.
    pub fn gutter(&self) -> (n: usize)
        requires
            self@.inv(),
            self@.on_cell(),
        ensures
            n == gutter_width(self@),
            4 <= n,
    {
        let nrows: u32 = self.book.sheet().nrows;
        let last: u32 = if nrows < self.cur_row + 1 {
            self.cur_row + 1
        } else {
            nrows
        };
        let digits: usize = decimal_of(last as u64).len();
        proof {
            decimal_short(last as nat);
        }
        if digits < 3 {
            4
        } else {
            digits + 1
        }
    }

    /// Visible column count given the gutter and fixed column width.
    pub fn vis_cols(&self) -> (n: usize)
        requires
            self@.inv(),
            self@.on_cell(),
        ensures
            n == visible_cols(self@),
            1 <= n <= 65536,
    {
        let gutter: usize = self.gutter();
        let w: usize = self.term_w as usize;
        let avail: usize = if gutter < w {
            w - gutter
        } else {
            0
        };
        let n: usize = avail / COL_W;
        if n < 1 {
            1
        } else {
            n
        }
    }

    /// Keeps the cursor inside the visible window.
    pub fn clamp_scroll(&mut self)
        requires
            old(self)@.inv(),
            old(self)@.on_cell(),
        ensures
            final(self)@ == scrolled(old(self)@),
            final(self)@.inv(),
            final(self).book == old(self).book,
    {
        let rows: usize = self.data_rows();
        let cols: usize = self.vis_cols();
        self.top_row = scroll_to(self.cur_row, self.top_row, rows);
        self.top_col = scroll_to(self.cur_col, self.top_col, cols);
    }

    /// Whether the visible rows and columns all have numbers.
    pub fn showable(&self) -> (r: bool)
        requires
            self@.inv(),
        ensures
            r == is_showable(self@),
    {
        if self.cur_row == u32::MAX || self.cur_col == u32::MAX {
            return false;
        }
        let rows: usize = self.data_rows();
        let cols: usize = self.vis_cols();
        let top_row: u32 = scroll_to(self.cur_row, self.top_row, rows);
        let top_col: u32 = scroll_to(self.cur_col, self.top_col, cols);
        rows as u64 <= (u32::MAX - top_row) as u64 && cols as u64 <= (u32::MAX - top_col) as u64
    }
}

// ---- contents -------------------------------------------------------------

/// The texts of the bar at the top, the grid and the bar at the bottom.
pub struct Frame {
    pub top: String,
    pub body: String,
    pub foot: String,
}

/// The name and the number of the active sheet, where there is more than one.
pub open spec fn sheet_tag(a: AppV) -> Seq<char> {
    if a.sheets.len() > 1 {
        "  ["@ + a.sheet().name + seq![' '] + decimal((a.active + 1) as nat) + seq!['/'] + decimal(
            a.sheets.len(),
        ) + seq![']']
    } else {
        Seq::empty()
    }
}

/// The bar at the top: the cell under the cursor and its text.
pub open spec fn top_text(a: AppV) -> Seq<char> {
    coded_text(reference_text(a.cur_row as nat, a.cur_col as nat), ",,b"@) + (if a.dirty {
        " [+]"@
    } else {
        Seq::empty()
    }) + sheet_tag(a) + "  "@ + a.raw()
}

/// The column names, the first `n` of them.
pub open spec fn header_text(a: AppV, n: nat) -> Seq<char>
    decreases n,
{
    if n == 0 {
        run_of(' ', gutter_width(a) as nat)
    } else {
        let c = (a.top_col + n - 1) as u32;
        header_text(a, (n - 1) as nat) + coded_text(
            centered(column_letters(c as nat), COL_W as nat),
            if c == a.cur_col {
                "11,,b"@
            } else {
                ",,b"@
            },
        )
    }
}

/// How a cell is drawn.
pub enum Look {
    /// As it is.
    Plain,
    /// As a solid bar of a style, since a background over pure whitespace has no
    /// glyph to anchor it.
    Bar(String),
    /// In a style.
    Styled(String),
}

/// How a cell is drawn, with its style as a character sequence.
pub enum LookV {
    Plain,
    Bar(Seq<char>),
    Styled(Seq<char>),
}

impl View for Look {
    type V = LookV;

    open spec fn view(&self) -> LookV {
        match self {
            Look::Plain => LookV::Plain,
            Look::Bar(s) => LookV::Bar(s@),
            Look::Styled(s) => LookV::Styled(s@),
        }
    }
}

/// How a cell is drawn: the one under the cursor black on white, a coloured one in
/// its colours.
pub open spec fn look_of(
    under_cursor: bool,
    is_empty: bool,
    fg: Option<Color>,
    bg: Option<Color>,
) -> LookV {
    if under_cursor {
        if is_empty {
            LookV::Bar("15"@)
        } else {
            LookV::Styled("0,15"@)
        }
    } else if fg is None && bg is None {
        LookV::Plain
    } else if is_empty {
        match place_or_none(bg) {
            Some(n) => LookV::Bar(decimal(n as nat)),
            None => LookV::Plain,
        }
    } else {
        LookV::Styled(spec_text(place_or_none(fg), place_or_none(bg)))
    }
}

/// A cell as it is drawn.
pub open spec fn drawn(look: LookV, cell: Seq<char>) -> Seq<char> {
    match look {
        LookV::Plain => cell,
        LookV::Bar(style) => coded_text(run_of('\u{2588}', COL_W as nat), style),
        LookV::Styled(style) => coded_text(cell, style),
    }
}

/// A cell of the grid.
pub open spec fn cell_text(m: NumModel, a: AppV, r: u32, c: u32) -> Seq<char> {
    let cell = a.sheet().cell(r, c);
    drawn(
        look_of(r == a.cur_row && c == a.cur_col, cell.value is Empty, cell.fg, cell.bg),
        fitted(m, cell.value, COL_W as nat),
    )
}

/// The number of a row.
pub open spec fn row_label(a: AppV, r: u32) -> Seq<char> {
    let label = right_aligned(decimal((r + 1) as nat), (gutter_width(a) - 1) as nat) + seq![' '];
    if r == a.cur_row {
        coded_text(label, "11,,b"@)
    } else {
        label
    }
}

/// A row of the grid: its number and its first `n` visible cells.
pub open spec fn line_text(m: NumModel, a: AppV, r: u32, n: nat) -> Seq<char>
    decreases n,
{
    if n == 0 {
        row_label(a, r)
    } else {
        line_text(m, a, r, (n - 1) as nat) + cell_text(m, a, r, (a.top_col + n - 1) as u32)
    }
}

/// The grid: the column names and the first `n` visible rows, a line each.
pub open spec fn grid_text(m: NumModel, a: AppV, n: nat) -> Seq<char>
    decreases n,
{
    if n == 0 {
        header_text(a, visible_cols(a) as nat) + seq!['\n']
    } else {
        grid_text(m, a, (n - 1) as nat) + (if n > 1 {
            seq!['\n']
        } else {
            Seq::empty()
        }) + line_text(m, a, (a.top_row + n - 1) as u32, visible_cols(a) as nat)
    }
}

/// The bar at the bottom: the status message, or the keys.
pub open spec fn foot_text(a: AppV, version: Seq<char>) -> Seq<char> {
    if a.status.len() == 0 {
        " hjkl/\u{2191}\u{2193} move  Enter edit  = formula  c AI  C colour  u undo  d clear  Tab sheet  s save  q quit   grid "@
            + version
    } else {
        seq![' '] + a.status
    }
}

// ---- laws -----------------------------------------------------------------

/// Texts one after the other.
pub open spec fn in_a_row(parts: Seq<Seq<char>>) -> Seq<char>
    decreases parts.len(),
{
    if parts.len() == 0 {
        Seq::empty()
    } else {
        in_a_row(parts.drop_last()) + parts.last()
    }
}

/// Texts below each other, a line feed between.
pub open spec fn below_each_other(parts: Seq<Seq<char>>) -> Seq<char>
    decreases parts.len(),
{
    if parts.len() == 0 {
        Seq::empty()
    } else if parts.len() == 1 {
        parts[0]
    } else {
        below_each_other(parts.drop_last()) + seq!['\n'] + parts.last()
    }
}

/// The k-th line of the grid, below the column names, is that of the sheet's row
/// `top_row + k`.
pub proof fn lines_are_rows(m: NumModel, a: AppV, n: nat)
    ensures
        grid_text(m, a, n) == header_text(a, visible_cols(a) as nat) + seq!['\n']
            + below_each_other(
            Seq::new(
                n,
                |k: int| line_text(m, a, (a.top_row + k) as u32, visible_cols(a) as nat),
            ),
        ),
    decreases n,
{
    let line = |k: int| line_text(m, a, (a.top_row + k) as u32, visible_cols(a) as nat);
    let head = header_text(a, visible_cols(a) as nat) + seq!['\n'];
    let all = Seq::new(n, line);
    if n == 0 {
        assert(head + below_each_other(all) =~= head);
    } else {
        lines_are_rows(m, a, (n - 1) as nat);
        let init = Seq::new((n - 1) as nat, line);
        assert(all.drop_last() =~= init);
        assert((a.top_row + n - 1) as u32 == (a.top_row + (n - 1)) as u32);
        if n == 1 {
            assert(below_each_other(init) =~= Seq::<char>::empty());
            assert(grid_text(m, a, n) =~= head + below_each_other(all));
        } else {
            assert(grid_text(m, a, n) =~= head + (below_each_other(init) + seq!['\n']
                + all.last()));
        }
    }
}

/// A line of the grid is the number of its row, counted from one, at the right of the
/// gutter, and behind it the cells of the row from the first visible column on.
pub proof fn lines_are_cells(m: NumModel, a: AppV, r: u32, n: nat)
    ensures
        line_text(m, a, r, n) == row_label(a, r) + in_a_row(
            Seq::new(n, |k: int| cell_text(m, a, r, (a.top_col + k) as u32)),
        ),
        ({
            let digits = decimal((r + 1) as nat);
            let w = gutter_width(a) - 1;
            let label = run_of(
                ' ',
                (if digits.len() < w {
                    w - digits.len()
                } else {
                    0
                }) as nat,
            ) + digits + seq![' '];
            row_label(a, r) == if r == a.cur_row {
                coded_text(label, "11,,b"@)
            } else {
                label
            }
        }),
    decreases n,
{
    let cell = |k: int| cell_text(m, a, r, (a.top_col + k) as u32);
    let all = Seq::new(n, cell);
    if n == 0 {
        assert(row_label(a, r) + in_a_row(all) =~= row_label(a, r));
    } else {
        lines_are_cells(m, a, r, (n - 1) as nat);
        let init = Seq::new((n - 1) as nat, cell);
        assert(all.drop_last() =~= init);
        assert((a.top_col + n - 1) as u32 == (a.top_col + (n - 1)) as u32);
        assert(line_text(m, a, r, n) =~= row_label(a, r) + (in_a_row(init) + all.last()));
    }
}

/// The column names stand above their columns: behind the gutter the letters of each
/// visible column, in the middle of its width, that of the cursor in another style.
pub proof fn names_stand_above(a: AppV, n: nat)
    ensures
        header_text(a, n) == run_of(' ', gutter_width(a) as nat) + in_a_row(
            Seq::new(
                n,
                |k: int|
                    {
                        let c = (a.top_col + k) as u32;
                        coded_text(
                            centered(column_letters(c as nat), 10),
                            if c == a.cur_col {
                                "11,,b"@
                            } else {
                                ",,b"@
                            },
                        )
                    },
            ),
        ),
    decreases n,
{
    let name = |k: int|
        {
            let c = (a.top_col + k) as u32;
            coded_text(
                centered(column_letters(c as nat), 10),
                if c == a.cur_col {
                    "11,,b"@
                } else {
                    ",,b"@
                },
            )
        };
    let all = Seq::new(n, name);
    let gap = run_of(' ', gutter_width(a) as nat);
    if n == 0 {
        assert(gap + in_a_row(all) =~= gap);
    } else {
        names_stand_above(a, (n - 1) as nat);
        let init = Seq::new((n - 1) as nat, name);
        assert(all.drop_last() =~= init);
        assert((a.top_col + n - 1) as u32 == (a.top_col + (n - 1)) as u32);
        assert(header_text(a, n) =~= gap + (in_a_row(init) + all.last()));
    }
}

/// What stands in a cell of the grid: the value of that row and column, fitted to the
/// width of a column; under the cursor black on white, or a white bar where it is blank;
/// elsewhere in the colours of the cell, or a bar of its background where it is blank.
pub proof fn cells_show_values(m: NumModel, a: AppV, r: u32, c: u32)
    ensures
        ({
            let cell = a.sheet().cell(r, c);
            let text = fitted(m, cell.value, 10);
            let bar = run_of('\u{2588}', 10);
            let drawn = cell_text(m, a, r, c);
            let blank = cell.value is Empty;
            let here = r == a.cur_row && c == a.cur_col;
            &&& here && !blank ==> drawn == coded_text(text, "0,15"@)
            &&& here && blank ==> drawn == coded_text(bar, "15"@)
            &&& !here && cell.fg is None && cell.bg is None ==> drawn == text
            &&& !here && blank && cell.bg is None ==> drawn == text
            &&& !here && blank && cell.bg is Some ==> drawn == coded_text(
                bar,
                decimal(place_or_none(cell.bg)->0 as nat),
            )
            &&& !here && !blank && (cell.fg is Some || cell.bg is Some) ==> drawn == coded_text(
                text,
                spec_text(place_or_none(cell.fg), place_or_none(cell.bg)),
            )
        }),
{
}

/// After scrolling, the grid shows the row of the cursor, at the line that is as far
/// below the first as the row is, and the column of the cursor is among those shown.
pub proof fn cursor_is_drawn(m: NumModel, a: AppV)
    requires
        a.inv(),
        is_showable(a),
        a.data_rows() > 0,
    ensures
        ({
            let b = scrolled(a);
            let n = b.data_rows() as nat;
            let lines = Seq::new(
                n,
                |k: int| line_text(m, b, (b.top_row + k) as u32, visible_cols(b) as nat),
            );
            let (k, j) = (b.cur_row - b.top_row, b.cur_col - b.top_col);
            &&& b.cur_row == a.cur_row && b.cur_col == a.cur_col
            &&& grid_text(m, b, n) == header_text(b, visible_cols(b) as nat) + seq!['\n']
                + below_each_other(lines)
            &&& 0 <= k < lines.len()
            &&& lines[k] == line_text(m, b, a.cur_row, visible_cols(b) as nat)
            &&& 0 <= j < visible_cols(b)
        }),
{
    cursor_visible(a);
    lines_are_rows(m, scrolled(a), scrolled(a).data_rows() as nat);
}

/// Scrolling moves no further than it has to: not at all where the cursor is visible,
/// and else so that it is in the first or the last visible row or column.
pub proof fn scrolling_is_least(a: AppV)
    requires
        a.inv(),
        a.on_cell(),
        a.term_h > 3,
    ensures
        ({
            let b = scrolled(a);
            let (rows, cols) = (a.term_h - 3, visible_cols(a));
            &&& a.top_row <= a.cur_row < a.top_row + rows ==> b.top_row == a.top_row
            &&& a.cur_row < a.top_row ==> b.top_row == a.cur_row
            &&& a.cur_row >= a.top_row + rows ==> b.top_row + rows - 1 == a.cur_row
            &&& a.top_col <= a.cur_col < a.top_col + cols ==> b.top_col == a.top_col
            &&& a.cur_col < a.top_col ==> b.top_col == a.cur_col
            &&& a.cur_col >= a.top_col + cols ==> b.top_col + cols - 1 == a.cur_col
            &&& b == (AppV { top_row: b.top_row, top_col: b.top_col, ..a })
        }),
{
}

/// The gutter has room for the number of every row of the sheet and that of the cursor,
/// and a space, and is no wider than that takes, or four. As many columns of ten
/// characters are visible as fit beside it, but always one.
pub proof fn columns_fit(a: AppV)
    requires
        a.inv(),
        a.on_cell(),
    ensures
        ({
            let g = gutter_width(a);
            let n = visible_cols(a);
            let last = if a.sheet().nrows > a.cur_row + 1 {
                a.sheet().nrows as int
            } else {
                a.cur_row + 1
            };
            let digits = decimal(last as nat).len();
            &&& g >= 4
            &&& g > digits
            &&& g == 4 || g == digits + 1
            &&& n >= 1
            &&& n > 1 ==> g + 10 * n <= a.term_w
            &&& g + 10 * (n + 1) > a.term_w
        }),
{
}

/// The bar at the top: the name of the cell under the cursor and its text; a mark where
/// there are changes to lose; and the name and number of the sheet where there are
/// several.
pub proof fn bar_names_the_cell(a: AppV)
    ensures
        ({
            let name = coded_text(reference_text(a.cur_row as nat, a.cur_col as nat), ",,b"@);
            let raw = a.sheet().cell(a.cur_row, a.cur_col).raw;
            let mark = if a.dirty {
                " [+]"@
            } else {
                Seq::empty()
            };
            let tag = if a.sheets.len() > 1 {
                "  ["@ + a.sheet().name + seq![' '] + decimal((a.active + 1) as nat) + seq!['/']
                    + decimal(a.sheets.len()) + seq![']']
            } else {
                Seq::empty()
            };
            top_text(a) == name + mark + tag + "  "@ + raw
        }),
        forall|version: Seq<char>|
            a.status.len() > 0 ==> #[trigger] foot_text(a, version) == seq![' '] + a.status,
{
}

/// How a cell is drawn.
pub fn cell_look(under_cursor: bool, is_empty: bool, fg: Option<Color>, bg: Option<Color>) -> (look:
    Look)
    ensures
        look@ == look_of(under_cursor, is_empty, fg, bg),
{
    if under_cursor {
        if is_empty {
            Look::Bar("15".to_owned())
        } else {
            Look::Styled("0,15".to_owned())
        }
    } else if fg.is_none() && bg.is_none() {
        Look::Plain
    } else if is_empty {
        match palette_place(bg) {
            Some(n) => Look::Bar(string_of(decimal_of(n as u64).as_slice())),
            None => Look::Plain,
        }
    } else {
        Look::Styled(color_spec(palette_place(fg), palette_place(bg)))
    }
}

impl App {
    fn top_line(&self) -> (s: String)
        requires
            self@.inv(),
            self@.on_cell(),
        ensures
            s@ == top_text(self@),
    {
        let mut out: Vec<char> = Vec::new();
        let cref = cell_ref(self.cur_row, self.cur_col);
        push_text(&mut out, coded(cref.as_str(), ",,b").as_str());
        if self.book.dirty {
            push_text(&mut out, " [+]");
        }
        let n: usize = self.book.sheets.len();
        if n > 1 {
            push_text(&mut out, "  [");
            push_text(&mut out, self.book.sheet().name.as_str());
            out.push(' ');
            push_chars(&mut out, decimal_of(self.book.active as u64 + 1).as_slice());
            out.push('/');
            push_chars(&mut out, decimal_of(n as u64).as_slice());
            out.push(']');
        }
        push_text(&mut out, "  ");
        push_text(&mut out, self.raw());
        assert(out@ =~= top_text(self@));
        string_of(out.as_slice())
    }

    fn push_header(&self, out: &mut Vec<char>, gutter: usize, cols: usize)
        requires
            self@.inv(),
            gutter == gutter_width(self@),
            self@.top_col + cols <= u32::MAX,
        ensures
            final(out)@ == old(out)@ + header_text(self@, cols as nat),
    {
        let ghost before = out@;
        push_run(out, ' ', gutter);
        let mut k: usize = 0;
        while k < cols
            invariant
                k <= cols,
                self@.top_col + cols <= u32::MAX,
                out@ == before + header_text(self@, k as nat),
            decreases cols - k,
        {
            let c: u32 = self.top_col + k as u32;
            let name = center(col_name(c).as_str(), COL_W);
            let style = if c == self.cur_col {
                "11,,b"
            } else {
                ",,b"
            };
            push_text(out, coded(name.as_str(), style).as_str());
            k = k + 1;
            assert(out@ =~= before + header_text(self@, k as nat));
        }
    }

    fn push_cell<P: Fn(&str) -> Option<Bits>, S: Fn(Bits) -> String, C: Fn(Op, Bits, Bits) -> Bits>(
        &self,
        numerics: &Numerics<P, S, C>,
        out: &mut Vec<char>,
        r: u32,
        c: u32,
    )
        requires
            numerics.valid(),
            self@.inv(),
        ensures
            final(out)@ == old(out)@ + cell_text(numerics.model(), self@, r, c),
    {
        let sheet = self.book.sheet();
        let val = sheet.value(r, c);
        let (fg, bg) = sheet.colors(r, c);
        let is_empty: bool = match &val {
            Value::Empty => true,
            _ => false,
        };
        match cell_look(r == self.cur_row && c == self.cur_col, is_empty, fg, bg) {
            Look::Plain => {
                push_text(out, fit_cell(numerics, &val, COL_W).as_str());
            },
            Look::Bar(style) => {
                let mut bar: Vec<char> = Vec::new();
                push_run(&mut bar, '\u{2588}', COL_W);
                assert(bar@ =~= run_of('\u{2588}', COL_W as nat));
                push_text(out, coded(string_of(bar.as_slice()).as_str(), style.as_str()).as_str());
            },
            Look::Styled(style) => {
                let cell = fit_cell(numerics, &val, COL_W);
                push_text(out, coded(cell.as_str(), style.as_str()).as_str());
            },
        }
    }

    fn push_line<P: Fn(&str) -> Option<Bits>, S: Fn(Bits) -> String, C: Fn(Op, Bits, Bits) -> Bits>(
        &self,
        numerics: &Numerics<P, S, C>,
        out: &mut Vec<char>,
        r: u32,
        gutter: usize,
        cols: usize,
    )
        requires
            numerics.valid(),
            self@.inv(),
            gutter == gutter_width(self@),
            4 <= gutter,
            r < u32::MAX,
            self@.top_col + cols <= u32::MAX,
        ensures
            final(out)@ == old(out)@ + line_text(numerics.model(), self@, r, cols as nat),
    {
        let ghost before = out@;
        let mut label: Vec<char> = Vec::new();
        push_right(&mut label, decimal_of(r as u64 + 1).as_slice(), gutter - 1);
        label.push(' ');
        assert(label@ =~= right_aligned(
            decimal((r + 1) as nat),
            (gutter_width(self@) - 1) as nat,
        ) + seq![' ']);
        if r == self.cur_row {
            push_text(out, coded(string_of(label.as_slice()).as_str(), "11,,b").as_str());
        } else {
            push_chars(out, label.as_slice());
        }
        let mut k: usize = 0;
        while k < cols
            invariant
                numerics.valid(),
                self@.inv(),
                k <= cols,
                self@.top_col + cols <= u32::MAX,
                out@ == before + line_text(numerics.model(), self@, r, k as nat),
            decreases cols - k,
        {
            self.push_cell(numerics, out, r, self.top_col + k as u32);
            k = k + 1;
            assert(out@ =~= before + line_text(numerics.model(), self@, r, k as nat));
        }
    }

    fn grid<P: Fn(&str) -> Option<Bits>, S: Fn(Bits) -> String, C: Fn(Op, Bits, Bits) -> Bits>(
        &self,
        numerics: &Numerics<P, S, C>,
    ) -> (s: String)
        requires
            numerics.valid(),
            self@.inv(),
            self@.on_cell(),
            self@.top_row + self@.data_rows() <= u32::MAX,
            self@.top_col + visible_cols(self@) <= u32::MAX,
        ensures
            s@ == grid_text(numerics.model(), self@, self@.data_rows() as nat),
    {
        let gutter: usize = self.gutter();
        let cols: usize = self.vis_cols();
        let rows: usize = self.data_rows();
        let mut out: Vec<char> = Vec::new();
        self.push_header(&mut out, gutter, cols);
        out.push('\n');
        let mut k: usize = 0;
        assert(out@ =~= grid_text(numerics.model(), self@, 0));
        while k < rows
            invariant
                numerics.valid(),
                self@.inv(),
                gutter == gutter_width(self@),
                4 <= gutter,
                cols == visible_cols(self@),
                self@.top_row + rows <= u32::MAX,
                self@.top_col + cols <= u32::MAX,
                k <= rows,
                out@ == grid_text(numerics.model(), self@, k as nat),
            decreases rows - k,
        {
            if k > 0 {
                out.push('\n');
            }
            self.push_line(numerics, &mut out, self.top_row + k as u32, gutter, cols);
            k = k + 1;
            assert(out@ =~= grid_text(numerics.model(), self@, k as nat));
        }
        string_of(out.as_slice())
    }

    fn foot_line(&self, version: &str) -> (s: String)
        ensures
            s@ == foot_text(self@, version@),
    {
        let mut out: Vec<char> = Vec::new();
        if self.status.as_str().is_empty() {
            push_text(
                &mut out,
                " hjkl/\u{2191}\u{2193} move  Enter edit  = formula  c AI  C colour  u undo  d clear  Tab sheet  s save  q quit   grid ",
            );
            push_text(&mut out, version);
        } else {
            out.push(' ');
            push_text(&mut out, self.status.as_str());
        }
        assert(out@ =~= foot_text(self@, version@));
        string_of(out.as_slice())
    }

    /// What the screen shows. Scrolls to the cursor first.
    pub fn render<
        P: Fn(&str) -> Option<Bits>,
        S: Fn(Bits) -> String,
        C: Fn(Op, Bits, Bits) -> Bits,
    >(
        &mut self,
        numerics: &Numerics<P, S, C>,
        version: &str,
    ) -> (frame: Frame)
        requires
            numerics.valid(),
            old(self)@.inv(),
            is_showable(old(self)@),
        ensures
            final(self)@ == scrolled(old(self)@),
            final(self)@.inv(),
            final(self).book == old(self).book,
            frame.top@ == top_text(final(self)@),
            frame.body@ == grid_text(
                numerics.model(),
                final(self)@,
                final(self)@.data_rows() as nat,
            ),
            frame.foot@ == foot_text(final(self)@, version@),
    {
        self.clamp_scroll();
        Frame {
            top: self.top_line(),
            body: self.grid(numerics),
            foot: self.foot_line(version),
        }
    }
}

} // verus!
