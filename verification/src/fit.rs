//! Text fitted into the columns of a terminal.

use vstd::prelude::*;

use crate::decimal::{decimal, unsigned_value};
use crate::model::{display_text, Value, ValueV};
use crate::num::{Bits, NumModel, Numerics, Op};
use crate::text::{pieces, push_chars, push_text, string_of};

verus! {

/// The escape code of a colour: a place in the palette behind `prefix`, nothing
/// where the word is no such place.
pub open spec fn color_codes(prefix: Seq<char>, word: Seq<char>) -> Seq<Seq<char>> {
    match unsigned_value(word, 255) {
        Some(n) => seq![prefix + decimal(n)],
        None => Seq::empty(),
    }
}

/// The escape codes of attributes: bold, italic, underline, blink and reverse.
pub open spec fn attribute_codes(word: Seq<char>) -> Seq<Seq<char>>
    decreases word.len(),
{
    if word.len() == 0 {
        Seq::empty()
    } else {
        let before = attribute_codes(word.drop_last());
        match word.last() {
            'b' => before.push(seq!['1']),
            'i' => before.push(seq!['3']),
            'u' => before.push(seq!['4']),
            'l' => before.push(seq!['5']),
            'r' => before.push(seq!['7']),
            _ => before,
        }
    }
}

/// The escape codes of a style: a text colour, a background colour and attributes,
/// with commas between.
pub open spec fn style_codes(style: Seq<char>) -> Seq<Seq<char>> {
    let p = pieces(style, ',');
    color_codes("38;5;"@, p[0]) + (if p.len() > 1 {
        color_codes("48;5;"@, p[1])
    } else {
        Seq::empty()
    }) + (if p.len() > 2 {
        attribute_codes(p[2])
    } else {
        Seq::empty()
    })
}

/// The codes with semicolons between.
pub open spec fn joined_codes(codes: Seq<Seq<char>>) -> Seq<char>
    decreases codes.len(),
{
    if codes.len() == 0 {
        Seq::empty()
    } else if codes.len() == 1 {
        codes[0]
    } else {
        joined_codes(codes.drop_last()) + seq![';'] + codes.last()
    }
}

/// The escape sequence that resets colours and attributes.
pub open spec fn reset() -> Seq<char> {
    seq!['\x1b', '[', '0', 'm']
}

/// A text in a style: between the escape sequence of its codes and a reset, where
/// it has any.
pub open spec fn coded_text(text: Seq<char>, style: Seq<char>) -> Seq<char> {
    let codes = style_codes(style);
    if codes.len() == 0 {
        text
    } else {
        "\x1b["@ + joined_codes(codes) + seq!['m'] + text + reset()
    }
}

/// The number of columns that `crust::display_width` counts for a text.
pub uninterp spec fn shown_width(text: Seq<char>) -> nat;

/// The text that `crust::truncate_ansi` makes of a text for a number of columns.
pub uninterp spec fn truncated(text: Seq<char>, columns: nat) -> Seq<char>;

/// Whether a text has no escape sequence and no character that changes the width of
/// its neighbours: no escape, no zero width joiner and no emoji selector.
pub open spec fn is_simple(text: Seq<char>) -> bool {
    forall|i: int|
        0 <= i < text.len() ==> #[trigger] text[i] != '\x1b' && text[i] != '\u{200D}' && text[i]
            != '\u{FE0F}'
}

/// Whether a text is made of printable ASCII characters and ellipses, each of which
/// takes up one column.
pub open spec fn is_narrow(text: Seq<char>) -> bool {
    forall|i: int|
        0 <= i < text.len() ==> ' ' <= #[trigger] text[i] <= '~' || text[i] == '\u{2026}'
}

/// A text without the reset at its end.
pub open spec fn printed(text: Seq<char>) -> Seq<char> {
    if text.len() >= 4 && text.skip(text.len() - 4) == reset() {
        text.take(text.len() - 4)
    } else {
        text
    }
}

/// A text of narrow characters cut to a number of columns, with an ellipsis at its
/// end where that leaves room for more.
pub open spec fn cut(text: Seq<char>, columns: nat) -> Seq<char> {
    if text.len() <= columns {
        text
    } else if columns >= 2 {
        text.take(columns - 1).push('\u{2026}')
    } else {
        text.take(columns as int)
    }
}

/// `crust::style::coded` puts a text between the escape sequence of a style and a
/// reset. The style is "fg,bg,attributes", with palette numbers for colours and
/// letters for attributes; words that are neither are passed over, and a style
/// without codes leaves the text as it is.
#[verifier::external_body]
pub(crate) fn coded(text: &str, style: &str) -> (r: String)
    ensures
        r@ == coded_text(text@, style@),
{
    crust::style::coded(text, style)
}

/// `crust::display_width` counts the columns that a text takes up on the screen,
/// escape sequences left out. What it returns depends on its argument alone. A
/// narrow character counts one column, and spaces around a simple text add one
/// column each. How wide other characters are is left unsaid.
#[verifier::external_body]
pub(crate) fn display_width(text: &str) -> (n: usize)
    ensures
        n == shown_width(text@),
        is_narrow(printed(text@)) ==> n == printed(text@).len(),
        is_simple(printed(text@)) ==> forall|before: nat, after: nat|
            #[trigger] shown_width(run_of(' ', before) + text@ + run_of(' ', after)) == before + n
                + after,
{
    crust::display_width(text)
}

/// `crust::truncate_ansi` cuts a text to a number of columns and ends it with a
/// reset. A text that fits is otherwise unchanged, a text of narrow characters is
/// cut at its column, and a simple text stays simple and takes up no more columns
/// than it may. Where it cuts texts of other characters is left unsaid.
#[verifier::external_body]
pub(crate) fn truncate_ansi(text: &str, columns: usize) -> (r: String)
    ensures
        r@ == truncated(text@, columns as nat),
        shown_width(text@) <= columns ==> r@ == text@ + reset(),
        is_narrow(text@) ==> r@ == cut(text@, columns as nat) + reset(),
        is_simple(text@) ==> is_simple(printed(r@)) && shown_width(r@) <= columns,
        is_simple(text@) && shown_width(text@) <= columns ==> shown_width(r@) == shown_width(
            text@,
        ),
{
    crust::truncate_ansi(text, columns)
}

/// A run of one character.
pub open spec fn run_of(c: char, n: nat) -> Seq<char> {
    Seq::new(n, |i: int| c)
}

/// Appends a run of one character.
pub fn push_run(out: &mut Vec<char>, c: char, n: usize)
    ensures
        final(out)@ == old(out)@ + run_of(c, n as nat),
{
    let ghost before = out@;
    let mut i: usize = 0;
    assert(out@ =~= before + run_of(c, 0));
    while i < n
        invariant
            i <= n,
            out@ == before + run_of(c, i as nat),
        decreases n - i,
    {
        out.push(c);
        i = i + 1;
        assert(out@ =~= before + run_of(c, i as nat));
    }
}

/// How many columns are missing to `columns`.
pub open spec fn missing(columns: nat, taken: nat) -> nat {
    if taken < columns {
        (columns - taken) as nat
    } else {
        0
    }
}

/// A text that takes up `taken` columns, filled up to `usable` columns on the left
/// or on the right, and a gap.
pub open spec fn filled(t: Seq<char>, taken: nat, usable: nat, to_right: bool) -> Seq<char> {
    let pad = run_of(' ', missing(usable, taken));
    if to_right {
        pad + t + seq![' ']
    } else {
        t + pad + seq![' ']
    }
}

/// A text that takes up `taken` columns in the middle of `w` columns.
pub open spec fn in_middle(s: Seq<char>, taken: nat, w: nat) -> Seq<char> {
    let left = missing(w, taken) / 2;
    run_of(' ', left) + s + run_of(' ', (missing(w, taken) - left) as nat)
}

/// A value fitted into `w` columns, the last of them a gap: numbers to the right,
/// everything else to the left.
pub open spec fn fitted(m: NumModel, v: ValueV, w: nat) -> Seq<char> {
    let usable = missing(w, 1);
    let t = truncated(display_text(m, v), usable);
    filled(t, shown_width(t), usable, v is Number)
}

/// A text in the middle of `w` columns, cut where it is wider.
pub open spec fn centered(s: Seq<char>, w: nat) -> Seq<char> {
    if shown_width(s) >= w {
        truncated(s, w)
    } else {
        in_middle(s, shown_width(s), w)
    }
}

/// Fills a text that takes up `taken` columns up to `usable` columns, and adds a
/// gap.
pub fn fill(t: &str, taken: usize, usable: usize, to_right: bool) -> (s: String)
    ensures
        s@ == filled(t@, taken as nat, usable as nat, to_right),
{
    let pad: usize = if taken < usable {
        usable - taken
    } else {
        0
    };
    let mut out: Vec<char> = Vec::new();
    if to_right {
        push_run(&mut out, ' ', pad);
        push_text(&mut out, t);
    } else {
        push_text(&mut out, t);
        push_run(&mut out, ' ', pad);
    }
    out.push(' ');
    assert(out@ =~= filled(t@, taken as nat, usable as nat, to_right));
    string_of(out.as_slice())
}

/// Puts a text that takes up `taken` columns in the middle of `w` columns.
pub fn put_in_middle(s: &str, taken: usize, w: usize) -> (r: String)
    ensures
        r@ == in_middle(s@, taken as nat, w as nat),
{
    let free: usize = if taken < w {
        w - taken
    } else {
        0
    };
    let left: usize = free / 2;
    let mut out: Vec<char> = Vec::new();
    push_run(&mut out, ' ', left);
    push_text(&mut out, s);
    push_run(&mut out, ' ', free - left);
    assert(out@ =~= in_middle(s@, taken as nat, w as nat));
    string_of(out.as_slice())
}

/// The lesser of two numbers of columns.
pub open spec fn least(a: nat, b: nat) -> nat {
    if a < b {
        a
    } else {
        b
    }
}

/// A reset at the end of a text is found there.
proof fn reset_found(t: Seq<char>)
    ensures
        printed(t + reset()) == t,
{
    let r = t + reset();
    assert(r.skip(r.len() - 4) =~= reset());
    assert(r.take(r.len() - 4) =~= t);
}

/// A text of narrow characters is its own printed part, and so is what is left of it
/// when it is cut.
proof fn narrow_cut(t: Seq<char>, columns: nat)
    requires
        is_narrow(t),
    ensures
        printed(t) == t,
        is_narrow(cut(t, columns)),
        cut(t, columns).len() == least(t.len(), columns),
{
    if t.len() >= 4 && t.skip(t.len() - 4) == reset() {
        assert(t.skip(t.len() - 4)[0] == t[t.len() - 4]);
        assert(false);
    }
}

/// A simple text is its own printed part.
proof fn simple_printed(t: Seq<char>)
    requires
        is_simple(t),
    ensures
        printed(t) == t,
{
    if t.len() >= 4 && t.skip(t.len() - 4) == reset() {
        assert(t.skip(t.len() - 4)[0] == t[t.len() - 4]);
        assert(false);
    }
}

/// Fits a cell value into exactly `w` display columns, reserving a 1-col gap.
/// Numbers right-align; everything else left-aligns. Long values truncate.
pub fn fit_cell<P: Fn(&str) -> Option<Bits>, S: Fn(Bits) -> String, C: Fn(Op, Bits, Bits) -> Bits>(
    numerics: &Numerics<P, S, C>,
    val: &Value,
    w: usize,
) -> (s: String)
    requires
        numerics.valid(),
    ensures
        s@ == fitted(numerics.model(), val@, w as nat),
        is_simple(display_text(numerics.model(), val@)) && w > 0 ==> shown_width(s@) == w,
        is_narrow(display_text(numerics.model(), val@)) ==> s@ == ({
            let d = display_text(numerics.model(), val@);
            let usable = missing(w as nat, 1);
            filled(cut(d, usable) + reset(), least(d.len(), usable), usable, val@ is Number)
        }),
{
    let usable: usize = if w > 1 {
        w - 1
    } else {
        0
    };
    let d = val.display(numerics);
    let t = truncate_ansi(d.as_str(), usable);
    let taken: usize = display_width(t.as_str());
    let s = fill(t.as_str(), taken, usable, val.is_number());
    proof {
        if is_narrow(d@) {
            narrow_cut(d@, usable as nat);
            reset_found(cut(d@, usable as nat));
        }
        if is_simple(d@) && w > 0 {
            let pad = missing(usable as nat, taken as nat);
            if val@ is Number {
                assert(s@ =~= run_of(' ', pad) + t@ + run_of(' ', 1));
            } else {
                assert(s@ =~= run_of(' ', 0) + t@ + run_of(' ', pad + 1));
            }
        }
    }
    s
}

/// Centers text in `w` columns (truncating if needed).
pub fn center(s: &str, w: usize) -> (r: String)
    ensures
        r@ == centered(s@, w as nat),
        is_simple(s@) ==> shown_width(r@) <= w,
        is_simple(s@) && shown_width(s@) <= w ==> shown_width(r@) == w,
        is_narrow(s@) ==> r@ == (if s@.len() >= w {
            cut(s@, w as nat) + reset()
        } else {
            in_middle(s@, s@.len(), w as nat)
        }),
{
    let sw: usize = display_width(s);
    proof {
        if is_simple(s@) {
            simple_printed(s@);
        }
        if is_narrow(s@) {
            narrow_cut(s@, w as nat);
        }
    }
    if sw >= w {
        truncate_ansi(s, w)
    } else {
        put_in_middle(s, sw, w)
    }
}

/// A text at the right of `w` columns, counted in characters.
pub open spec fn right_aligned(s: Seq<char>, w: nat) -> Seq<char> {
    run_of(' ', missing(w, s.len())) + s
}

/// Appends a text at the right of `w` columns, counted in characters.
pub fn push_right(out: &mut Vec<char>, s: &[char], w: usize)
    ensures
        final(out)@ == old(out)@ + right_aligned(s@, w as nat),
{
    let ghost before = out@;
    let pad: usize = if s.len() < w {
        w - s.len()
    } else {
        0
    };
    push_run(out, ' ', pad);
    push_chars(out, s);
    assert(out@ =~= before + right_aligned(s@, w as nat));
}

/// Spaces fill a text up: to its left where it is aligned to the right, else to its
/// right, and a space more as a gap. The whole has as many characters more as columns
/// were missing, and one.
pub proof fn filling_aligns(t: Seq<char>, taken: nat, usable: nat)
    ensures
        ({
            let (l, r) = (filled(t, taken, usable, false), filled(t, taken, usable, true));
            let free: int = if taken < usable {
                usable - taken
            } else {
                0
            };
            &&& l.len() == t.len() + free + 1 && r.len() == l.len()
            &&& l.take(t.len() as int) == t
            &&& forall|i: int| t.len() <= i < l.len() ==> #[trigger] l[i] == ' '
            &&& r.subrange(free, free + t.len()) == t
            &&& forall|i: int| 0 <= i < free ==> #[trigger] r[i] == ' '
            &&& r.last() == ' '
        }),
{
    let free: int = if taken < usable {
        usable - taken
    } else {
        0
    };
    assert(filled(t, taken, usable, false).take(t.len() as int) =~= t);
    assert(filled(t, taken, usable, true).subrange(free, free + t.len()) =~= t);
}

/// A text in the middle has as many spaces on its left as on its right, or one fewer.
#[verifier::spinoff_prover]
pub proof fn middle_is_even(s: Seq<char>, taken: nat, w: nat)
    requires
        taken <= w,
    ensures
        ({
            let t = in_middle(s, taken, w);
            let left = (w - taken) / 2;
            let right = w - taken - left;
            &&& right == left || right == left + 1
            &&& t.len() == left + s.len() + right
            &&& t.subrange(left, left + s.len()) == s
            &&& forall|i: int|
                0 <= i < t.len() && !(left <= i < left + s.len()) ==> #[trigger] t[i] == ' '
        }),
{
    let left = (w - taken) / 2;
    assert(in_middle(s, taken, w).subrange(left, left + s.len()) =~= s);
}

/// A number is fitted to the right of its column and any other value to the left, cut
/// to leave a gap.
pub proof fn values_are_aligned(m: NumModel, v: ValueV, w: nat)
    requires
        w > 0,
    ensures
        ({
            let t = truncated(display_text(m, v), (w - 1) as nat);
            let n = shown_width(t);
            &&& v is Number ==> fitted(m, v, w) == run_of(
                ' ',
                (if n < w - 1 {
                    w - 1 - n
                } else {
                    0
                }) as nat,
            ) + t + seq![' ']
            &&& !(v is Number) ==> fitted(m, v, w) == t + run_of(
                ' ',
                (if n < w - 1 {
                    w - 1 - n
                } else {
                    0
                }) as nat,
            ) + seq![' ']
        }),
{
}

} // verus!
