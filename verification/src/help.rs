//! Where things are on the screen, and the key help.

use vstd::prelude::*;

use crate::decimal::digits_value;
use crate::fit::{
    coded, coded_text, color_codes, push_right, reset, right_aligned, style_codes,
};
use crate::text::{chars_of, pieces, push_text, string_of, upto_is};

verus! {

/// A rectangle on the screen, its corner counted from one, and the places in the
/// palette of its text and background colours.
#[derive(Clone, Copy, PartialEq, Eq, Structural, Debug)]
pub struct Area {
    pub x: u16,
    pub y: u16,
    pub w: u16,
    pub h: u16,
    pub fg: u16,
    pub bg: u16,
}

pub open spec fn above_zero(a: int) -> int {
    if a < 0 {
        0
    } else {
        a
    }
}

/// The bar at the top, the grid and the bar at the bottom.
pub fn make_panes(w: u16, h: u16) -> (areas: (Area, Area, Area))
    ensures
        areas.0 == (Area { x: 1, y: 1, w, h: 1, fg: 7, bg: 0 }),
        areas.1 == (Area { x: 1, y: 2, w, h: above_zero(h - 2) as u16, fg: 7, bg: 0 }),
        areas.2 == (Area { x: 1, y: h, w, h: 1, fg: 0, bg: 6 }),
        areas.0.x == 1 && areas.0.y == 1,
        areas.0.w == w && areas.1.w == w && areas.2.w == w,
        areas.1.x == areas.0.x && areas.2.x == areas.0.x,
        areas.1.y == areas.0.y + areas.0.h,
        h >= 2 ==> areas.2.y == areas.1.y + areas.1.h,
        areas.2.y + areas.2.h == h + 1,
        h >= 2 ==> areas.0.h + areas.1.h + areas.2.h == h,
{
    let middle: u16 = if h > 2 {
        h - 2
    } else {
        0
    };
    (
        Area { x: 1, y: 1, w, h: 1, fg: 7, bg: 0 },
        Area { x: 1, y: 2, w, h: middle, fg: 7, bg: 0 },
        Area { x: 1, y: h, w, h: 1, fg: 0, bg: 6 },
    )
}

/// The keys and what they do; `program` is the one that AI edits are made with.
pub open spec fn help_keys(program: Seq<char>) -> Seq<(Seq<char>, Seq<char>)> {
    seq![
        ("h j k l"@, "move left / down / up / right (or arrow keys)"@),
        ("g  G"@, "jump to first / last row"@),
        ("0  $"@, "jump to first / last column"@),
        ("PgUp PgDn"@, "page up / down"@),
        ("Home End"@, "first / last column"@),
        ("Enter  i"@, "edit the current cell"@),
        ("="@, "start a formula in the current cell"@),
        ("c"@, "AI edit \u{2014} change the sheet by instruction ("@ + program + seq![')']),
        ("C"@, "set cell colour (fg,bg)"@),
        ("u"@, "undo the last edit"@),
        ("d  Del"@, "clear the current cell"@),
        ("Tab S-Tab"@, "next / previous sheet"@),
        ("s"@, "save"@),
        ("?"@, "show this help"@),
        ("q"@, "quit (prompts if there are unsaved changes)"@),
        ("Q"@, "quit without saving"@),
    ]
}

/// The views of the pairs of texts.
pub open spec fn pairs(v: Seq<(&str, String)>) -> Seq<(Seq<char>, Seq<char>)> {
    Seq::new(v.len(), |i: int| (v[i].0@, v[i].1@))
}

/// The length of the longest key.
pub open spec fn longest_key(keys: Seq<(Seq<char>, Seq<char>)>) -> nat
    decreases keys.len(),
{
    if keys.len() == 0 {
        0
    } else if keys.last().0.len() > longest_key(keys.drop_last()) {
        keys.last().0.len()
    } else {
        longest_key(keys.drop_last())
    }
}

/// The length of the longest description.
pub open spec fn longest_description(keys: Seq<(Seq<char>, Seq<char>)>) -> nat
    decreases keys.len(),
{
    if keys.len() == 0 {
        0
    } else if keys.last().1.len() > longest_description(keys.drop_last()) {
        keys.last().1.len()
    } else {
        longest_description(keys.drop_last())
    }
}

/// A size: what is wanted, no more than there is room for, and no less than
/// `least`.
pub open spec fn sized(wanted: int, room: int, least: int) -> int {
    let size = if wanted < room {
        wanted
    } else {
        room
    };
    if size < least {
        least
    } else {
        size
    }
}

/// The area of the key help, in the middle of the screen.
pub open spec fn is_help_area(
    keys: Seq<(Seq<char>, Seq<char>)>,
    cols: u16,
    rows: u16,
    area: Area,
) -> bool {
    let line = longest_key(keys) + 2 + longest_description(keys);
    &&& area.w == sized(line as int + 4, above_zero(cols - 2), 24)
    &&& area.h == sized(keys.len() as int + 5, above_zero(rows - 2), 6)
    &&& area.x == above_zero(cols - area.w) / 2 + 1
    &&& area.y == above_zero(rows - area.h) / 2 + 1
    &&& area.fg == 7
    &&& area.bg == 0
}

/// The lines of the first `n` keys.
pub open spec fn key_lines(keys: Seq<(Seq<char>, Seq<char>)>, width: nat, n: nat) -> Seq<char>
    decreases n,
{
    if n == 0 {
        Seq::empty()
    } else {
        let (key, description) = keys[n - 1];
        key_lines(keys, width, (n - 1) as nat) + seq![' '] + coded_text(
            right_aligned(key, width),
            "14,,b"@,
        ) + "  "@ + description + seq!['\n']
    }
}

/// The text of the key help.
pub open spec fn help_text(keys: Seq<(Seq<char>, Seq<char>)>) -> Seq<char> {
    coded_text(" grid \u{2014} keys"@, "11,,b"@) + "\n\n"@ + key_lines(
        keys,
        longest_key(keys),
        keys.len(),
    ) + "\n Press any key to close."@
}

/// The keys and what they do; `program` is the one that AI edits are made with.
pub fn keys(program: &str) -> (v: Vec<(&'static str, String)>)
    ensures
        pairs(v@) == help_keys(program@),
{
    let mut ai = chars_of("AI edit \u{2014} change the sheet by instruction (");
    push_text(&mut ai, program);
    ai.push(')');
    assert(ai@ =~= "AI edit \u{2014} change the sheet by instruction ("@ + program@ + seq![')']);
    let mut v: Vec<(&'static str, String)> = Vec::new();
    v.push(("h j k l", "move left / down / up / right (or arrow keys)".to_owned()));
    v.push(("g  G", "jump to first / last row".to_owned()));
    v.push(("0  $", "jump to first / last column".to_owned()));
    v.push(("PgUp PgDn", "page up / down".to_owned()));
    v.push(("Home End", "first / last column".to_owned()));
    v.push(("Enter  i", "edit the current cell".to_owned()));
    v.push(("=", "start a formula in the current cell".to_owned()));
    v.push(("c", string_of(ai.as_slice())));
    v.push(("C", "set cell colour (fg,bg)".to_owned()));
    v.push(("u", "undo the last edit".to_owned()));
    v.push(("d  Del", "clear the current cell".to_owned()));
    v.push(("Tab S-Tab", "next / previous sheet".to_owned()));
    v.push(("s", "save".to_owned()));
    v.push(("?", "show this help".to_owned()));
    v.push(("q", "quit (prompts if there are unsaved changes)".to_owned()));
    v.push(("Q", "quit without saving".to_owned()));
    assert(pairs(v@) =~= help_keys(program@));
    v
}

fn longest(keys: &Vec<(&'static str, String)>) -> (r: (usize, usize))
    ensures
        r.0 == longest_key(pairs(keys@)),
        r.1 == longest_description(pairs(keys@)),
{
    let ghost all = pairs(keys@);
    let mut key: usize = 0;
    let mut description: usize = 0;
    let mut i: usize = 0;
    while i < keys.len()
        invariant
            all == pairs(keys@),
            i <= keys@.len(),
            key == longest_key(all.take(i as int)),
            description == longest_description(all.take(i as int)),
        decreases keys@.len() - i,
    {
        assert(all.take(i + 1).drop_last() =~= all.take(i as int));
        let k_len: usize = chars_of(keys[i].0).len();
        let d_len: usize = chars_of(keys[i].1.as_str()).len();
        if k_len > key {
            key = k_len;
        }
        if d_len > description {
            description = d_len;
        }
        i = i + 1;
    }
    assert(all.take(i as int) =~= all);
    (key, description)
}

fn size_of(wanted: u64, room: u16, least: u16) -> (n: u16)
    ensures
        n == sized(wanted as int, room as int, least as int),
{
    let size: u16 = if wanted < room as u64 {
        wanted as u16
    } else {
        room
    };
    if size < least {
        least
    } else {
        size
    }
}

fn less(a: u16, b: u16) -> (n: u16)
    ensures
        n == above_zero(a - b),
{
    if a > b {
        a - b
    } else {
        0
    }
}

/// The area of the key help on a screen of a size.
pub fn help_area(program: &str, cols: u16, rows: u16) -> (area: Area)
    ensures
        is_help_area(help_keys(program@), cols, rows, area),
{
    let keys = keys(program);
    let (key, description) = longest(&keys);
    let wanted: u128 = key as u128 + 2 + description as u128 + 4;
    let line: u64 = if wanted > u16::MAX as u128 {
        u16::MAX as u64
    } else {
        wanted as u64
    };
    let w: u16 = size_of(line, less(cols, 2), 24);
    let h: u16 = size_of(keys.len() as u64 + 5, less(rows, 2), 6);
    Area { x: less(cols, w) / 2 + 1, y: less(rows, h) / 2 + 1, w, h, fg: 7, bg: 0 }
}

/// The text of the key help.
pub fn show_help(program: &str) -> (s: String)
    ensures
        s@ == help_text(help_keys(program@)),
{
    let keys = keys(program);
    let ghost all = help_keys(program@);
    let (width, _) = longest(&keys);
    let mut out = chars_of(coded(" grid \u{2014} keys", "11,,b").as_str());
    push_text(&mut out, "\n\n");
    let ghost head = out@;
    let mut i: usize = 0;
    assert(out@ =~= head + key_lines(all, width as nat, 0));
    while i < keys.len()
        invariant
            all == pairs(keys@),
            i <= keys@.len(),
            out@ == head + key_lines(all, width as nat, i as nat),
        decreases keys@.len() - i,
    {
        let k = keys[i].0;
        assert(all[i as int] == (k@, keys@[i as int].1@));
        let mut key: Vec<char> = Vec::new();
        push_right(&mut key, chars_of(k).as_slice(), width);
        assert(key@ =~= right_aligned(k@, width as nat));
        out.push(' ');
        push_text(&mut out, coded(string_of(key.as_slice()).as_str(), "14,,b").as_str());
        push_text(&mut out, "  ");
        push_text(&mut out, keys[i].1.as_str());
        out.push('\n');
        i = i + 1;
        assert(out@ =~= head + key_lines(all, width as nat, i as nat));
    }
    push_text(&mut out, "\n Press any key to close.");
    string_of(out.as_slice())
}

/// The key help has a border of at least one cell on every side, where it fits, and
/// stands in the middle of the screen: what is free to its left and to its right differs
/// by no more than one, and so does what is free above and below.
pub proof fn help_is_in_the_middle(
    keys: Seq<(Seq<char>, Seq<char>)>,
    cols: u16,
    rows: u16,
    area: Area,
)
    requires
        is_help_area(keys, cols, rows, area),
        26 <= cols,
        8 <= rows,
    ensures
        area.w + 2 <= cols,
        area.h + 2 <= rows,
        ({
            let left = area.x - 1;
            let right = cols - area.w - left;
            right == left || right == left + 1
        }),
        ({
            let above = area.y - 1;
            let under = rows - area.h - above;
            under == above || under == above + 1
        }),
{
}

/// Where the screen is large enough, the key help has room for each of its lines, which
/// are a space, a key, two spaces and a description, with three columns to spare, and for
/// all of them, the two above the keys and the two below, with one row to spare. It is
/// never smaller than twenty-four columns and six rows.
pub proof fn help_has_room(
    keys: Seq<(Seq<char>, Seq<char>)>,
    cols: u16,
    rows: u16,
    area: Area,
    i: int,
)
    requires
        is_help_area(keys, cols, rows, area),
        0 <= i < keys.len(),
    ensures
        longest_key(keys) + longest_description(keys) + 8 <= cols ==> 1 + keys[i].0.len() + 2
            + keys[i].1.len() + 3 <= area.w,
        forall|j: int, k: int|
            0 <= j < keys.len() && 0 <= k < keys.len() && (#[trigger] keys[j]).0.len()
                == longest_key(keys) && (#[trigger] keys[k]).1.len() == longest_description(keys)
                && 26 <= cols ==> area.w == 24 || area.w <= 1 + keys[j].0.len() + 2
                + keys[k].1.len() + 3,
        keys.len() + 7 <= rows ==> keys.len() + 5 <= area.h,
        8 <= rows ==> area.h <= keys.len() + 5 || area.h == 6,
        24 <= area.w,
        6 <= area.h,
{
    longest_are_longest(keys, i);
}

/// The longest of the keys and of the descriptions is one of them, and none is longer.
pub proof fn longest_are_longest(keys: Seq<(Seq<char>, Seq<char>)>, i: int)
    requires
        0 <= i < keys.len(),
    ensures
        keys[i].0.len() <= longest_key(keys),
        keys[i].1.len() <= longest_description(keys),
        exists|j: int| 0 <= j < keys.len() && (#[trigger] keys[j]).0.len() == longest_key(keys),
        exists|j: int|
            0 <= j < keys.len() && (#[trigger] keys[j]).1.len() == longest_description(keys),
    decreases keys.len(),
{
    let init = keys.drop_last();
    assert(keys[keys.len() - 1] == keys.last());
    if init.len() > 0 {
        let k = if i < init.len() {
            i
        } else {
            0
        };
        longest_are_longest(init, k);
        let a = choose|j: int|
            0 <= j < init.len() && (#[trigger] init[j]).0.len() == longest_key(init);
        assert(keys[a].0.len() == longest_key(init));
        let b = choose|j: int|
            0 <= j < init.len() && (#[trigger] init[j]).1.len() == longest_description(init);
        assert(keys[b].1.len() == longest_description(init));
        if i < init.len() {
            assert(init[i] == keys[i]);
        }
    } else {
        assert(longest_key(init) == 0 && longest_description(init) == 0);
        assert(keys[0].0.len() == longest_key(keys));
    }
}

/// Where a text stands in another.
pub open spec fn stands_at(part: Seq<char>, whole: Seq<char>, at: int) -> bool {
    0 <= at && at + part.len() <= whole.len() && whole.subrange(at, at + part.len()) == part
}

/// The help has a line for each of the first `n` keys that ends with the key, two spaces
/// and what the key does; the line of a key comes behind those of the keys before it.
proof fn lines_explain(keys: Seq<(Seq<char>, Seq<char>)>, width: nat, n: nat, i: int) -> (at: int)
    requires
        0 <= i < n <= keys.len(),
        style_codes("14,,b"@).len() > 0,
    ensures
        stands_at(
            keys[i].0 + reset() + "  "@ + keys[i].1 + seq!['\n'],
            key_lines(keys, width, n),
            at,
        ),
        at >= key_lines(keys, width, i as nat).len(),
        at + keys[i].0.len() + 4 + "  "@.len() + keys[i].1.len() + 1 == key_lines(
            keys,
            width,
            (i + 1) as nat,
        ).len(),
    decreases n,
{
    let part = keys[i].0 + reset() + "  "@ + keys[i].1 + seq!['\n'];
    let whole = key_lines(keys, width, n);
    let before = key_lines(keys, width, (n - 1) as nat);
    if i + 1 == n {
        let at = whole.len() - part.len();
        assert(whole.subrange(at, whole.len() as int) =~= part);
        at
    } else {
        let at = lines_explain(keys, width, (n - 1) as nat, i);
        assert(whole.subrange(at, at + part.len()) =~= before.subrange(at, at + part.len()));
        at
    }
}

proof fn bold_is_coded()
    ensures
        style_codes("14,,b"@).len() > 0,
{
    reveal_strlit("14,,b");
    let s = "14,,b"@;
    upto_is(s, ',', 2);
    let d = s.take(2);
    assert(pieces(s, ',')[0] == d);
    assert(d =~= seq!['1', '4']);
    assert(d.drop_last() =~= seq!['1']);
    assert(d.drop_last().drop_last() =~= Seq::<char>::empty());
    reveal_with_fuel(digits_value, 3);
    assert(digits_value(d) == 14);
    assert(color_codes("38;5;"@, d).len() == 1);
}

/// The help shows every key, with what it does behind it on the same line.
pub proof fn keys_are_explained(keys: Seq<(Seq<char>, Seq<char>)>, i: int) -> (at: int)
    requires
        0 <= i < keys.len(),
    ensures
        stands_at(
            keys[i].0 + reset() + "  "@ + keys[i].1 + seq!['\n'],
            help_text(keys),
            at,
        ),
{
    bold_is_coded();
    let part = keys[i].0 + reset() + "  "@ + keys[i].1 + seq!['\n'];
    let head = coded_text(" grid \u{2014} keys"@, "11,,b"@) + "\n\n"@;
    let k = lines_explain(keys, longest_key(keys), keys.len(), i);
    let at = head.len() + k;
    let body = key_lines(keys, longest_key(keys), keys.len());
    assert(help_text(keys).subrange(at, at + part.len()) =~= body.subrange(k, k + part.len()));
    at
}

} // verus!
