//! Cell colours: hexadecimal notation, the terminal's palette, and the sidecar
//! file in which the colours of a CSV file are kept.

use vstd::prelude::*;

use crate::cells::{coords, in_order, listed, lists, precedes};
use crate::decimal::{
    decimal, decimal_denotes, decimal_of, decimal_reads_back, parse_unsigned, unsigned_value,
};
use crate::model::{CellV, Color, Coord, Rgb, Sheet, SheetV};
use crate::text::{
    ascii, ascii_lower, chars_are, chars_of, find_char, is_ascii_char, is_ascii_text, is_digit,
    lines, only, pieces, push_chars, slice_of, split, split_lines, string_of, to_ascii_lower, trim,
    trim_space, trim_start, upto, upto_is, views, without_return,
};

verus! {

// ---- hexadecimal notation -------------------------------------------------

/// The value of a hexadecimal digit.
pub open spec fn hex_digit(c: char) -> Option<u8> {
    if '0' <= c && c <= '9' {
        Some((c as u8 - 48) as u8)
    } else if 'a' <= c && c <= 'f' {
        Some((c as u8 - 87) as u8)
    } else if 'A' <= c && c <= 'F' {
        Some((c as u8 - 55) as u8)
    } else {
        None
    }
}

/// The value of two characters: two hexadecimal digits, or one after a plus sign.
pub open spec fn hex_pair(a: char, b: char) -> Option<u8> {
    match (hex_digit(a), hex_digit(b)) {
        (Some(x), Some(y)) => Some((x * 16 + y) as u8),
        (None, Some(y)) => if a == '+' {
            Some(y)
        } else {
            None
        },
        _ => None,
    }
}

/// The colour that a text denotes: `#rrggbb`, or `#rgb` for doubled digits, with
/// any number of leading `#`.
pub open spec fn hex_color(s: Seq<char>) -> Option<Rgb> {
    let h = trim_start(s, only('#'));
    if h.len() == 6 {
        match (hex_pair(h[0], h[1]), hex_pair(h[2], h[3]), hex_pair(h[4], h[5])) {
            (Some(r), Some(g), Some(b)) => Some((r, g, b)),
            _ => None,
        }
    } else if h.len() == 3 {
        match (hex_pair(h[0], h[0]), hex_pair(h[1], h[1]), hex_pair(h[2], h[2])) {
            (Some(r), Some(g), Some(b)) => Some((r, g, b)),
            _ => None,
        }
    } else {
        None
    }
}

/// `crust::style::parse_hex_color` drops leading `#` characters and reads what is
/// left, six digits as three pairs or three digits doubled, each pair as a
/// hexadecimal number. It cuts its text at byte positions, so the text has to be
/// ASCII.
#[verifier::external_body]
fn parse_hex_color(s: &str) -> (r: Option<Rgb>)
    requires
        is_ascii_text(s@),
    ensures
        r == hex_color(s@),
{
    crust::style::parse_hex_color(s)
}

/// The colour of a field of the sidecar file; none where the field is empty, or
/// not a colour.
pub open spec fn rgb_of(s: Seq<char>) -> Option<Rgb> {
    if s.len() == 0 || !is_ascii_text(s) {
        None
    } else {
        hex_color(s)
    }
}

pub fn parse_rgb(s: &[char]) -> (r: Option<Rgb>)
    ensures
        r == rgb_of(s@),
{
    if s.len() == 0 || !ascii(s) {
        None
    } else {
        parse_hex_color(string_of(s).as_str())
    }
}

/// The character of one hexadecimal digit.
pub open spec fn hex_char(d: int) -> char {
    if d < 10 {
        (48 + d) as u8 as char
    } else {
        (87 + d) as u8 as char
    }
}

/// Two hexadecimal digits.
pub open spec fn hex_byte(n: u8) -> Seq<char> {
    seq![hex_char(n as int / 16), hex_char(n as int % 16)]
}

/// `#rrggbb` for a colour, nothing for none.
pub open spec fn hex_text(c: Option<Rgb>) -> Seq<char> {
    match c {
        Some(rgb) => seq!['#'] + hex_byte(rgb.0) + hex_byte(rgb.1) + hex_byte(rgb.2),
        None => Seq::empty(),
    }
}

fn hex_digit_char(d: u8) -> (c: char)
    requires
        d < 16,
    ensures
        c == hex_char(d as int),
{
    if d < 10 {
        (48 + d) as char
    } else {
        (87 + d) as char
    }
}

fn push_hex(out: &mut Vec<char>, n: u8)
    ensures
        final(out)@ == old(out)@ + hex_byte(n),
{
    out.push(hex_digit_char(n / 16));
    out.push(hex_digit_char(n % 16));
    assert(out@ =~= old(out)@ + hex_byte(n));
}

/// `#rrggbb` for a colour, or empty for None.
pub fn opt_hex(c: Option<Rgb>) -> (out: Vec<char>)
    ensures
        out@ == hex_text(c),
{
    let mut out: Vec<char> = Vec::new();
    if let Some(rgb) = c {
        out.push('#');
        push_hex(&mut out, rgb.0);
        push_hex(&mut out, rgb.1);
        push_hex(&mut out, rgb.2);
        assert(out@ =~= hex_text(c));
    }
    out
}

proof fn hex_pair_reads_back(n: u8)
    ensures
        hex_pair(hex_byte(n)[0], hex_byte(n)[1]) == Some(n),
        hex_byte(n)[0] != '#',
        hex_byte(n)[1] != '#',
        hex_byte(n)[0] != ',',
        hex_byte(n)[1] != ',',
        hex_byte(n)[0] != '\n',
        hex_byte(n)[1] != '\n',
        hex_byte(n)[0] != '\r',
        hex_byte(n)[1] != '\r',
        is_ascii_char(hex_byte(n)[0]),
        is_ascii_char(hex_byte(n)[1]),
{
}

/// A colour in hexadecimal notation reads as itself, and no colour as none.
pub proof fn hex_reads_back(c: Option<Rgb>)
    ensures
        rgb_of(hex_text(c)) == c,
{
    if let Some(rgb) = c {
        let s = hex_text(c);
        let h = hex_byte(rgb.0) + hex_byte(rgb.1) + hex_byte(rgb.2);
        hex_pair_reads_back(rgb.0);
        hex_pair_reads_back(rgb.1);
        hex_pair_reads_back(rgb.2);
        assert(s.skip(1) =~= h);
        assert(trim_start(h, only('#')) == h);
        assert(trim_start(s, only('#')) == trim_start(s.skip(1), only('#')));
        assert(s =~= seq!['#', h[0], h[1], h[2], h[3], h[4], h[5]]);
    }
}

// ---- the palette ----------------------------------------------------------

/// The strength of a colour at a step of the palette's colour cube.
pub open spec fn cube_level(step: int) -> u8 {
    if step == 0 {
        0
    } else {
        (55 + 40 * step) as u8
    }
}

/// One of the sixteen basic colours.
pub open spec fn basic_color(n: u8) -> Rgb {
    if n == 7 {
        (192, 192, 192)
    } else if n == 8 {
        (128, 128, 128)
    } else {
        let on: u8 = if n < 8 {
            128
        } else {
            255
        };
        (
            if n % 2 == 1 {
                on
            } else {
                0
            },
            if (n / 2) % 2 == 1 {
                on
            } else {
                0
            },
            if (n / 4) % 2 == 1 {
                on
            } else {
                0
            },
        )
    }
}

/// A colour of the 256-colour palette: sixteen basic colours, a cube of six steps
/// each way, and a ramp of greys.
pub open spec fn palette_color(n: u8) -> Rgb {
    if n < 16 {
        basic_color(n)
    } else if n < 232 {
        (
            cube_level((n - 16) / 36),
            cube_level(((n - 16) / 6) % 6),
            cube_level((n - 16) % 6),
        )
    } else {
        let v = (8 + 10 * (n - 232)) as u8;
        (v, v, v)
    }
}

/// The place in the palette that stands for a colour.
pub open spec fn palette_index(c: Rgb) -> u8 {
    if c.0 == c.1 && c.1 == c.2 {
        if c.0 < 8 {
            16
        } else if c.0 > 248 {
            231
        } else {
            (232 + (c.0 - 8) * 24 / 247) as u8
        }
    } else {
        (16 + 36 * (c.0 as int / 51) + 6 * (c.1 as int / 51) + c.2 as int / 51) as u8
    }
}

/// `crust::style::rgb_to_xterm` gives a grey its place on the ramp of greys, and
/// any other colour the place in the colour cube that integer division of its
/// strengths leads to.
#[verifier::external_body]
fn rgb_to_xterm(r: u8, g: u8, b: u8) -> (n: u8)
    ensures
        n == palette_index((r, g, b)),
{
    crust::style::rgb_to_xterm(r, g, b)
}

/// The place in the palette that stands for a colour.
pub fn nearest_palette(c: Option<Rgb>) -> (n: Option<u8>)
    ensures
        n == match c {
            Some(rgb) => Some(palette_index(rgb)),
            None => None::<u8>,
        },
{
    match c {
        Some(rgb) => Some(rgb_to_xterm(rgb.0, rgb.1, rgb.2)),
        None => None,
    }
}

fn level(step: u8) -> (v: u8)
    requires
        step < 6,
    ensures
        v == cube_level(step as int),
{
    if step == 0 {
        0
    } else {
        55 + 40 * step
    }
}

/// A colour of the 256-colour palette.
pub fn palette_rgb(n: u8) -> (c: Rgb)
    ensures
        c == palette_color(n),
{
    if n == 7 {
        (192, 192, 192)
    } else if n == 8 {
        (128, 128, 128)
    } else if n < 16 {
        let on: u8 = if n < 8 {
            128
        } else {
            255
        };
        (
            if n % 2 == 1 {
                on
            } else {
                0
            },
            if (n / 2) % 2 == 1 {
                on
            } else {
                0
            },
            if (n / 4) % 2 == 1 {
                on
            } else {
                0
            },
        )
    } else if n < 232 {
        let k: u8 = n - 16;
        (level(k / 36), level((k / 6) % 6), level(k % 6))
    } else {
        let v: u8 = 8 + 10 * (n - 232);
        (v, v, v)
    }
}

/// A colour of the colour cube that is not a grey is found again under its number.
pub proof fn cube_colors_found_again(n: u8)
    requires
        16 <= n < 232,
        palette_color(n).0 != palette_color(n).1 || palette_color(n).1 != palette_color(n).2,
    ensures
        palette_index(palette_color(n)) == n,
{
    let k = n - 16;
    let (x, y, z) = (k / 36, (k / 6) % 6, k % 6);
    assert(0 <= x < 6 && 0 <= y < 6 && 0 <= z < 6);
    assert(k == 36 * x + 6 * y + z);
    assert forall|step: int| 0 <= step < 6 implies (#[trigger] cube_level(step)) as int / 51
        == step by {
        assert(step == 0 || step == 1 || step == 2 || step == 3 || step == 4 || step == 5);
    }
}

/// The first place of the palette from `from` up to `to` that has the colour.
pub open spec fn first_place(c: Rgb, from: int, to: int) -> Option<u8>
    decreases to - from,
{
    if from >= to {
        None
    } else if palette_color(from as u8) == c {
        Some(from as u8)
    } else {
        first_place(c, from + 1, to)
    }
}

/// The place in the palette at which a colour is shown: where the palette has it, in
/// the colour cube, among the basic colours or on the ramp of greys, else the place
/// that stands for it.
pub open spec fn place_of(c: Rgb) -> u8 {
    match first_place(c, 16, 232) {
        Some(n) => n,
        None => match first_place(c, 0, 16) {
            Some(n) => n,
            None => match first_place(c, 232, 256) {
                Some(n) => n,
                None => palette_index(c),
            },
        },
    }
}

/// The place in the palette at which the colour of a cell is shown, none for none.
pub open spec fn place_or_none(c: Option<Color>) -> Option<u8> {
    match c {
        Some(Color::Palette(n)) => Some(n),
        Some(Color::Rgb(rgb)) => Some(place_of(rgb)),
        None => None,
    }
}

/// The red, green and blue of a cell's colour, none for none.
pub open spec fn rgb_or_none(c: Option<Color>) -> Option<Rgb> {
    match c {
        Some(Color::Palette(n)) => Some(palette_color(n)),
        Some(Color::Rgb(rgb)) => Some(rgb),
        None => None,
    }
}

/// The colour that is red, green and blue, none for none.
pub open spec fn from_rgb(c: Option<Rgb>) -> Option<Color> {
    match c {
        Some(rgb) => Some(Color::Rgb(rgb)),
        None => None,
    }
}

/// The red, green and blue of a cell's colour.
pub fn color_rgb(c: Option<Color>) -> (r: Option<Rgb>)
    ensures
        r == rgb_or_none(c),
{
    match c {
        Some(Color::Palette(n)) => Some(palette_rgb(n)),
        Some(Color::Rgb(rgb)) => Some(rgb),
        None => None,
    }
}

fn read_color(c: Option<Rgb>) -> (r: Option<Color>)
    ensures
        r == from_rgb(c),
{
    match c {
        Some(rgb) => Some(Color::Rgb(rgb)),
        None => None,
    }
}

fn find_place(c: Rgb, from: u16, to: u16) -> (n: Option<u8>)
    requires
        from <= to <= 256,
    ensures
        n == first_place(c, from as int, to as int),
{
    let mut i: u16 = from;
    while i < to
        invariant
            from <= i <= to <= 256,
            first_place(c, from as int, to as int) == first_place(c, i as int, to as int),
        decreases to - i,
    {
        let (r, g, b) = palette_rgb(i as u8);
        if r == c.0 && g == c.1 && b == c.2 {
            return Some(i as u8);
        }
        i = i + 1;
    }
    None
}

/// The place in the palette at which the colour of a cell is shown: the one that was
/// typed, or else the one that has the colour or stands for it.
pub fn palette_place(c: Option<Color>) -> (n: Option<u8>)
    ensures
        n == place_or_none(c),
{
    let rgb: Rgb = match c {
        Some(Color::Palette(n)) => {
            return Some(n);
        },
        Some(Color::Rgb(rgb)) => rgb,
        None => {
            return None;
        },
    };
    match find_place(rgb, 16, 232) {
        Some(n) => Some(n),
        None => match find_place(rgb, 0, 16) {
            Some(n) => Some(n),
            None => match find_place(rgb, 232, 256) {
                Some(n) => Some(n),
                None => nearest_palette(Some(rgb)),
            },
        },
    }
}

/// What a search of the palette finds: the colour, at no later place than any other
/// that has it.
proof fn place_found(c: Rgb, from: int, to: int)
    requires
        0 <= from <= to <= 256,
    ensures
        match first_place(c, from, to) {
            Some(n) => from <= n < to && palette_color(n) == c && forall|k: int|
                from <= k < n ==> #[trigger] palette_color(k as u8) != c,
            None => forall|k: int| from <= k < to ==> #[trigger] palette_color(k as u8) != c,
        },
    decreases to - from,
{
    if from < to && palette_color(from as u8) != c {
        place_found(c, from + 1, to);
    }
}

/// Every colour of the palette is shown at a place that has this very colour.
pub proof fn palette_colors_kept(n: u8)
    ensures
        palette_color(place_of(palette_color(n))) == palette_color(n),
{
    let c = palette_color(n);
    place_found(c, 16, 232);
    place_found(c, 0, 16);
    place_found(c, 232, 256);
    assert(palette_color((n as int) as u8) == c);
}

/// Every place of the palette is found again under its number, but for those whose
/// colour the palette has twice: black, the bright basic colours, and the grey in
/// the middle of the ramp.
pub proof fn palette_places_found_again(n: u8)
    requires
        n != 0,
        !(9 <= n <= 15),
        n != 244,
    ensures
        place_of(palette_color(n)) == n,
{
    let c = palette_color(n);
    place_found(c, 16, 232);
    place_found(c, 0, 16);
    place_found(c, 232, 256);
    assert(palette_color((n as int) as u8) == c);
    if n < 16 {
        basic_colors_apart(n);
    } else if n < 232 {
        if let Some(k) = first_place(c, 16, 232) {
            cube_places_apart(n, k);
        }
    } else {
        greys_apart(n);
    }
}

/// The steps of the colour cube.
proof fn cube_steps(n: u8)
    requires
        16 <= n < 232,
    ensures
        ({
            let k = n - 16;
            let (x, y, z) = (k / 36, (k / 6) % 6, k % 6);
            &&& 0 <= x < 6 && 0 <= y < 6 && 0 <= z < 6
            &&& k == 36 * x + 6 * y + z
            &&& palette_color(n) == (cube_level(x), cube_level(y), cube_level(z))
        }),
{
}

/// Two places of the colour cube have different colours.
proof fn cube_places_apart(n: u8, k: u8)
    requires
        16 <= n < 232,
        16 <= k < 232,
        palette_color(n) == palette_color(k),
    ensures
        n == k,
{
    cube_steps(n);
    cube_steps(k);
}

/// The darker basic colours are not in the colour cube, and differ.
proof fn basic_colors_apart(n: u8)
    requires
        0 < n <= 8,
    ensures
        forall|k: int| 16 <= k < 232 ==> #[trigger] palette_color(k as u8) != palette_color(n),
        forall|k: int| 0 <= k < n ==> #[trigger] palette_color(k as u8) != palette_color(n),
{
    assert forall|k: int| 16 <= k < 232 implies #[trigger] palette_color(k as u8) != palette_color(
        n,
    ) by {
        cube_steps(k as u8);
    }
}

/// The greys of the ramp are neither in the colour cube nor, but for one, among the
/// basic colours, and differ.
proof fn greys_apart(n: u8)
    requires
        232 <= n,
        n != 244,
    ensures
        forall|k: int| 16 <= k < 232 ==> #[trigger] palette_color(k as u8) != palette_color(n),
        forall|k: int| 0 <= k < 16 ==> #[trigger] palette_color(k as u8) != palette_color(n),
        forall|k: int| 232 <= k < n ==> #[trigger] palette_color(k as u8) != palette_color(n),
{
    assert forall|k: int| 16 <= k < 232 implies #[trigger] palette_color(k as u8) != palette_color(
        n,
    ) by {
        cube_steps(k as u8);
    }
}

// ---- what the user types --------------------------------------------------

/// The numbers of a text and a background colour, with a comma between.
pub open spec fn spec_text(fg: Option<u8>, bg: Option<u8>) -> Seq<char> {
    number_or_nothing(fg) + seq![','] + number_or_nothing(bg)
}

pub open spec fn number_or_nothing(n: Option<u8>) -> Seq<char> {
    match n {
        Some(k) => decimal(k as nat),
        None => Seq::empty(),
    }
}

/// The number of a colour's name.
pub open spec fn named_color(t: Seq<char>) -> Option<u8> {
    if t == "black"@ {
        Some(0)
    } else if t == "red"@ {
        Some(1)
    } else if t == "green"@ {
        Some(2)
    } else if t == "yellow"@ {
        Some(3)
    } else if t == "blue"@ {
        Some(4)
    } else if t == "magenta"@ {
        Some(5)
    } else if t == "cyan"@ {
        Some(6)
    } else if t == "white"@ {
        Some(7)
    } else if t == "grey"@ || t == "gray"@ {
        Some(8)
    } else if t == "orange"@ {
        Some(208)
    } else {
        None
    }
}

/// The colour of one word: a number of the palette, a name, or none.
pub open spec fn color_of(word: Seq<char>) -> Option<u8> {
    let t = ascii_lower(trim_space(word));
    match unsigned_value(t, 255) {
        Some(n) => Some(n as u8),
        None => named_color(t),
    }
}

/// The text and the background colour: what stands before and after the first
/// comma.
pub open spec fn colors_of(s: Seq<char>) -> (Option<u8>, Option<u8>) {
    let i = upto(s, ',');
    if i < s.len() {
        (color_of(s.take(i)), color_of(s.skip(i + 1)))
    } else {
        (color_of(s), None)
    }
}

fn push_number(out: &mut Vec<char>, n: Option<u8>)
    ensures
        final(out)@ == old(out)@ + number_or_nothing(n),
{
    if let Some(k) = n {
        let d = decimal_of(k as u64);
        push_chars(out, d.as_slice());
    }
    assert(n is None ==> out@ =~= old(out)@ + number_or_nothing(n));
}

/// Builds a "fg,bg" spec from optional palette colours.
pub fn color_spec(fg: Option<u8>, bg: Option<u8>) -> (s: String)
    ensures
        s@ == spec_text(fg, bg),
{
    let mut out: Vec<char> = Vec::new();
    push_number(&mut out, fg);
    out.push(',');
    push_number(&mut out, bg);
    assert(out@ =~= spec_text(fg, bg));
    string_of(out.as_slice())
}

/// Parses one colour token: a 0-255 palette number, a common name, or blank (None).
pub fn parse_color(tok: &[char]) -> (r: Option<u8>)
    ensures
        r == color_of(tok@),
{
    let trimmed = trim(tok);
    let t = to_ascii_lower(trimmed.as_slice());
    let w = t.as_slice();
    if let Some(n) = parse_unsigned(w, 255) {
        return Some(n as u8);
    }
    if chars_are(w, "black") {
        Some(0)
    } else if chars_are(w, "red") {
        Some(1)
    } else if chars_are(w, "green") {
        Some(2)
    } else if chars_are(w, "yellow") {
        Some(3)
    } else if chars_are(w, "blue") {
        Some(4)
    } else if chars_are(w, "magenta") {
        Some(5)
    } else if chars_are(w, "cyan") {
        Some(6)
    } else if chars_are(w, "white") {
        Some(7)
    } else if chars_are(w, "grey") || chars_are(w, "gray") {
        Some(8)
    } else if chars_are(w, "orange") {
        Some(208)
    } else {
        None
    }
}

/// Parses a "fg,bg" colour spec into (fg, bg).
pub fn parse_color_spec(s: &str) -> (r: (Option<u8>, Option<u8>))
    ensures
        r == colors_of(s@),
{
    let chars = chars_of(s);
    let n: usize = chars.len();
    match find_char(chars.as_slice(), ',', 0) {
        Some(at) => {
            proof {
                upto_is(s@, ',', at as int);
            }
            let fg = slice_of(chars.as_slice(), 0, at);
            let bg = slice_of(chars.as_slice(), at + 1, n);
            assert(fg@ =~= s@.take(at as int));
            assert(bg@ =~= s@.skip(at + 1));
            (parse_color(fg.as_slice()), parse_color(bg.as_slice()))
        },
        None => {
            proof {
                upto_is(s@, ',', s@.len() as int);
            }
            (parse_color(chars.as_slice()), None)
        },
    }
}

/// What a colour spec writes down, it reads back.
pub proof fn color_spec_reads_back(fg: Option<u8>, bg: Option<u8>)
    ensures
        colors_of(spec_text(fg, bg)) == (fg, bg),
{
    let s = spec_text(fg, bg);
    let a = number_or_nothing(fg);
    let b = number_or_nothing(bg);
    number_word(fg);
    number_word(bg);
    assert forall|j: int| 0 <= j < a.len() implies s[j] != ',' by {
        assert(s[j] == a[j]);
    }
    upto_is(s, ',', a.len() as int);
    assert(s.take(a.len() as int) =~= a);
    assert(s.skip(a.len() as int + 1) =~= b);
}

/// Nothing stands for no colours.
pub proof fn nothing_typed_clears()
    ensures
        colors_of(Seq::empty()) == (None::<u8>, None::<u8>),
{
    number_word(None);
}

/// A number as a colour word, and nothing as no colour.
proof fn number_word(n: Option<u8>)
    ensures
        color_of(number_or_nothing(n)) == n,
        forall|j: int|
            0 <= j < number_or_nothing(n).len() ==> is_digit(#[trigger] number_or_nothing(n)[j]),
{
    let s = number_or_nothing(n);
    match n {
        Some(k) => {
            decimal_denotes(k as nat);
            decimal_reads_back(k as nat, 255);
            assert(is_digit(s[0]));
            assert(is_digit(s[s.len() - 1]));
            assert(trim_space(s) == s);
            assert(ascii_lower(s) =~= s) by {
                assert forall|j: int| 0 <= j < s.len() implies ascii_lower(s)[j] == s[j] by {
                    assert(is_digit(s[j]));
                }
            }
        },
        None => {
            assert(trim_space(s) =~= s);
            assert(ascii_lower(s) =~= s);
            reveal_strlit("black");
            reveal_strlit("red");
            reveal_strlit("green");
            reveal_strlit("yellow");
            reveal_strlit("blue");
            reveal_strlit("magenta");
            reveal_strlit("cyan");
            reveal_strlit("white");
            reveal_strlit("grey");
            reveal_strlit("gray");
            reveal_strlit("orange");
        },
    }
}

// ---- the sidecar file -----------------------------------------------------

/// Whether a cell has a colour.
pub open spec fn is_colored(cell: CellV) -> bool {
    cell.fg is Some || cell.bg is Some
}

/// The line of a coloured cell: its row, its column and its two colours.
pub open spec fn color_line(at: Coord, fg: Option<Rgb>, bg: Option<Rgb>) -> Seq<char> {
    decimal(at.0 as nat) + seq![','] + decimal(at.1 as nat) + seq![','] + hex_text(fg) + seq![',']
        + hex_text(bg)
}

/// The lines of the coloured cells among `keys`.
pub open spec fn color_lines(sheet: SheetV, keys: Seq<Coord>) -> Seq<char>
    decreases keys.len(),
{
    if keys.len() == 0 {
        Seq::empty()
    } else {
        let cell = sheet.cells[keys[0]];
        let rest = color_lines(sheet, keys.skip(1));
        if is_colored(cell) {
            color_line(keys[0], rgb_or_none(cell.fg), rgb_or_none(cell.bg)) + seq!['\n'] + rest
        } else {
            rest
        }
    }
}

/// The sidecar text of a sheet: a line for every coloured cell, row by row.
pub open spec fn sidecar_text(sheet: SheetV) -> Seq<char> {
    color_lines(sheet, in_order(sheet.cells.dom()))
}

/// What a line of a sidecar file says: a cell and its colours, at least one of
/// them given.
pub open spec fn line_colors(line: Seq<char>) -> Option<(Coord, Option<Rgb>, Option<Rgb>)> {
    let p = pieces(line, ',');
    if p.len() == 4 {
        match (unsigned_value(p[0], u32::MAX as nat), unsigned_value(p[1], u32::MAX as nat)) {
            (Some(r), Some(c)) => {
                let fg = rgb_of(p[2]);
                let bg = rgb_of(p[3]);
                if r < u32::MAX && c < u32::MAX && (fg is Some || bg is Some) {
                    Some(((r as u32, c as u32), fg, bg))
                } else {
                    None
                }
            },
            _ => None,
        }
    } else {
        None
    }
}

/// The sheet coloured as the lines say, one after the other. A line that names no
/// cell of a sheet, or no colour, is passed over.
pub open spec fn colored(sheet: SheetV, rows: Seq<Seq<char>>) -> SheetV
    decreases rows.len(),
{
    if rows.len() == 0 {
        sheet
    } else {
        let next = match line_colors(rows[0]) {
            Some((at, fg, bg)) => sheet.with_colors(at.0, at.1, from_rgb(fg), from_rgb(bg)),
            None => sheet,
        };
        colored(next, rows.skip(1))
    }
}

fn push_line(out: &mut Vec<char>, at: (u32, u32), fg: Option<Rgb>, bg: Option<Rgb>)
    ensures
        final(out)@ == old(out)@ + color_line(at, fg, bg) + seq!['\n'],
{
    let ghost before = out@;
    let r = decimal_of(at.0 as u64);
    let c = decimal_of(at.1 as u64);
    push_chars(out, r.as_slice());
    out.push(',');
    push_chars(out, c.as_slice());
    out.push(',');
    push_chars(out, opt_hex(fg).as_slice());
    out.push(',');
    push_chars(out, opt_hex(bg).as_slice());
    out.push('\n');
    assert(out@ =~= before + color_line(at, fg, bg) + seq!['\n']);
}

/// The text of the sidecar file of a sheet; empty where no cell is coloured.
pub fn color_sidecar(sheet: &Sheet) -> (s: String)
    ensures
        s@ == sidecar_text(sheet@),
{
    let keys = coords(sheet);
    let ghost whole = sidecar_text(sheet@);
    let mut out: Vec<char> = Vec::new();
    let mut i: usize = 0;
    assert(keys@.skip(0) =~= keys@);
    assert(out@ + whole =~= whole);
    while i < keys.len()
        invariant
            i <= keys@.len(),
            lists(keys@, sheet@.cells.dom()),
            out@ + color_lines(sheet@, keys@.skip(i as int)) == whole,
        decreases keys@.len() - i,
    {
        let ghost before = out@;
        let ghost rest = keys@.skip(i as int);
        let at = keys[i];
        assert(keys@.contains(at));
        assert(sheet@.cells.contains_key(at));
        assert(rest.skip(1) =~= keys@.skip(i + 1));
        let (fg, bg) = sheet.colors(at.0, at.1);
        if fg.is_some() || bg.is_some() {
            push_line(&mut out, at, color_rgb(fg), color_rgb(bg));
        }
        i = i + 1;
        assert(out@ + color_lines(sheet@, keys@.skip(i as int)) =~= before + color_lines(
            sheet@,
            rest,
        ));
    }
    assert(keys@.skip(i as int) =~= Seq::<Coord>::empty());
    assert(out@ =~= whole);
    string_of(out.as_slice())
}

fn parse_line(line: &[char]) -> (r: Option<((u32, u32), Option<Rgb>, Option<Rgb>)>)
    ensures
        r == line_colors(line@),
{
    let p = split(line, ',');
    if p.len() != 4 {
        return None;
    }
    assert(views(p@)[0] == p@[0]@ && views(p@)[1] == p@[1]@ && views(p@)[2] == p@[2]@ && views(
        p@,
    )[3] == p@[3]@);
    let r: u64 = match parse_unsigned(p[0].as_slice(), u32::MAX as u64) {
        Some(n) => n,
        None => {
            return None;
        },
    };
    let c: u64 = match parse_unsigned(p[1].as_slice(), u32::MAX as u64) {
        Some(n) => n,
        None => {
            return None;
        },
    };
    let fg = parse_rgb(p[2].as_slice());
    let bg = parse_rgb(p[3].as_slice());
    if r < u32::MAX as u64 && c < u32::MAX as u64 && (fg.is_some() || bg.is_some()) {
        Some(((r as u32, c as u32), fg, bg))
    } else {
        None
    }
}

/// Colours a sheet as the text of a sidecar file says.
pub fn apply_color_sidecar(text: &str, sheet: &mut Sheet)
    ensures
        final(sheet)@ == colored(old(sheet)@, lines(text@)),
        old(sheet)@.well_formed() ==> final(sheet)@.well_formed(),
{
    let chars = chars_of(text);
    let rows = split_lines(chars.as_slice());
    let ghost all = lines(text@);
    let ghost before = sheet@;
    let mut i: usize = 0;
    assert(all.skip(0) =~= all);
    while i < rows.len()
        invariant
            views(rows@) == all,
            i <= rows@.len(),
            colored(sheet@, all.skip(i as int)) == colored(before, all),
            before.well_formed() ==> sheet@.well_formed(),
        decreases rows@.len() - i,
    {
        assert(all[i as int] == rows@[i as int]@);
        assert(all.skip(i as int).skip(1) =~= all.skip(i + 1));
        if let Some((at, fg, bg)) = parse_line(rows[i].as_slice()) {
            sheet.set_colors(at.0, at.1, read_color(fg), read_color(bg));
        }
        i = i + 1;
    }
    assert(all.skip(i as int) =~= Seq::<Seq<char>>::empty());
}

// ---- laws -----------------------------------------------------------------

/// Whether no character of a text is a comma or ends a line.
spec fn one_piece(s: Seq<char>) -> bool {
    forall|j: int| 0 <= j < s.len() ==> #[trigger] s[j] != ',' && s[j] != '\n' && s[j] != '\r'
}

proof fn decimal_is_one_piece(n: nat)
    ensures
        one_piece(decimal(n)),
{
    decimal_denotes(n);
    assert forall|j: int| 0 <= j < decimal(n).len() implies #[trigger] decimal(n)[j] != ','
        && decimal(n)[j] != '\n' && decimal(n)[j] != '\r' by {
        assert(is_digit(decimal(n)[j]));
    }
}

proof fn hex_is_one_piece(c: Option<Rgb>)
    ensures
        one_piece(hex_text(c)),
{
    if let Some(rgb) = c {
        hex_pair_reads_back(rgb.0);
        hex_pair_reads_back(rgb.1);
        hex_pair_reads_back(rgb.2);
        let (x, y, z) = (hex_byte(rgb.0), hex_byte(rgb.1), hex_byte(rgb.2));
        assert(hex_text(c) =~= seq!['#', x[0], x[1], y[0], y[1], z[0], z[1]]);
    }
}

/// The first piece of a text ends at the first comma.
proof fn first_piece(s: Seq<char>, rest: Seq<char>)
    requires
        one_piece(s),
    ensures
        pieces(s + seq![','] + rest, ',') == seq![s] + pieces(rest, ','),
{
    let t = s + seq![','] + rest;
    assert forall|j: int| 0 <= j < s.len() implies t[j] != ',' by {
        assert(t[j] == s[j]);
    }
    upto_is(t, ',', s.len() as int);
    assert(t.take(s.len() as int) =~= s);
    assert(t.skip(s.len() as int + 1) =~= rest);
}

/// Pieces with a comma between them make one line.
proof fn joined_piece(s: Seq<char>, rest: Seq<char>)
    requires
        one_piece(s),
        one_line(rest),
    ensures
        one_line(s + seq![','] + rest),
{
    let t = s + seq![','] + rest;
    assert forall|j: int| 0 <= j < t.len() implies #[trigger] t[j] != '\n' && t[j] != '\r' by {
        if j < s.len() {
            assert(t[j] == s[j]);
        } else if j > s.len() {
            assert(t[j] == rest[j - s.len() - 1]);
        }
    }
}

/// Whether no character of a text ends a line.
spec fn one_line(s: Seq<char>) -> bool {
    forall|j: int| 0 <= j < s.len() ==> #[trigger] s[j] != '\n' && s[j] != '\r'
}

/// The line of a coloured cell, as pieces with commas between them.
proof fn color_line_pieces(at: Coord, fg: Option<Rgb>, bg: Option<Rgb>)
    ensures
        pieces(color_line(at, fg, bg), ',') == seq![
            decimal(at.0 as nat),
            decimal(at.1 as nat),
            hex_text(fg),
            hex_text(bg),
        ],
        one_line(color_line(at, fg, bg)),
        color_line(at, fg, bg).len() > 0,
{
    let (r, c, f, b) = (
        decimal(at.0 as nat),
        decimal(at.1 as nat),
        hex_text(fg),
        hex_text(bg),
    );
    let line = color_line(at, fg, bg);
    decimal_is_one_piece(at.0 as nat);
    decimal_is_one_piece(at.1 as nat);
    hex_is_one_piece(fg);
    hex_is_one_piece(bg);
    let t2 = f + seq![','] + b;
    let t1 = c + seq![','] + t2;
    assert(line =~= r + seq![','] + t1);
    first_piece(r, t1);
    first_piece(c, t2);
    first_piece(f, b);
    upto_is(b, ',', b.len() as int);
    assert(pieces(b, ',') == seq![b]);
    assert(pieces(line, ',') =~= seq![r, c, f, b]);
    joined_piece(f, b);
    joined_piece(c, t2);
    joined_piece(r, t1);
}

/// The line of a coloured cell says what it was made from.
proof fn color_line_reads_back(at: Coord, fg: Option<Rgb>, bg: Option<Rgb>)
    requires
        at.0 < u32::MAX,
        at.1 < u32::MAX,
        fg is Some || bg is Some,
    ensures
        line_colors(color_line(at, fg, bg)) == Some((at, fg, bg)),
        one_line(color_line(at, fg, bg)),
        color_line(at, fg, bg).len() > 0,
{
    color_line_pieces(at, fg, bg);
    decimal_reads_back(at.0 as nat, u32::MAX as nat);
    decimal_reads_back(at.1 as nat, u32::MAX as nat);
    hex_reads_back(fg);
    hex_reads_back(bg);
}

/// The first line of a text ends at the first line feed.
proof fn first_line(s: Seq<char>, rest: Seq<char>)
    requires
        one_line(s),
        s.len() > 0,
    ensures
        lines(s + seq!['\n'] + rest) == seq![s] + lines(rest),
{
    let t = s + seq!['\n'] + rest;
    assert forall|j: int| 0 <= j < s.len() implies t[j] != '\n' by {
        assert(t[j] == s[j]);
    }
    upto_is(t, '\n', s.len() as int);
    assert(t.take(s.len() as int) =~= s);
    assert(s[s.len() - 1] != '\r');
    assert(without_return(s) == s);
    assert(t.skip(s.len() as int + 1) =~= rest);
}

/// Colouring by the lines of `keys` gives those cells the colours that `from` has
/// there, and leaves all else.
proof fn lines_color(sheet: SheetV, from: SheetV, keys: Seq<Coord>)
    requires
        from.well_formed(),
        forall|i: int| 0 <= i < keys.len() ==> from.cells.contains_key(#[trigger] keys[i]),
        forall|i: int, j: int|
            0 <= i < j < keys.len() ==> precedes(#[trigger] keys[i], #[trigger] keys[j]),
    ensures
        ({
            let after = colored(sheet, lines(color_lines(from, keys)));
            forall|at: Coord|
                ({
                    let cell = #[trigger] after.cell(at.0, at.1);
                    &&& cell.raw == sheet.cell(at.0, at.1).raw
                    &&& if keys.contains(at) && is_colored(from.cells[at]) {
                        &&& cell.fg == from_rgb(rgb_or_none(from.cells[at].fg))
                        &&& cell.bg == from_rgb(rgb_or_none(from.cells[at].bg))
                    } else {
                        cell.fg == sheet.cell(at.0, at.1).fg && cell.bg == sheet.cell(
                            at.0,
                            at.1,
                        ).bg
                    }
                })
        }),
    decreases keys.len(),
{
    let text = color_lines(from, keys);
    let after = colored(sheet, lines(text));
    if keys.len() > 0 {
        let k = keys[0];
        let rest = keys.skip(1);
        let cell = from.cells[k];
        let tail = color_lines(from, rest);
        assert forall|i: int| 0 <= i < rest.len() implies from.cells.contains_key(
            #[trigger] rest[i],
        ) by {
            assert(rest[i] == keys[i + 1]);
        }
        let next = if is_colored(cell) {
            let (fg, bg) = (rgb_or_none(cell.fg), rgb_or_none(cell.bg));
            color_line_reads_back(k, fg, bg);
            let line = color_line(k, fg, bg);
            first_line(line, tail);
            let all = lines(text);
            assert(all.skip(1) =~= lines(tail));
            assert(all[0] == line);
            sheet.with_colors(k.0, k.1, from_rgb(fg), from_rgb(bg))
        } else {
            sheet
        };
        lines_color(next, from, rest);
        assert(after == colored(next, lines(tail)));
        assert forall|at: Coord|
            ({
                let c = #[trigger] after.cell(at.0, at.1);
                &&& c.raw == sheet.cell(at.0, at.1).raw
                &&& if keys.contains(at) && is_colored(from.cells[at]) {
                    &&& c.fg == from_rgb(rgb_or_none(from.cells[at].fg))
                    &&& c.bg == from_rgb(rgb_or_none(from.cells[at].bg))
                } else {
                    c.fg == sheet.cell(at.0, at.1).fg && c.bg == sheet.cell(at.0, at.1).bg
                }
            }) by {
            if rest.contains(at) {
                let i = choose|i: int| 0 <= i < rest.len() && rest[i] == at;
                assert(keys[i + 1] == at);
                assert(precedes(keys[0], keys[i + 1]));
            } else if keys.contains(at) {
                let i = choose|i: int| 0 <= i < keys.len() && keys[i] == at;
                if i > 0 {
                    assert(rest[i - 1] == at);
                }
                assert(at == k);
            } else {
                assert(keys.contains(keys[0]));
            }
            assert(next.cell(at.0, at.1).raw == sheet.cell(at.0, at.1).raw);
        }
    }
}

/// Colours survive in the sidecar file: a sheet without colours that is coloured
/// from the sidecar text of another has the other's colours in every cell, as red,
/// green and blue, and its own texts.
pub proof fn colors_read_back(sheet: SheetV, from: SheetV)
    requires
        from.well_formed(),
        forall|at: Coord| #[trigger]
            sheet.cells.contains_key(at) ==> !is_colored(sheet.cells[at]),
    ensures
        forall|r: u32, c: u32|
            ({
                let cell = #[trigger] colored(sheet, lines(sidecar_text(from))).cell(r, c);
                &&& cell.fg == from_rgb(rgb_or_none(from.cell(r, c).fg))
                &&& cell.bg == from_rgb(rgb_or_none(from.cell(r, c).bg))
                &&& cell.raw == sheet.cell(r, c).raw
            }),
{
    let keys = in_order(from.cells.dom());
    let after = colored(sheet, lines(sidecar_text(from)));
    listed(from.cells.dom());
    assert forall|i: int| 0 <= i < keys.len() implies from.cells.contains_key(
        #[trigger] keys[i],
    ) by {
        assert(keys.contains(keys[i]));
    }
    lines_color(sheet, from, keys);
    assert forall|r: u32, c: u32|
        ({
            let cell = #[trigger] after.cell(r, c);
            &&& cell.fg == from_rgb(rgb_or_none(from.cell(r, c).fg))
            &&& cell.bg == from_rgb(rgb_or_none(from.cell(r, c).bg))
            &&& cell.raw == sheet.cell(r, c).raw
        }) by {
        let at: Coord = (r, c);
        assert(after.cell(at.0, at.1) == after.cell(r, c));
        assert(from.cells.dom().contains(at) <==> keys.contains(at));
        assert(sheet.cells.contains_key(at) ==> !is_colored(sheet.cells[at]));
    }
}

/// The palette: eight dark colours that mix red, green and blue by the bits of their
/// number, eight bright ones of the same mixtures, a cube of six steps of red, green and
/// blue, and twenty-four greys.
pub proof fn palette_mixes(n: u8, r: u8, g: u8, b: u8)
    requires
        r < 6,
        g < 6,
        b < 6,
    ensures
        ({
            let on = |bit: int, strength: u8|
                if (n as int / bit) % 2 == 1 {
                    strength
                } else {
                    0u8
                };
            &&& n < 7 ==> palette_color(n) == (on(1, 128), on(2, 128), on(4, 128))
            &&& 9 <= n < 16 ==> palette_color(n) == (on(1, 255), on(2, 255), on(4, 255))
            &&& palette_color(7) == (192u8, 192u8, 192u8)
            &&& palette_color(8) == (128u8, 128u8, 128u8)
        }),
        ({
            let step = |k: u8|
                if k == 0 {
                    0int
                } else {
                    55 + 40 * k
                };
            let c = palette_color((16 + 36 * r + 6 * g + b) as u8);
            c.0 == step(r) && c.1 == step(g) && c.2 == step(b)
        }),
        n < 24 ==> palette_color((232 + n) as u8).0 == 8 + 10 * n && palette_color(
            (232 + n) as u8,
        ).1 == 8 + 10 * n && palette_color((232 + n) as u8).2 == 8 + 10 * n,
{
    let k = 36 * r + 6 * g + b;
    assert(k / 36 == r && (k / 6) % 6 == g && k % 6 == b);
}

/// The names of colours name what they say: the colours that have red, green and blue
/// in them, and no others.
pub proof fn names_name_colors()
    ensures
        named_color("black"@) matches Some(n) && palette_color(n) == (0u8, 0u8, 0u8),
        named_color("red"@) matches Some(n) && palette_color(n) == (128u8, 0u8, 0u8),
        named_color("green"@) matches Some(n) && palette_color(n) == (0u8, 128u8, 0u8),
        named_color("yellow"@) matches Some(n) && palette_color(n) == (128u8, 128u8, 0u8),
        named_color("blue"@) matches Some(n) && palette_color(n) == (0u8, 0u8, 128u8),
        named_color("magenta"@) matches Some(n) && palette_color(n) == (128u8, 0u8, 128u8),
        named_color("cyan"@) matches Some(n) && palette_color(n) == (0u8, 128u8, 128u8),
        named_color("white"@) matches Some(n) && palette_color(n) == (192u8, 192u8, 192u8),
        named_color("grey"@) matches Some(n) && palette_color(n) == (128u8, 128u8, 128u8),
        named_color("gray"@) == named_color("grey"@),
        named_color("orange"@) matches Some(n) && palette_color(n) == (255u8, 135u8, 0u8),
{
    reveal_strlit("black");
    reveal_strlit("red");
    reveal_strlit("green");
    reveal_strlit("yellow");
    reveal_strlit("blue");
    reveal_strlit("magenta");
    reveal_strlit("cyan");
    reveal_strlit("white");
    reveal_strlit("grey");
    reveal_strlit("gray");
    reveal_strlit("orange");
    assert("black"@[0] == 'b' && "black"@.len() == 5);
    assert("red"@.len() == 3 && "yellow"@.len() == 6 && "magenta"@.len() == 7);
    assert("green"@[0] == 'g' && "green"@.len() == 5);
    assert("yellow"@[0] == 'y' && "orange"@[0] == 'o' && "orange"@.len() == 6);
    assert("blue"@[0] == 'b' && "blue"@.len() == 4 && "cyan"@[0] == 'c' && "cyan"@.len() == 4);
    assert("white"@[0] == 'w' && "white"@.len() == 5);
    assert("grey"@[0] == 'g' && "grey"@.len() == 4 && "gray"@[0] == 'g' && "gray"@.len() == 4);
    assert("grey"@[2] == 'e' && "gray"@[2] == 'a');
    assert(palette_color(208) == (255u8, 135u8, 0u8));
}

/// A colour is typed as a number of the palette, or by its name, in whatever case and
/// with white space around it; text before the first comma is the colour of the text,
/// and what follows it that of the background.
pub proof fn colors_are_typed(n: u8, a: Seq<char>, b: Seq<char>, x: Seq<char>)
    requires
        !a.contains(','),
    ensures
        color_of(decimal(n as nat)) == Some(n),
        colors_of(a) == (color_of(a), None::<u8>),
        colors_of(a + seq![','] + b) == (color_of(a), color_of(b)),
        unsigned_value(ascii_lower(trim_space(x)), 255) is None ==> color_of(x) == named_color(
            ascii_lower(trim_space(x)),
        ),
{
    number_word(Some(n));
    let s = a + seq![','] + b;
    assert forall|j: int| 0 <= j < a.len() implies a[j] != ',' by {
        assert(a.contains(a[j]));
    }
    assert forall|j: int| 0 <= j < a.len() implies s[j] != ',' by {
        assert(s[j] == a[j]);
    }
    upto_is(a, ',', a.len() as int);
    upto_is(s, ',', a.len() as int);
    assert(s.take(a.len() as int) =~= a);
    assert(s.skip(a.len() as int + 1) =~= b);
}

/// Hexadecimal notation: red, green and blue, two digits each that count in sixteens,
/// the letters from a to f being ten to fifteen; three digits stand for six.
pub proof fn hex_counts_in_sixteens(c: Rgb, d: int, s: Seq<char>)
    requires
        0 <= d < 16,
        s.len() == 3,
        s[0] != '#',
        hex_digit(s[0]) is Some && hex_digit(s[1]) is Some && hex_digit(s[2]) is Some,
    ensures
        ({
            let t = hex_text(Some(c));
            &&& t.len() == 7 && t[0] == '#'
            &&& hex_digit(t[1])->0 * 16 + hex_digit(t[2])->0 == c.0
            &&& hex_digit(t[3])->0 * 16 + hex_digit(t[4])->0 == c.1
            &&& hex_digit(t[5])->0 * 16 + hex_digit(t[6])->0 == c.2
        }),
        d < 10 ==> hex_digit((48 + d) as u8 as char) == Some(d as u8),
        d >= 10 ==> hex_digit((87 + d) as u8 as char) == Some(d as u8) && hex_digit(
            (55 + d) as u8 as char,
        ) == Some(d as u8),
        hex_color(seq!['#'] + s) == hex_color(
            seq!['#', s[0], s[0], s[1], s[1], s[2], s[2]],
        ),
{
    let (x, y, z) = (hex_byte(c.0), hex_byte(c.1), hex_byte(c.2));
    assert(hex_text(Some(c)) =~= seq!['#', x[0], x[1], y[0], y[1], z[0], z[1]]);
    let p = seq!['#'] + s;
    let q = seq!['#', s[0], s[0], s[1], s[1], s[2], s[2]];
    assert(p.skip(1) =~= s);
    assert(q.skip(1)[0] == s[0]);
    assert(trim_start(s, only('#')) == s);
    assert(trim_start(q.skip(1), only('#')) == q.skip(1));
    assert(trim_start(p, only('#')) == s);
    assert(trim_start(q, only('#')) == q.skip(1));
}

/// A line of the sidecar file is the row, the column, the colour of the text and that of
/// the background, with commas between, rows and columns counted from zero.
pub proof fn sidecar_lines_are_written(at: Coord, fg: Option<Rgb>, bg: Option<Rgb>)
    ensures
        pieces(color_line(at, fg, bg), ',') == seq![
            decimal(at.0 as nat),
            decimal(at.1 as nat),
            hex_text(fg),
            hex_text(bg),
        ],
        at.0 < u32::MAX && at.1 < u32::MAX && (fg is Some || bg is Some) ==> line_colors(
            color_line(at, fg, bg),
        ) == Some((at, fg, bg)),
        at.0 == u32::MAX || at.1 == u32::MAX || (fg is None && bg is None) ==> line_colors(
            color_line(at, fg, bg),
        ) is None,
{
    color_line_pieces(at, fg, bg);
    if at.0 < u32::MAX && at.1 < u32::MAX && (fg is Some || bg is Some) {
        color_line_reads_back(at, fg, bg);
    } else {
        decimal_denotes(at.0 as nat);
        decimal_denotes(at.1 as nat);
        hex_reads_back(fg);
        hex_reads_back(bg);
        assert(decimal(at.0 as nat)[0] != '+' && decimal(at.1 as nat)[0] != '+');
    }
}

/// The lines of a sidecar file colour one cell each, one after the other; a line that is
/// not made of four parts says nothing, and the others say nothing of any cell but their
/// own, nor of texts and values.
pub proof fn sidecar_lines_color_cells(
    sheet: SheetV,
    rows: Seq<Seq<char>>,
    line: Seq<char>,
    c: Coord,
)
    ensures
        colored(sheet, rows.push(line)) == colored(colored(sheet, rows), seq![line]),
        pieces(line, ',').len() != 4 ==> colored(sheet, seq![line]) == sheet,
        match line_colors(line) {
            None => colored(sheet, seq![line]) == sheet,
            Some((at, fg, bg)) => {
                let cell = colored(sheet, seq![line]).cell(c.0, c.1);
                let before = sheet.cell(c.0, c.1);
                &&& c != at ==> cell == before
                &&& c == at ==> cell.raw == before.raw
                &&& c == at ==> rgb_or_none(cell.fg) == fg && rgb_or_none(cell.bg) == bg
            },
        },
    decreases rows.len(),
{
    let one = seq![line];
    assert(one.skip(1) =~= Seq::<Seq<char>>::empty());
    assert(one[0] == line);
    reveal_with_fuel(colored, 2);
    if rows.len() == 0 {
        assert(rows.push(line) =~= one);
    } else {
        let next = match line_colors(rows[0]) {
            Some((at, fg, bg)) => sheet.with_colors(at.0, at.1, from_rgb(fg), from_rgb(bg)),
            None => sheet,
        };
        assert(rows.push(line)[0] == rows[0]);
        assert(rows.push(line).skip(1) =~= rows.skip(1).push(line));
        sidecar_lines_color_cells(next, rows.skip(1), line, c);
    }
}

} // verus!
