//! Text as sequences of characters: ASCII classes, trimming, searching,
//! splitting, each with an exact contract over `Seq<char>`.

use vstd::prelude::*;

verus! {

/// `String::push` appends one character to the end of the string.
pub assume_specification[ String::push ](s: &mut String, c: char)
    ensures
        final(s)@ == old(s)@.push(c),
;

// ---- strings and character vectors ---------------------------------------

/// The characters of `s`, in order.
pub fn chars_of(s: &str) -> (v: Vec<char>)
    ensures
        v@ == s@,
{
    let mut v: Vec<char> = Vec::new();
    for c in it: s.chars()
        invariant
            it.seq() == s@,
            v@ == s@.take(it.index() as int),
    {
        v.push(c);
    }
    v
}

/// The string made of the characters of `v`.
pub fn string_of(v: &[char]) -> (s: String)
    ensures
        s@ == v@,
{
    let mut s = String::new();
    for i in 0..v.len()
        invariant
            s@ == v@.take(i as int),
    {
        s.push(v[i]);
    }
    s
}

/// Copies the characters of `v` from `from` up to `to`.
pub fn slice_of(v: &[char], from: usize, to: usize) -> (out: Vec<char>)
    requires
        from <= to <= v@.len(),
    ensures
        out@ == v@.subrange(from as int, to as int),
{
    let mut out: Vec<char> = Vec::new();
    for i in from..to
        invariant
            from <= to <= v@.len(),
            from <= i <= to,
            out@ == v@.subrange(from as int, i as int),
    {
        out.push(v[i]);
    }
    out
}

/// Appends the characters of `tail` to `out`.
pub fn push_chars(out: &mut Vec<char>, tail: &[char])
    ensures
        final(out)@ == old(out)@ + tail@,
{
    let ghost before = out@;
    for i in 0..tail.len()
        invariant
            out@ == before + tail@.take(i as int),
    {
        out.push(tail[i]);
    }
}

/// Appends the characters of `tail` to `out`.
pub fn push_text(out: &mut Vec<char>, tail: &str)
    ensures
        final(out)@ == old(out)@ + tail@,
{
    let chars = chars_of(tail);
    push_chars(out, chars.as_slice());
}

/// Whether two character slices hold the same characters.
pub fn same_chars(a: &[char], b: &[char]) -> (same: bool)
    ensures
        same == (a@ == b@),
{
    if a.len() != b.len() {
        return false;
    }
    for i in 0..a.len()
        invariant
            a@.len() == b@.len(),
            forall|j: int| 0 <= j < i ==> a@[j] == b@[j],
    {
        if a[i] != b[i] {
            return false;
        }
    }
    assert(a@ =~= b@);
    true
}

/// Whether the characters of `a` are those of the string `b`.
pub fn chars_are(a: &[char], b: &str) -> (same: bool)
    ensures
        same == (a@ == b@),
{
    let other = chars_of(b);
    same_chars(a, other.as_slice())
}

/// Whether two strings hold the same characters.
pub fn same_text(a: &str, b: &str) -> (same: bool)
    ensures
        same == (a@ == b@),
{
    let left = chars_of(a);
    chars_are(left.as_slice(), b)
}

// ---- ASCII classes --------------------------------------------------------

pub open spec fn is_digit(c: char) -> bool {
    '0' <= c <= '9'
}

pub open spec fn is_upper(c: char) -> bool {
    'A' <= c <= 'Z'
}

pub open spec fn is_lower(c: char) -> bool {
    'a' <= c <= 'z'
}

pub open spec fn is_letter(c: char) -> bool {
    is_upper(c) || is_lower(c)
}

/// Whether `c` is one of the 128 ASCII characters.
pub open spec fn is_ascii_char(c: char) -> bool {
    (c as u32) < 128
}

pub open spec fn is_ascii_text(s: Seq<char>) -> bool {
    forall|i: int| 0 <= i < s.len() ==> is_ascii_char(#[trigger] s[i])
}

/// The ASCII capital of `c`; any other character stays as it is.
pub open spec fn upper_char(c: char) -> char {
    if is_lower(c) {
        ((c as u8) - 32) as u8 as char
    } else {
        c
    }
}

/// The ASCII small letter of `c`; any other character stays as it is.
pub open spec fn lower_char(c: char) -> char {
    if is_upper(c) {
        ((c as u8) + 32) as u8 as char
    } else {
        c
    }
}

pub open spec fn ascii_upper(s: Seq<char>) -> Seq<char> {
    s.map_values(|c: char| upper_char(c))
}

pub open spec fn ascii_lower(s: Seq<char>) -> Seq<char> {
    s.map_values(|c: char| lower_char(c))
}

pub fn digit(c: char) -> (r: bool)
    ensures
        r == is_digit(c),
{
    '0' <= c && c <= '9'
}

pub fn letter(c: char) -> (r: bool)
    ensures
        r == is_letter(c),
{
    ('A' <= c && c <= 'Z') || ('a' <= c && c <= 'z')
}

pub fn ascii(v: &[char]) -> (r: bool)
    ensures
        r == is_ascii_text(v@),
{
    for i in 0..v.len()
        invariant
            forall|j: int| 0 <= j < i ==> is_ascii_char(#[trigger] v@[j]),
    {
        if (v[i] as u32) >= 128 {
            assert(!is_ascii_char(v@[i as int]));
            return false;
        }
    }
    true
}

pub fn to_upper_char(c: char) -> (r: char)
    ensures
        r == upper_char(c),
{
    if 'a' <= c && c <= 'z' {
        ((c as u8) - 32) as char
    } else {
        c
    }
}

pub fn to_lower_char(c: char) -> (r: char)
    ensures
        r == lower_char(c),
{
    if 'A' <= c && c <= 'Z' {
        ((c as u8) + 32) as char
    } else {
        c
    }
}

pub fn to_ascii_upper(v: &[char]) -> (out: Vec<char>)
    ensures
        out@ == ascii_upper(v@),
{
    let mut out: Vec<char> = Vec::new();
    for i in 0..v.len()
        invariant
            out@ == ascii_upper(v@).take(i as int),
    {
        out.push(to_upper_char(v[i]));
    }
    out
}

pub fn to_ascii_lower(v: &[char]) -> (out: Vec<char>)
    ensures
        out@ == ascii_lower(v@),
{
    let mut out: Vec<char> = Vec::new();
    for i in 0..v.len()
        invariant
            out@ == ascii_lower(v@).take(i as int),
    {
        out.push(to_lower_char(v[i]));
    }
    out
}

/// Equality of texts up to the case of ASCII letters.
pub open spec fn same_ignoring_case(a: Seq<char>, b: Seq<char>) -> bool {
    ascii_lower(a) == ascii_lower(b)
}

pub fn eq_ignore_case(a: &[char], b: &[char]) -> (r: bool)
    ensures
        r == same_ignoring_case(a@, b@),
{
    let left = to_ascii_lower(a);
    let right = to_ascii_lower(b);
    same_chars(left.as_slice(), right.as_slice())
}

// ---- Unicode case and white space -----------------------------------------

/// What `str::to_uppercase` makes of a text.
pub uninterp spec fn uppercase_text(s: Seq<char>) -> Seq<char>;

/// What `str::to_lowercase` makes of a text.
pub uninterp spec fn lowercase_text(s: Seq<char>) -> Seq<char>;

/// `str::to_uppercase`: the Unicode upper case of the text. On ASCII text it
/// changes the small letters to capitals and nothing else.
#[verifier::external_body]
pub(crate) fn unicode_upper(s: &str) -> (r: String)
    ensures
        r@ == uppercase_text(s@),
        is_ascii_text(s@) ==> r@ == ascii_upper(s@),
{
    s.to_uppercase()
}

/// `str::to_lowercase`: the Unicode lower case of the text. On ASCII text it
/// changes the capitals to small letters and nothing else.
#[verifier::external_body]
pub(crate) fn unicode_lower(s: &str) -> (r: String)
    ensures
        r@ == lowercase_text(s@),
        is_ascii_text(s@) ==> r@ == ascii_lower(s@),
{
    s.to_lowercase()
}

/// The Unicode property White_Space.
pub open spec fn is_space(c: char) -> bool {
    let n = c as u32;
    ||| 0x09 <= n <= 0x0d
    ||| n == 0x20
    ||| n == 0x85
    ||| n == 0xa0
    ||| n == 0x1680
    ||| 0x2000 <= n <= 0x200a
    ||| n == 0x2028
    ||| n == 0x2029
    ||| n == 0x202f
    ||| n == 0x205f
    ||| n == 0x3000
}

pub fn space(c: char) -> (r: bool)
    ensures
        r == is_space(c),
{
    let n: u32 = c as u32;
    (0x09 <= n && n <= 0x0d) || n == 0x20 || n == 0x85 || n == 0xa0 || n == 0x1680 || (0x2000 <= n
        && n <= 0x200a) || n == 0x2028 || n == 0x2029 || n == 0x202f || n == 0x205f || n == 0x3000
}

// ---- trimming -------------------------------------------------------------

/// The text without its leading characters that satisfy `p`.
pub open spec fn trim_start(s: Seq<char>, p: spec_fn(char) -> bool) -> Seq<char>
    decreases s.len(),
{
    if s.len() > 0 && p(s[0]) {
        trim_start(s.skip(1), p)
    } else {
        s
    }
}

/// The text without its trailing characters that satisfy `p`.
pub open spec fn trim_end(s: Seq<char>, p: spec_fn(char) -> bool) -> Seq<char>
    decreases s.len(),
{
    if s.len() > 0 && p(s.last()) {
        trim_end(s.drop_last(), p)
    } else {
        s
    }
}

/// The text without the white space at both ends.
pub open spec fn trim_space(s: Seq<char>) -> Seq<char> {
    trim_end(trim_start(s, |c: char| is_space(c)), |c: char| is_space(c))
}

/// The predicate that holds of the character `x` alone.
pub open spec fn only(x: char) -> spec_fn(char) -> bool {
    |c: char| c == x
}

/// The text without the characters `x` at both ends.
pub open spec fn trim_char(s: Seq<char>, x: char) -> Seq<char> {
    trim_end(trim_start(s, only(x)), only(x))
}

/// Trimming makes no text longer.
pub proof fn trimming_shortens(s: Seq<char>, p: spec_fn(char) -> bool)
    ensures
        trim_start(s, p).len() <= s.len(),
        trim_end(s, p).len() <= s.len(),
    decreases s.len(),
{
    if s.len() > 0 {
        trimming_shortens(s.skip(1), p);
        trimming_shortens(s.drop_last(), p);
    }
}

/// Removes white space at both ends.
pub fn trim(v: &[char]) -> (out: Vec<char>)
    ensures
        out@ == trim_space(v@),
{
    let ghost p = |c: char| is_space(c);
    let mut from: usize = 0;
    assert(v@.skip(0) == v@);
    while from < v.len() && space(v[from])
        invariant
            p == (|c: char| is_space(c)),
            from <= v@.len(),
            trim_start(v@, p) == trim_start(v@.skip(from as int), p),
        decreases v@.len() - from,
    {
        assert(v@.skip(from as int).skip(1) == v@.skip(from + 1));
        from = from + 1;
    }
    let ghost rest = v@.skip(from as int);
    let mut to: usize = v.len();
    assert(rest.take(to - from) == rest);
    while from < to && space(v[to - 1])
        invariant
            p == (|c: char| is_space(c)),
            from <= to <= v@.len(),
            rest == v@.skip(from as int),
            trim_end(rest, p) == trim_end(rest.take(to - from), p),
        decreases to,
    {
        assert(rest.take(to - from).drop_last() == rest.take(to - 1 - from));
        to = to - 1;
    }
    assert(rest.take(to - from) == v@.subrange(from as int, to as int));
    slice_of(v, from, to)
}

/// Removes the characters `x` at both ends.
pub fn trim_matches(v: &[char], x: char) -> (out: Vec<char>)
    ensures
        out@ == trim_char(v@, x),
{
    let ghost p = only(x);
    let mut from: usize = 0;
    assert(v@.skip(0) == v@);
    while from < v.len() && v[from] == x
        invariant
            p == only(x),
            from <= v@.len(),
            trim_start(v@, p) == trim_start(v@.skip(from as int), p),
        decreases v@.len() - from,
    {
        assert(v@.skip(from as int).skip(1) == v@.skip(from + 1));
        from = from + 1;
    }
    let ghost rest = v@.skip(from as int);
    let mut to: usize = v.len();
    assert(rest.take(to - from) == rest);
    while from < to && v[to - 1] == x
        invariant
            p == only(x),
            from <= to <= v@.len(),
            rest == v@.skip(from as int),
            trim_end(rest, p) == trim_end(rest.take(to - from), p),
        decreases to,
    {
        assert(rest.take(to - from).drop_last() == rest.take(to - 1 - from));
        to = to - 1;
    }
    assert(rest.take(to - from) == v@.subrange(from as int, to as int));
    slice_of(v, from, to)
}

/// Removes the characters `x` at the end.
pub fn trim_end_matches(v: &[char], x: char) -> (out: Vec<char>)
    ensures
        out@ == trim_end(v@, only(x)),
{
    let ghost p = only(x);
    let mut to: usize = v.len();
    assert(v@.take(to as int) == v@);
    while 0 < to && v[to - 1] == x
        invariant
            p == only(x),
            to <= v@.len(),
            trim_end(v@, p) == trim_end(v@.take(to as int), p),
        decreases to,
    {
        assert(v@.take(to as int).drop_last() == v@.take(to - 1));
        to = to - 1;
    }
    assert(v@.take(to as int) == v@.subrange(0, to as int));
    slice_of(v, 0, to)
}

// ---- searching ------------------------------------------------------------

/// `needle` stands in `hay` at position `at`.
pub open spec fn occurs_at(hay: Seq<char>, needle: Seq<char>, at: int) -> bool {
    &&& 0 <= at
    &&& at + needle.len() <= hay.len()
    &&& hay.subrange(at, at + needle.len()) == needle
}

fn matches_at(hay: &[char], needle: &[char], at: usize) -> (r: bool)
    requires
        at + needle@.len() <= hay@.len(),
    ensures
        r == occurs_at(hay@, needle@, at as int),
{
    let n: usize = hay.len();
    for i in 0..needle.len()
        invariant
            n == hay@.len(),
            at + needle@.len() <= n,
            forall|j: int| 0 <= j < i ==> hay@[at + j] == needle@[j],
    {
        if hay[at + i] != needle[i] {
            assert(hay@.subrange(at as int, at + needle@.len())[i as int] != needle@[i as int]);
            return false;
        }
    }
    assert(hay@.subrange(at as int, at + needle@.len()) =~= needle@);
    true
}

/// The first position, at or after `from`, at which `needle` stands.
pub fn find_from(hay: &[char], needle: &[char], from: usize) -> (r: Option<usize>)
    requires
        from <= hay@.len(),
    ensures
        match r {
            Some(at) => from <= at && occurs_at(hay@, needle@, at as int) && (forall|j: int|
                from <= j < at ==> !occurs_at(hay@, needle@, j)),
            None => forall|j: int| from <= j ==> !occurs_at(hay@, needle@, j),
        },
{
    let mut at: usize = from;
    while at <= hay.len() && needle.len() <= hay.len() - at
        invariant
            from <= at <= hay@.len() + 1,
            forall|j: int| from <= j < at ==> !occurs_at(hay@, needle@, j),
        decreases hay@.len() + 1 - at,
    {
        if matches_at(hay, needle, at) {
            return Some(at);
        }
        if at == hay.len() {
            return None;
        }
        at = at + 1;
    }
    None
}

/// The last position at which `needle` stands.
pub fn rfind(hay: &[char], needle: &[char]) -> (r: Option<usize>)
    ensures
        match r {
            Some(at) => occurs_at(hay@, needle@, at as int) && (forall|j: int|
                at < j ==> !occurs_at(hay@, needle@, j)),
            None => forall|j: int| !occurs_at(hay@, needle@, j),
        },
{
    if needle.len() > hay.len() {
        return None;
    }
    let mut at: usize = hay.len() - needle.len();
    loop
        invariant
            at + needle@.len() <= hay@.len(),
            forall|j: int| at < j ==> !occurs_at(hay@, needle@, j),
        decreases at,
    {
        if matches_at(hay, needle, at) {
            return Some(at);
        }
        if at == 0 {
            return None;
        }
        at = at - 1;
    }
}

/// The first position at or after `from` that holds `x`.
pub fn find_char(v: &[char], x: char, from: usize) -> (r: Option<usize>)
    requires
        from <= v@.len(),
    ensures
        match r {
            Some(at) => from <= at < v@.len() && v@[at as int] == x && (forall|j: int|
                from <= j < at ==> v@[j] != x),
            None => forall|j: int| from <= j < v@.len() ==> v@[j] != x,
        },
{
    for i in from..v.len()
        invariant
            from <= i <= v@.len(),
            forall|j: int| from <= j < i ==> v@[j] != x,
    {
        if v[i] == x {
            return Some(i);
        }
    }
    None
}

// ---- splitting ------------------------------------------------------------

/// How many characters stand before the first `x`.
pub open spec fn upto(s: Seq<char>, x: char) -> int
    decreases s.len(),
{
    if s.len() == 0 || s[0] == x {
        0
    } else {
        1 + upto(s.skip(1), x)
    }
}

/// What stands before, between and after the separators `x`.
pub open spec fn pieces(s: Seq<char>, x: char) -> Seq<Seq<char>>
    decreases s.len(),
{
    let i = upto(s, x);
    if 0 <= i < s.len() {
        seq![s.take(i)] + pieces(s.skip(i + 1), x)
    } else {
        seq![s]
    }
}

/// The text without a carriage return at its end.
pub open spec fn without_return(s: Seq<char>) -> Seq<char> {
    if s.len() > 0 && s.last() == '\r' {
        s.drop_last()
    } else {
        s
    }
}

/// The lines of a text. A line ends at a line feed, with the carriage return that
/// may stand before it; the last line need not end so.
pub open spec fn lines(s: Seq<char>) -> Seq<Seq<char>>
    decreases s.len(),
{
    let i = upto(s, '\n');
    if s.len() == 0 {
        Seq::empty()
    } else if 0 <= i < s.len() {
        seq![without_return(s.take(i))] + lines(s.skip(i + 1))
    } else {
        seq![s]
    }
}

/// The first `x` stands where all before it differ.
pub proof fn upto_is(s: Seq<char>, x: char, i: int)
    requires
        0 <= i <= s.len(),
        forall|j: int| 0 <= j < i ==> s[j] != x,
        i == s.len() || s[i] == x,
    ensures
        upto(s, x) == i,
    decreases s.len(),
{
    if i > 0 {
        assert(s[0] != x);
        upto_is(s.skip(1), x, i - 1);
    }
}

/// The first `x` stands in the text, or at its end.
pub proof fn upto_bounds(s: Seq<char>, x: char)
    ensures
        0 <= upto(s, x) <= s.len(),
    decreases s.len(),
{
    if s.len() > 0 && s[0] != x {
        upto_bounds(s.skip(1), x);
    }
}

/// The views of the texts.
pub open spec fn views(v: Seq<Vec<char>>) -> Seq<Seq<char>> {
    Seq::new(v.len(), |i: int| v[i]@)
}

/// Splits at every `x`.
pub fn split(v: &[char], x: char) -> (out: Vec<Vec<char>>)
    ensures
        views(out@) == pieces(v@, x),
{
    let mut out: Vec<Vec<char>> = Vec::new();
    let mut from: usize = 0;
    let n: usize = v.len();
    assert(views(out@) + pieces(v@.skip(0), x) =~= pieces(v@, x)) by {
        assert(v@.skip(0) =~= v@);
    }
    loop
        invariant
            n == v@.len(),
            from <= n,
            views(out@) + pieces(v@.skip(from as int), x) == pieces(v@, x),
        decreases v@.len() - from,
    {
        let ghost rest = v@.skip(from as int);
        let ghost done = views(out@);
        match find_char(v, x, from) {
            Some(at) => {
                let piece = slice_of(v, from, at);
                proof {
                    upto_is(rest, x, at - from);
                    assert(rest.take(at - from) =~= piece@);
                    assert(rest.skip(at - from + 1) =~= v@.skip(at + 1));
                }
                out.push(piece);
                from = at + 1;
                assert(views(out@) =~= done.push(piece@));
                assert(views(out@) + pieces(v@.skip(from as int), x) =~= done + pieces(rest, x));
            },
            None => {
                let piece = slice_of(v, from, n);
                proof {
                    upto_is(rest, x, rest.len() as int);
                    assert(rest =~= piece@);
                }
                out.push(piece);
                assert(views(out@) =~= done + seq![piece@]);
                return out;
            },
        }
    }
}

/// Splits into lines.
pub fn split_lines(v: &[char]) -> (out: Vec<Vec<char>>)
    ensures
        views(out@) == lines(v@),
{
    let mut out: Vec<Vec<char>> = Vec::new();
    let mut from: usize = 0;
    assert(views(out@) + lines(v@.skip(0)) =~= lines(v@)) by {
        assert(v@.skip(0) =~= v@);
    }
    while from < v.len()
        invariant
            from <= v@.len(),
            views(out@) + lines(v@.skip(from as int)) == lines(v@),
        decreases v@.len() - from,
    {
        let ghost rest = v@.skip(from as int);
        let ghost done = views(out@);
        match find_char(v, '\n', from) {
            Some(at) => {
                let end: usize = if at > from && v[at - 1] == '\r' {
                    at - 1
                } else {
                    at
                };
                let line = slice_of(v, from, end);
                proof {
                    upto_is(rest, '\n', at - from);
                    assert(without_return(rest.take(at - from)) =~= line@);
                    assert(rest.skip(at - from + 1) =~= v@.skip(at + 1));
                }
                out.push(line);
                from = at + 1;
                assert(views(out@) =~= done.push(line@));
                assert(views(out@) + lines(v@.skip(from as int)) =~= done + lines(rest));
            },
            None => {
                let line = slice_of(v, from, v.len());
                proof {
                    upto_is(rest, '\n', rest.len() as int);
                    assert(rest =~= line@);
                }
                out.push(line);
                assert(views(out@) =~= done + seq![line@]);
                return out;
            },
        }
    }
    assert(v@.skip(from as int) =~= Seq::<char>::empty());
    assert(views(out@) + lines(v@.skip(from as int)) =~= views(out@));
    out
}

// ---- laws -----------------------------------------------------------------

/// What is trimmed away at the ends satisfies the predicate, and what is left does not
/// at its ends.
pub proof fn trimming_splits(s: Seq<char>, p: spec_fn(char) -> bool)
    ensures
        ({
            let t = trim_start(s, p);
            &&& t.len() <= s.len()
            &&& t == s.skip(s.len() - t.len())
            &&& forall|i: int| 0 <= i < s.len() - t.len() ==> p(#[trigger] s[i])
            &&& t.len() > 0 ==> !p(t[0])
        }),
        ({
            let t = trim_end(s, p);
            &&& t.len() <= s.len()
            &&& t == s.take(t.len() as int)
            &&& forall|i: int| t.len() <= i < s.len() ==> p(#[trigger] s[i])
            &&& t.len() > 0 ==> !p(t.last())
        }),
    decreases s.len(),
{
    if s.len() > 0 && p(s[0]) {
        trimming_splits(s.skip(1), p);
        let t = trim_start(s, p);
        assert(s.skip(1).skip(s.skip(1).len() - t.len()) =~= s.skip(s.len() - t.len()));
        assert forall|i: int| 0 <= i < s.len() - t.len() implies p(#[trigger] s[i]) by {
            if i > 0 {
                assert(s.skip(1)[i - 1] == s[i]);
            }
        }
    } else {
        assert(s.skip(0) =~= s);
    }
    if s.len() > 0 && p(s.last()) {
        trimming_splits(s.drop_last(), p);
        let t = trim_end(s, p);
        assert(s.drop_last().take(t.len() as int) =~= s.take(t.len() as int));
        assert forall|i: int| t.len() <= i < s.len() implies p(#[trigger] s[i]) by {
            if i < s.len() - 1 {
                assert(s.drop_last()[i] == s[i]);
            }
        }
    } else {
        assert(s.take(s.len() as int) =~= s);
    }
}

/// What is left of a text without the white space around it: a part of it that neither
/// begins nor ends with white space, between runs of white space.
pub proof fn space_is_trimmed(s: Seq<char>) -> (at: int)
    ensures
        ({
            let t = trim_space(s);
            &&& 0 <= at
            &&& at + t.len() <= s.len()
            &&& t == s.subrange(at, at + t.len())
            &&& forall|i: int|
                0 <= i < s.len() && !(at <= i < at + t.len()) ==> is_space(#[trigger] s[i])
            &&& t.len() > 0 ==> !is_space(t[0]) && !is_space(t.last())
        }),
        is_space(' '),
        is_space('\t'),
        is_space('\n'),
        is_space('\r'),
        forall|c: char| '!' <= c <= '~' ==> !is_space(c),
{
    let p = |c: char| is_space(c);
    let a = trim_start(s, p);
    let t = trim_end(a, p);
    trimming_splits(s, p);
    trimming_splits(a, p);
    let at = s.len() - a.len();
    assert(trim_space(s) == t);
    assert(t =~= s.subrange(at, at + t.len()));
    assert forall|i: int| 0 <= i < s.len() && !(at <= i < at + t.len()) implies is_space(
        #[trigger] s[i],
    ) by {
        if i < at {
            assert(p(s[i]));
        } else {
            assert(a[i - at] == s[i]);
            assert(p(a[i - at]));
        }
    }
    if t.len() > 0 {
        assert(t[0] == a[0]);
    }
    at
}

/// A line ends at the first line feed, with the carriage return before it; what follows
/// are the other lines. A text without line feeds is one line, and no text none.
pub proof fn lines_end_at_feeds(a: Seq<char>, rest: Seq<char>)
    requires
        !a.contains('\n'),
    ensures
        lines(Seq::empty()).len() == 0,
        a.len() > 0 ==> lines(a) == seq![a],
        a.len() == 0 || a.last() != '\r' ==> lines(a + seq!['\n'] + rest) == seq![a] + lines(rest),
        lines(a + seq!['\r', '\n'] + rest) == seq![a] + lines(rest),
{
    let s = a + seq!['\n'] + rest;
    assert forall|j: int| 0 <= j < a.len() implies a[j] != '\n' by {
        assert(a.contains(a[j]));
    }
    assert forall|j: int| 0 <= j < a.len() implies s[j] != '\n' by {
        assert(s[j] == a[j]);
    }
    upto_is(s, '\n', a.len() as int);
    assert(s.take(a.len() as int) =~= a);
    assert(s.skip(a.len() as int + 1) =~= rest);
    upto_is(a, '\n', a.len() as int);
    let t = a + seq!['\r', '\n'] + rest;
    assert forall|j: int| 0 <= j < a.len() + 1 implies t[j] != '\n' by {
        if j < a.len() {
            assert(t[j] == a[j]);
        }
    }
    upto_is(t, '\n', a.len() as int + 1);
    assert(t.take(a.len() as int + 1) =~= a.push('\r'));
    assert(a.push('\r').drop_last() =~= a);
    assert(t.skip(a.len() as int + 2) =~= rest);
}

/// A text without separators is one piece, and a separator ends a piece.
pub proof fn separators_end_pieces(a: Seq<char>, x: char, rest: Seq<char>)
    requires
        !a.contains(x),
    ensures
        pieces(a, x) == seq![a],
        pieces(a + seq![x] + rest, x) == seq![a] + pieces(rest, x),
{
    let s = a + seq![x] + rest;
    assert forall|j: int| 0 <= j < a.len() implies a[j] != x by {
        assert(a.contains(a[j]));
    }
    assert forall|j: int| 0 <= j < a.len() implies s[j] != x by {
        assert(s[j] == a[j]);
    }
    upto_is(s, x, a.len() as int);
    upto_is(a, x, a.len() as int);
    assert(s.take(a.len() as int) =~= a);
    assert(s.skip(a.len() as int + 1) =~= rest);
}

/// Capitals and small letters: each ASCII letter has one of the other case, thirty-two
/// places away, and every other character is left as it is. Texts are the same but for
/// case where their characters are, one by one.
pub proof fn cases_pair_up(c: char, a: Seq<char>, b: Seq<char>)
    ensures
        'a' <= c <= 'z' ==> upper_char(c) as int == c as int - 32 && lower_char(upper_char(c)) == c,
        'A' <= c <= 'Z' ==> lower_char(c) as int == c as int + 32 && upper_char(lower_char(c)) == c,
        !('a' <= c <= 'z') ==> upper_char(c) == c,
        !('A' <= c <= 'Z') ==> lower_char(c) == c,
        ascii_upper(a).len() == a.len(),
        ascii_lower(a).len() == a.len(),
        forall|i: int|
            0 <= i < a.len() ==> #[trigger] ascii_upper(a)[i] == upper_char(a[i]),
        same_ignoring_case(a, b) <==> a.len() == b.len() && forall|i: int|
            0 <= i < a.len() ==> lower_char(#[trigger] a[i]) == lower_char(b[i]),
{
    if same_ignoring_case(a, b) {
        assert(ascii_lower(a).len() == ascii_lower(b).len());
        assert forall|i: int| 0 <= i < a.len() implies lower_char(#[trigger] a[i]) == lower_char(
            b[i],
        ) by {
            assert(ascii_lower(a)[i] == ascii_lower(b)[i]);
        }
    }
    if a.len() == b.len() && forall|i: int|
        0 <= i < a.len() ==> lower_char(#[trigger] a[i]) == lower_char(b[i]) {
        assert(ascii_lower(a) =~= ascii_lower(b));
    }
}

/// White space is the tab, the line feed, the vertical tab, the form feed, the carriage
/// return, the spaces of all widths, breaking or not, the next line and the separators of
/// lines and paragraphs; a text that is none of these stays when it is trimmed.
pub proof fn white_space_is(c: char)
    ensures
        seq![
            '\t',
            '\n',
            '\u{b}',
            '\u{c}',
            '\r',
            ' ',
            '\u{85}',
            '\u{a0}',
            '\u{1680}',
            '\u{2000}',
            '\u{2001}',
            '\u{2002}',
            '\u{2003}',
            '\u{2004}',
            '\u{2005}',
            '\u{2006}',
            '\u{2007}',
            '\u{2008}',
            '\u{2009}',
            '\u{200a}',
            '\u{2028}',
            '\u{2029}',
            '\u{202f}',
            '\u{205f}',
            '\u{3000}',
        ].contains(c) <==> trim_space(seq![c]) == Seq::<char>::empty(),
        trim_space(seq![c]) == Seq::<char>::empty() || trim_space(seq![c]) == seq![c],
{
    let list = seq![
        '\t',
        '\n',
        '\u{b}',
        '\u{c}',
        '\r',
        ' ',
        '\u{85}',
        '\u{a0}',
        '\u{1680}',
        '\u{2000}',
        '\u{2001}',
        '\u{2002}',
        '\u{2003}',
        '\u{2004}',
        '\u{2005}',
        '\u{2006}',
        '\u{2007}',
        '\u{2008}',
        '\u{2009}',
        '\u{200a}',
        '\u{2028}',
        '\u{2029}',
        '\u{202f}',
        '\u{205f}',
        '\u{3000}',
    ];
    let p = |x: char| is_space(x);
    let one = seq![c];
    assert(one.skip(1) =~= Seq::<char>::empty());
    assert(one.drop_last() =~= Seq::<char>::empty());
    assert(trim_start(one.skip(1), p) == Seq::<char>::empty());
    assert(trim_end(Seq::<char>::empty(), p) == Seq::<char>::empty());
    assert(one.len() == 1 && one[0] == c && one.last() == c);
    assert(list[0] == '\t' && list[1] == '\n' && list[2] == '\u{b}' && list[3] == '\u{c}');
    assert(list[4] == '\r' && list[5] == ' ' && list[6] == '\u{85}' && list[7] == '\u{a0}');
    assert(list[8] == '\u{1680}' && list[9] == '\u{2000}' && list[10] == '\u{2001}');
    assert(list[11] == '\u{2002}' && list[12] == '\u{2003}' && list[13] == '\u{2004}');
    assert(list[14] == '\u{2005}' && list[15] == '\u{2006}' && list[16] == '\u{2007}');
    assert(list[17] == '\u{2008}' && list[18] == '\u{2009}' && list[19] == '\u{200a}');
    assert(list[20] == '\u{2028}' && list[21] == '\u{2029}' && list[22] == '\u{202f}');
    assert(list[23] == '\u{205f}' && list[24] == '\u{3000}');
    if is_space(c) {
        assert(list.contains(c));
    }
}

} // verus!
