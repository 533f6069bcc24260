//! The lexer of the formula language.

use vstd::prelude::*;

use crate::csv::doubled;
use crate::num::{Bits, NumModel, Numerics, Op};
use crate::text::{chars_of, digit, is_digit, is_letter, letter, slice_of, string_of};

verus! {

/// A token of a formula.
pub enum Tok {
    Num(Bits),
    Str(String),
    Name(String),
    Plus,
    Minus,
    Star,
    Slash,
    Caret,
    Amp,
    Percent,
    LParen,
    RParen,
    Comma,
    Colon,
    Eq,
    Ne,
    Lt,
    Le,
    Gt,
    Ge,
}

/// A token with its text as a character sequence.
pub enum TokV {
    Num(Bits),
    Str(Seq<char>),
    Name(Seq<char>),
    Plus,
    Minus,
    Star,
    Slash,
    Caret,
    Amp,
    Percent,
    LParen,
    RParen,
    Comma,
    Colon,
    Eq,
    Ne,
    Lt,
    Le,
    Gt,
    Ge,
}

impl View for Tok {
    type V = TokV;

    open spec fn view(&self) -> TokV {
        match self {
            Tok::Num(n) => TokV::Num(*n),
            Tok::Str(s) => TokV::Str(s@),
            Tok::Name(s) => TokV::Name(s@),
            Tok::Plus => TokV::Plus,
            Tok::Minus => TokV::Minus,
            Tok::Star => TokV::Star,
            Tok::Slash => TokV::Slash,
            Tok::Caret => TokV::Caret,
            Tok::Amp => TokV::Amp,
            Tok::Percent => TokV::Percent,
            Tok::LParen => TokV::LParen,
            Tok::RParen => TokV::RParen,
            Tok::Comma => TokV::Comma,
            Tok::Colon => TokV::Colon,
            Tok::Eq => TokV::Eq,
            Tok::Ne => TokV::Ne,
            Tok::Lt => TokV::Lt,
            Tok::Le => TokV::Le,
            Tok::Gt => TokV::Gt,
            Tok::Ge => TokV::Ge,
        }
    }
}

/// The tokens with their texts as character sequences.
pub open spec fn tokens_view(toks: Seq<Tok>) -> Seq<TokV> {
    toks.map_values(|t: Tok| t@)
}

/// White space between tokens.
pub open spec fn is_blank(c: char) -> bool {
    c == ' ' || c == '\t' || c == '\r' || c == '\n'
}

/// The characters of a number.
pub open spec fn is_number_char(c: char) -> bool {
    is_digit(c) || c == '.'
}

/// The characters that start a name.
pub open spec fn is_name_start(c: char) -> bool {
    is_letter(c) || c == '_' || c == '$'
}

/// The characters of a name.
pub open spec fn is_name_char(c: char) -> bool {
    is_letter(c) || is_digit(c) || c == '_' || c == '$' || c == '.'
}

/// The number of leading characters of `s` that satisfy `p`.
pub open spec fn run(s: Seq<char>, p: spec_fn(char) -> bool) -> nat
    decreases s.len(),
{
    if s.len() > 0 && p(s[0]) {
        1 + run(s.skip(1), p)
    } else {
        0
    }
}

/// The text without its dollar signs.
pub open spec fn without_dollars(s: Seq<char>) -> Seq<char> {
    s.filter(|c: char| c != '$')
}

/// The text of a string literal whose opening quote stands before `s`, and the
/// number of characters up to the end of the literal. A doubled quote stands for
/// one; a literal that is not closed goes to the end.
pub open spec fn quoted(s: Seq<char>) -> (Seq<char>, nat)
    decreases s.len(),
{
    if s.len() == 0 {
        (Seq::empty(), 0)
    } else if s[0] == '"' {
        if s.len() > 1 && s[1] == '"' {
            let (text, n) = quoted(s.skip(2));
            (seq!['"'] + text, n + 2)
        } else {
            (Seq::empty(), 1)
        }
    } else {
        let (text, n) = quoted(s.skip(1));
        (seq![s[0]] + text, n + 1)
    }
}

/// The token of one character that `c` alone makes.
pub open spec fn symbol(c: char) -> Option<TokV> {
    if c == '+' {
        Some(TokV::Plus)
    } else if c == '-' {
        Some(TokV::Minus)
    } else if c == '*' {
        Some(TokV::Star)
    } else if c == '/' {
        Some(TokV::Slash)
    } else if c == '^' {
        Some(TokV::Caret)
    } else if c == '&' {
        Some(TokV::Amp)
    } else if c == '%' {
        Some(TokV::Percent)
    } else if c == '(' {
        Some(TokV::LParen)
    } else if c == ')' {
        Some(TokV::RParen)
    } else if c == ',' {
        Some(TokV::Comma)
    } else if c == ':' {
        Some(TokV::Colon)
    } else if c == '=' {
        Some(TokV::Eq)
    } else {
        None
    }
}

/// The token at the start of `s`, which is not empty and does not start with
/// white space, and its length; or an error code.
pub open spec fn first_token(m: NumModel, s: Seq<char>) -> Result<(TokV, nat), Seq<char>> {
    let c = s[0];
    let next = |x: char| s.len() > 1 && s[1] == x;
    if symbol(c) is Some {
        Ok((symbol(c).unwrap(), 1))
    } else if c == '<' {
        if next('=') {
            Ok((TokV::Le, 2))
        } else if next('>') {
            Ok((TokV::Ne, 2))
        } else {
            Ok((TokV::Lt, 1))
        }
    } else if c == '>' {
        if next('=') {
            Ok((TokV::Ge, 2))
        } else {
            Ok((TokV::Gt, 1))
        }
    } else if c == '"' {
        let (text, n) = quoted(s.skip(1));
        Ok((TokV::Str(text), n + 1))
    } else if is_number_char(c) {
        let n = run(s, |x: char| is_number_char(x));
        match (m.parse)(s.take(n as int)) {
            Some(b) => Ok((TokV::Num(b), n)),
            None => Err("NUM"@),
        }
    } else if is_name_start(c) {
        let n = run(s, |x: char| is_name_char(x));
        Ok((TokV::Name(without_dollars(s.take(n as int))), n))
    } else {
        Err("SYNTAX"@)
    }
}

/// The tokens of the text, or the error code of the first place that makes none.
pub open spec fn tokens(m: NumModel, s: Seq<char>) -> Result<Seq<TokV>, Seq<char>>
    decreases s.len(),
{
    if s.len() == 0 {
        Ok(Seq::empty())
    } else if is_blank(s[0]) {
        tokens(m, s.skip(1))
    } else {
        proof {
            first_token_fits(m, s);
        }
        match first_token(m, s) {
            Err(code) => Err(code),
            Ok((t, n)) => match tokens(m, s.skip(n as int)) {
                Err(code) => Err(code),
                Ok(rest) => Ok(seq![t] + rest),
            },
        }
    }
}

/// A text in quotes, its own quotes doubled, is a string literal of that text.
pub proof fn literal_text(t: Seq<char>, tail: Seq<char>)
    requires
        tail.len() == 0 || tail[0] != '"',
    ensures
        quoted(doubled(t) + seq!['"'] + tail) == (t, doubled(t).len() + 1),
    decreases t.len(),
{
    let s = doubled(t) + seq!['"'] + tail;
    if t.len() == 0 {
        assert(s =~= seq!['"'] + tail);
        assert(t =~= Seq::<char>::empty());
    } else {
        let rest = doubled(t.skip(1)) + seq!['"'] + tail;
        literal_text(t.skip(1), tail);
        assert(seq![t[0]] + t.skip(1) =~= t);
        if t[0] == '"' {
            assert(s =~= seq!['"', '"'] + rest);
            assert(s.skip(2) =~= rest);
        } else {
            assert(s =~= seq![t[0]] + rest);
            assert(s.skip(1) =~= rest);
        }
    }
}

/// A text of letters and digits that begins with a letter is one name.
pub proof fn name_is_one_token(m: NumModel, s: Seq<char>)
    requires
        s.len() > 0,
        is_letter(s[0]),
        forall|i: int| 0 <= i < s.len() ==> is_letter(#[trigger] s[i]) || is_digit(s[i]),
    ensures
        tokens(m, s) == Ok::<Seq<TokV>, Seq<char>>(seq![TokV::Name(s)]),
{
    assert forall|i: int| 0 <= i < s.len() implies is_name_char(#[trigger] s[i]) by {
        assert(is_letter(s[i]) || is_digit(s[i]));
    }
    run_to_end(s, |x: char| is_name_char(x));
    assert forall|i: int| 0 <= i < s.len() implies #[trigger] s[i] != '$' by {
        assert(is_letter(s[i]) || is_digit(s[i]));
    }
    no_dollars(s);
    assert(s.take(s.len() as int) =~= s);
    assert(first_token(m, s) == Ok::<(TokV, nat), Seq<char>>((TokV::Name(s), s.len())));
    assert(s.skip(s.len() as int) =~= Seq::<char>::empty());
    assert(tokens(m, s.skip(s.len() as int)) == Ok::<Seq<TokV>, Seq<char>>(Seq::empty()));
    assert(seq![TokV::Name(s)] + Seq::<TokV>::empty() =~= seq![TokV::Name(s)]);
}

/// The tokens of a text behind a token.
pub open spec fn behind(t: TokV, rest: Result<Seq<TokV>, Seq<char>>) -> Result<
    Seq<TokV>,
    Seq<char>,
> {
    match rest {
        Ok(toks) => Ok(seq![t] + toks),
        Err(code) => Err(code),
    }
}

/// The signs of the formula language, each with its token, whatever follows; the two
/// that may be the beginning of a longer one, where it does not follow. White space
/// between tokens means nothing.
pub proof fn signs_read(m: NumModel, rest: Seq<char>)
    ensures
        tokens(m, seq!['+'] + rest) == behind(TokV::Plus, tokens(m, rest)),
        tokens(m, seq!['-'] + rest) == behind(TokV::Minus, tokens(m, rest)),
        tokens(m, seq!['*'] + rest) == behind(TokV::Star, tokens(m, rest)),
        tokens(m, seq!['/'] + rest) == behind(TokV::Slash, tokens(m, rest)),
        tokens(m, seq!['^'] + rest) == behind(TokV::Caret, tokens(m, rest)),
        tokens(m, seq!['&'] + rest) == behind(TokV::Amp, tokens(m, rest)),
        tokens(m, seq!['%'] + rest) == behind(TokV::Percent, tokens(m, rest)),
        tokens(m, seq!['('] + rest) == behind(TokV::LParen, tokens(m, rest)),
        tokens(m, seq![')'] + rest) == behind(TokV::RParen, tokens(m, rest)),
        tokens(m, seq![','] + rest) == behind(TokV::Comma, tokens(m, rest)),
        tokens(m, seq![':'] + rest) == behind(TokV::Colon, tokens(m, rest)),
        tokens(m, seq!['='] + rest) == behind(TokV::Eq, tokens(m, rest)),
        tokens(m, seq!['<', '='] + rest) == behind(TokV::Le, tokens(m, rest)),
        tokens(m, seq!['<', '>'] + rest) == behind(TokV::Ne, tokens(m, rest)),
        tokens(m, seq!['>', '='] + rest) == behind(TokV::Ge, tokens(m, rest)),
        rest.len() == 0 || (rest[0] != '=' && rest[0] != '>') ==> tokens(m, seq!['<'] + rest)
            == behind(TokV::Lt, tokens(m, rest)),
        rest.len() == 0 || rest[0] != '=' ==> tokens(m, seq!['>'] + rest) == behind(
            TokV::Gt,
            tokens(m, rest),
        ),
        tokens(m, seq![' '] + rest) == tokens(m, rest),
        tokens(m, seq!['\t'] + rest) == tokens(m, rest),
        tokens(m, seq!['\r'] + rest) == tokens(m, rest),
        tokens(m, seq!['\n'] + rest) == tokens(m, rest),
{
    assert((seq!['+'] + rest).skip(1) =~= rest);
    assert((seq!['-'] + rest).skip(1) =~= rest);
    assert((seq!['*'] + rest).skip(1) =~= rest);
    assert((seq!['/'] + rest).skip(1) =~= rest);
    assert((seq!['^'] + rest).skip(1) =~= rest);
    assert((seq!['&'] + rest).skip(1) =~= rest);
    assert((seq!['%'] + rest).skip(1) =~= rest);
    assert((seq!['('] + rest).skip(1) =~= rest);
    assert((seq![')'] + rest).skip(1) =~= rest);
    assert((seq![','] + rest).skip(1) =~= rest);
    assert((seq![':'] + rest).skip(1) =~= rest);
    assert((seq!['='] + rest).skip(1) =~= rest);
    assert((seq!['<'] + rest).skip(1) =~= rest);
    assert((seq!['>'] + rest).skip(1) =~= rest);
    assert((seq!['<', '='] + rest).skip(2) =~= rest);
    assert((seq!['<', '>'] + rest).skip(2) =~= rest);
    assert((seq!['>', '='] + rest).skip(2) =~= rest);
    assert((seq![' '] + rest).skip(1) =~= rest);
    assert((seq!['\t'] + rest).skip(1) =~= rest);
    assert((seq!['\r'] + rest).skip(1) =~= rest);
    assert((seq!['\n'] + rest).skip(1) =~= rest);
}

/// A run of digits and points is a number, where it reads as one, up to the first
/// character that is neither.
pub proof fn number_is_one_token(m: NumModel, x: Seq<char>, rest: Seq<char>, n: Bits)
    requires
        x.len() > 0,
        forall|i: int| 0 <= i < x.len() ==> ('0' <= #[trigger] x[i] <= '9' || x[i] == '.'),
        rest.len() == 0 || !('0' <= rest[0] <= '9' || rest[0] == '.'),
        (m.parse)(x) == Some(n),
    ensures
        tokens(m, x + rest) == behind(TokV::Num(n), tokens(m, rest)),
{
    let s = x + rest;
    assert forall|i: int| 0 <= i < x.len() implies is_number_char(#[trigger] x[i]) by {}
    run_stops(x, rest, |c: char| is_number_char(c));
    assert(s[0] == x[0]);
    assert(is_number_char(x[0]));
    assert(s.take(x.len() as int) =~= x);
    assert(s.skip(x.len() as int) =~= rest);
}

/// A letter, an underscore or a dollar sign, and the letters, digits, underscores, dollar
/// signs and points behind it, are a name, up to the first character that is none of
/// these. The dollar signs are left out.
pub proof fn name_is_a_token(m: NumModel, x: Seq<char>, rest: Seq<char>)
    requires
        x.len() > 0,
        'A' <= x[0] <= 'Z' || 'a' <= x[0] <= 'z' || x[0] == '_' || x[0] == '$',
        forall|i: int|
            0 <= i < x.len() ==> 'A' <= #[trigger] x[i] <= 'Z' || 'a' <= x[i] <= 'z' || '0' <= x[i]
                <= '9' || x[i] == '_' || x[i] == '$' || x[i] == '.',
        rest.len() == 0 || !('A' <= rest[0] <= 'Z' || 'a' <= rest[0] <= 'z' || '0' <= rest[0]
            <= '9' || rest[0] == '_' || rest[0] == '$' || rest[0] == '.'),
    ensures
        tokens(m, x + rest) == behind(TokV::Name(without_dollars(x)), tokens(m, rest)),
        !x.contains('$') ==> without_dollars(x) == x,
{
    let s = x + rest;
    assert forall|i: int| 0 <= i < x.len() implies is_name_char(#[trigger] x[i]) by {}
    run_stops(x, rest, |c: char| is_name_char(c));
    if !x.contains('$') {
        assert forall|i: int| 0 <= i < x.len() implies #[trigger] x[i] != '$' by {
            assert(x.contains(x[i]));
        }
        no_dollars(x);
    }
    assert(s[0] == x[0]);
    assert(s.take(x.len() as int) =~= x);
    assert(s.skip(x.len() as int) =~= rest);
}

/// A text between quotes, its own quotes doubled, is a text, up to the quote that closes
/// it; a text that no quote closes goes to the end.
pub proof fn literal_is_one_token(m: NumModel, t: Seq<char>, rest: Seq<char>)
    ensures
        rest.len() == 0 || rest[0] != '"' ==> tokens(
            m,
            seq!['"'] + doubled(t) + seq!['"'] + rest,
        ) == behind(TokV::Str(t), tokens(m, rest)),
        !t.contains('"') ==> tokens(m, seq!['"'] + t) == Ok::<Seq<TokV>, Seq<char>>(
            seq![TokV::Str(t)],
        ),
{
    if rest.len() == 0 || rest[0] != '"' {
        let s = seq!['"'] + doubled(t) + seq!['"'] + rest;
        literal_text(t, rest);
        assert(s.skip(1) =~= doubled(t) + seq!['"'] + rest);
        assert(s.skip((doubled(t).len() + 2) as int) =~= rest);
    }
    if !t.contains('"') {
        let s = seq!['"'] + t;
        unclosed(t);
        assert(s.skip(1) =~= t);
        assert(s.skip((t.len() + 1) as int) =~= Seq::<char>::empty());
        assert(tokens(m, Seq::<char>::empty()) == Ok::<Seq<TokV>, Seq<char>>(Seq::empty()));
        assert(seq![TokV::Str(t)] + Seq::<TokV>::empty() =~= seq![TokV::Str(t)]);
    }
}

proof fn unclosed(t: Seq<char>)
    requires
        !t.contains('"'),
    ensures
        quoted(t) == (t, t.len()),
    decreases t.len(),
{
    if t.len() > 0 {
        assert(t.contains(t[0]));
        assert forall|i: int| 0 <= i < t.skip(1).len() implies t.skip(1)[i] != '"' by {
            assert(t.contains(t[i + 1]));
        }
        unclosed(t.skip(1));
        assert(seq![t[0]] + t.skip(1) =~= t);
    } else {
        assert(t =~= Seq::<char>::empty());
    }
}

/// Digits and points that read as no number are NUM, and a character that begins nothing
/// is SYNTAX. An error in what follows a token is the error of the whole.
pub proof fn nonsense_is_refused(m: NumModel, x: Seq<char>, rest: Seq<char>, c: char)
    requires
        x.len() > 0,
        forall|i: int| 0 <= i < x.len() ==> ('0' <= #[trigger] x[i] <= '9' || x[i] == '.'),
        rest.len() == 0 || !('0' <= rest[0] <= '9' || rest[0] == '.'),
        (m.parse)(x) is None,
        c == '!' || c == '#' || c == '\'' || c == ';' || c == '?' || c == '@' || c == '[' || c
            == '\\' || c == ']' || c == '`' || c == '{' || c == '|' || c == '}' || c == '~' || c
            as int >= 128,
    ensures
        tokens(m, x + rest) == Err::<Seq<TokV>, Seq<char>>("NUM"@),
        tokens(m, seq![c] + rest) == Err::<Seq<TokV>, Seq<char>>("SYNTAX"@),
{
    let s = x + rest;
    assert forall|i: int| 0 <= i < x.len() implies is_number_char(#[trigger] x[i]) by {}
    run_stops(x, rest, |c: char| is_number_char(c));
    assert(s[0] == x[0]);
    assert(is_number_char(x[0]));
    assert(s.take(x.len() as int) =~= x);
    assert((seq![c] + rest)[0] == c);
    assert(!is_blank(c) && symbol(c) is None && !is_number_char(c) && !is_name_start(c));
}

/// Dollar signs in a name mean nothing.
pub proof fn dollars_dropped(a: Seq<char>, b: Seq<char>)
    ensures
        without_dollars(a + seq!['$'] + b) == without_dollars(a + b),
{
    let p = |c: char| c != '$';
    Seq::filter_distributes_over_add(a + seq!['$'], b, p);
    Seq::filter_distributes_over_add(a, seq!['$'], p);
    Seq::filter_distributes_over_add(a, b, p);
    reveal(Seq::filter);
    assert(seq!['$'].drop_last() =~= Seq::<char>::empty());
    assert(seq!['$'].drop_last().filter(p) =~= Seq::<char>::empty());
    assert(seq!['$'].filter(p) =~= Seq::<char>::empty());
    assert(a.filter(p) + Seq::<char>::empty() =~= a.filter(p));
}

proof fn run_stops(x: Seq<char>, rest: Seq<char>, p: spec_fn(char) -> bool)
    requires
        forall|i: int| 0 <= i < x.len() ==> p(#[trigger] x[i]),
        rest.len() == 0 || !p(rest[0]),
    ensures
        run(x + rest, p) == x.len(),
    decreases x.len(),
{
    if x.len() > 0 {
        assert(p(x[0]));
        assert forall|i: int| 0 <= i < x.skip(1).len() implies p(#[trigger] x.skip(1)[i]) by {
            assert(p(x[i + 1]));
        }
        run_stops(x.skip(1), rest, p);
        assert((x + rest).skip(1) =~= x.skip(1) + rest);
    } else {
        assert(x + rest =~= rest);
    }
}

proof fn run_to_end(s: Seq<char>, p: spec_fn(char) -> bool)
    requires
        forall|i: int| 0 <= i < s.len() ==> p(#[trigger] s[i]),
    ensures
        run(s, p) == s.len(),
    decreases s.len(),
{
    if s.len() > 0 {
        assert(p(s[0]));
        assert forall|i: int| 0 <= i < s.skip(1).len() implies p(#[trigger] s.skip(1)[i]) by {
            assert(p(s[i + 1]));
        }
        run_to_end(s.skip(1), p);
    }
}

proof fn no_dollars(s: Seq<char>)
    requires
        forall|i: int| 0 <= i < s.len() ==> #[trigger] s[i] != '$',
    ensures
        without_dollars(s) == s,
    decreases s.len(),
{
    reveal(Seq::filter);
    if s.len() > 0 {
        assert forall|i: int| 0 <= i < s.drop_last().len() implies #[trigger] s.drop_last()[i]
            != '$' by {
            assert(s[i] != '$');
        }
        no_dollars(s.drop_last());
        assert(s[s.len() - 1] != '$');
        assert(s =~= s.drop_last().push(s.last()));
    } else {
        assert(without_dollars(s) =~= s);
    }
}

proof fn run_fits(s: Seq<char>, p: spec_fn(char) -> bool)
    ensures
        run(s, p) <= s.len(),
        s.len() > 0 && p(s[0]) ==> run(s, p) > 0,
    decreases s.len(),
{
    if s.len() > 0 && p(s[0]) {
        run_fits(s.skip(1), p);
    }
}

proof fn quoted_fits(s: Seq<char>)
    ensures
        quoted(s).1 <= s.len(),
    decreases s.len(),
{
    if s.len() == 0 {
    } else if s[0] == '"' {
        if s.len() > 1 && s[1] == '"' {
            quoted_fits(s.skip(2));
        }
    } else {
        quoted_fits(s.skip(1));
    }
}

/// A token takes up at least one character, and no more than there are.
pub proof fn first_token_fits(m: NumModel, s: Seq<char>)
    requires
        s.len() > 0,
    ensures
        first_token(m, s) matches Ok((t, n)) ==> 0 < n <= s.len(),
{
    quoted_fits(s.skip(1));
    run_fits(s, |x: char| is_number_char(x));
    run_fits(s, |x: char| is_name_char(x));
}

// ---- functions ------------------------------------------------------------

fn blank(c: char) -> (r: bool)
    ensures
        r == is_blank(c),
{
    c == ' ' || c == '\t' || c == '\r' || c == '\n'
}

fn number_char(c: char) -> (r: bool)
    ensures
        r == is_number_char(c),
{
    digit(c) || c == '.'
}

fn name_start(c: char) -> (r: bool)
    ensures
        r == is_name_start(c),
{
    letter(c) || c == '_' || c == '$'
}

fn name_char(c: char) -> (r: bool)
    ensures
        r == is_name_char(c),
{
    letter(c) || digit(c) || c == '_' || c == '$' || c == '.'
}

fn symbol_token(c: char) -> (r: Option<Tok>)
    ensures
        match r {
            Some(t) => symbol(c) == Some(t@),
            None => symbol(c) is None,
        },
{
    match c {
        '+' => Some(Tok::Plus),
        '-' => Some(Tok::Minus),
        '*' => Some(Tok::Star),
        '/' => Some(Tok::Slash),
        '^' => Some(Tok::Caret),
        '&' => Some(Tok::Amp),
        '%' => Some(Tok::Percent),
        '(' => Some(Tok::LParen),
        ')' => Some(Tok::RParen),
        ',' => Some(Tok::Comma),
        ':' => Some(Tok::Colon),
        '=' => Some(Tok::Eq),
        _ => None,
    }
}

/// Reads the string literal whose opening quote stands before `from`; returns
/// its text and the position after it.
fn string_literal(v: &[char], from: usize) -> (r: (String, usize))
    requires
        from <= v@.len(),
    ensures
        r.0@ == quoted(v@.skip(from as int)).0,
        r.1 == from + quoted(v@.skip(from as int)).1,
        r.1 <= v@.len(),
{
    let ghost whole = quoted(v@.skip(from as int));
    let mut text: Vec<char> = Vec::new();
    let mut i: usize = from;
    while i < v.len()
        invariant
            from <= i <= v@.len(),
            whole == quoted(v@.skip(from as int)),
            whole.0 == text@ + quoted(v@.skip(i as int)).0,
            whole.1 == (i - from) + quoted(v@.skip(i as int)).1,
        decreases v@.len() - i,
    {
        let ghost rest = v@.skip(i as int);
        if v[i] == '"' {
            if v.len() - i > 1 && v[i + 1] == '"' {
                assert(rest.skip(2) == v@.skip(i + 2));
                text.push('"');
                i = i + 2;
            } else {
                assert(whole.0 =~= text@);
                return (string_of(text.as_slice()), i + 1);
            }
        } else {
            assert(rest.skip(1) == v@.skip(i + 1));
            text.push(v[i]);
            i = i + 1;
        }
    }
    assert(whole.0 =~= text@);
    (string_of(text.as_slice()), i)
}

fn number_run(v: &[char], from: usize) -> (to: usize)
    requires
        from <= v@.len(),
    ensures
        to == from + run(v@.skip(from as int), |x: char| is_number_char(x)),
        from <= to <= v@.len(),
{
    let ghost p = |x: char| is_number_char(x);
    let mut i: usize = from;
    while i < v.len() && number_char(v[i])
        invariant
            p == (|x: char| is_number_char(x)),
            from <= i <= v@.len(),
            run(v@.skip(from as int), p) == (i - from) + run(v@.skip(i as int), p),
        decreases v@.len() - i,
    {
        assert(v@.skip(i as int).skip(1) == v@.skip(i + 1));
        i = i + 1;
    }
    i
}

fn name_run(v: &[char], from: usize) -> (to: usize)
    requires
        from <= v@.len(),
    ensures
        to == from + run(v@.skip(from as int), |x: char| is_name_char(x)),
        from <= to <= v@.len(),
{
    let ghost p = |x: char| is_name_char(x);
    let mut i: usize = from;
    while i < v.len() && name_char(v[i])
        invariant
            p == (|x: char| is_name_char(x)),
            from <= i <= v@.len(),
            run(v@.skip(from as int), p) == (i - from) + run(v@.skip(i as int), p),
        decreases v@.len() - i,
    {
        assert(v@.skip(i as int).skip(1) == v@.skip(i + 1));
        i = i + 1;
    }
    i
}

fn drop_dollars(v: &[char]) -> (out: Vec<char>)
    ensures
        out@ == without_dollars(v@),
{
    let ghost p = |c: char| c != '$';
    let mut out: Vec<char> = Vec::new();
    assert(v@.take(0).filter(p) =~= Seq::<char>::empty()) by {
        reveal(Seq::filter);
    }
    for i in 0..v.len()
        invariant
            p == (|c: char| c != '$'),
            out@ == v@.take(i as int).filter(p),
    {
        assert(v@.take(i + 1).drop_last() == v@.take(i as int));
        assert(v@.take(i + 1).filter(p) == if p(v@[i as int]) {
            v@.take(i as int).filter(p).push(v@[i as int])
        } else {
            v@.take(i as int).filter(p)
        }) by {
            reveal(Seq::filter);
        }
        if v[i] != '$' {
            out.push(v[i]);
        }
    }
    assert(v@.take(v@.len() as int) == v@);
    out
}

/// Reads the token at `i`; returns it and the position after it.
fn next_token<P: Fn(&str) -> Option<Bits>, S: Fn(Bits) -> String, C: Fn(Op, Bits, Bits) -> Bits>(
    num: &Numerics<P, S, C>,
    v: &[char],
    i: usize,
) -> (r: Result<(Tok, usize), String>)
    requires
        num.valid(),
        i < v@.len(),
    ensures
        match r {
            Ok((t, to)) => i < to <= v@.len() && first_token(num.model(), v@.skip(i as int)) == Ok::<
                (TokV, nat),
                Seq<char>,
            >((t@, (to - i) as nat)),
            Err(code) => first_token(num.model(), v@.skip(i as int)) == Err::<
                (TokV, nat),
                Seq<char>,
            >(code@),
        },
{
    let ghost s = v@.skip(i as int);
    proof {
        first_token_fits(num.model(), s);
    }
    let c: char = v[i];
    assert(s[0] == c);
    if let Some(t) = symbol_token(c) {
        return Ok((t, i + 1));
    }
    let more: bool = v.len() - i > 1;
    assert(more ==> s[1] == v@[i + 1]);
    if c == '<' {
        if more && v[i + 1] == '=' {
            Ok((Tok::Le, i + 2))
        } else if more && v[i + 1] == '>' {
            Ok((Tok::Ne, i + 2))
        } else {
            Ok((Tok::Lt, i + 1))
        }
    } else if c == '>' {
        if more && v[i + 1] == '=' {
            Ok((Tok::Ge, i + 2))
        } else {
            Ok((Tok::Gt, i + 1))
        }
    } else if c == '"' {
        assert(s.skip(1) == v@.skip(i + 1));
        let (text, to) = string_literal(v, i + 1);
        Ok((Tok::Str(text), to))
    } else if number_char(c) {
        let to: usize = number_run(v, i);
        let digits = slice_of(v, i, to);
        assert(digits@ == s.take(to - i));
        let text = string_of(digits.as_slice());
        match num.read(text.as_str()) {
            Some(b) => Ok((Tok::Num(b), to)),
            None => Err("NUM".to_owned()),
        }
    } else if name_start(c) {
        let to: usize = name_run(v, i);
        let letters = slice_of(v, i, to);
        assert(letters@ == s.take(to - i));
        let name = drop_dollars(letters.as_slice());
        Ok((Tok::Name(string_of(name.as_slice())), to))
    } else {
        Err("SYNTAX".to_owned())
    }
}

/// Splits a formula into tokens.
pub fn lex<P: Fn(&str) -> Option<Bits>, S: Fn(Bits) -> String, C: Fn(Op, Bits, Bits) -> Bits>(
    num: &Numerics<P, S, C>,
    s: &str,
) -> (r: Result<Vec<Tok>, String>)
    requires
        num.valid(),
    ensures
        match r {
            Ok(toks) => tokens(num.model(), s@) == Ok::<Seq<TokV>, Seq<char>>(tokens_view(toks@)),
            Err(code) => tokens(num.model(), s@) == Err::<Seq<TokV>, Seq<char>>(code@),
        },
{
    let v = chars_of(s);
    let ghost m = num.model();
    let ghost whole = tokens(m, v@);
    let mut out: Vec<Tok> = Vec::new();
    let mut i: usize = 0;
    assert(v@.skip(0) == v@);
    assert(tokens_view(out@) =~= Seq::<TokV>::empty());
    assert(whole matches Ok(rest) ==> rest =~= tokens_view(out@) + rest);
    while i < v.len()
        invariant
            num.valid(),
            m == num.model(),
            whole == tokens(m, s@),
            i <= v@.len(),
            match tokens(m, v@.skip(i as int)) {
                Ok(rest) => whole == Ok::<Seq<TokV>, Seq<char>>(tokens_view(out@) + rest),
                Err(code) => whole == Err::<Seq<TokV>, Seq<char>>(code),
            },
        decreases v@.len() - i,
    {
        let ghost rest = v@.skip(i as int);
        if blank(v[i]) {
            assert(rest.skip(1) == v@.skip(i + 1));
            i = i + 1;
        } else {
            match next_token(num, v.as_slice(), i) {
                Err(code) => {
                    return Err(code);
                },
                Ok((t, to)) => {
                    assert(rest.skip(to - i) == v@.skip(to as int));
                    let ghost before = out@;
                    out.push(t);
                    proof {
                        assert(tokens_view(out@) =~= tokens_view(before).push(t@));
                        if let Ok(tail) = tokens(m, v@.skip(to as int)) {
                            assert(tokens_view(before) + (seq![t@] + tail) =~= tokens_view(out@)
                                + tail);
                        }
                    }
                    i = to;
                },
            }
        }
    }
    assert(tokens_view(out@) + Seq::<TokV>::empty() =~= tokens_view(out@));
    Ok(out)
}

} // verus!
