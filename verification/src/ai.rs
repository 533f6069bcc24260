//! AI editing: the sheet goes out as CSV in a prompt with the user's instruction,
//! and comes back as CSV. The result is fenced between markers, so that
//! commentary can't leak into the data.

use vstd::prelude::*;

use crate::text::{
    chars_of, find_char, find_from, is_space, occurs_at, only, push_chars, push_text, rfind,
    slice_of, string_of, trim, trim_char, trim_end, trim_matches, trim_space, trim_start,
    trimming_shortens, upto, upto_bounds, upto_is,
};

verus! {

// ---- the prompt -----------------------------------------------------------

/// The rules at the head of the prompt.
pub const PROMPT_HEAD: &'static str = "You are editing a spreadsheet. Below is the current sheet as CSV \
(RFC 4180; the first row is row 1, the first field is column A). Apply the \
instruction and return the COMPLETE resulting sheet.\n\
Rules:\n\
- A cell starting with `=` is a formula (A1-style refs; functions such as \
SUM, AVERAGE, MIN, MAX, COUNT, IF, AND, OR, ROUND, CONCAT, VLOOKUP). Prefer \
formulas over hard-coded values where it fits; never replace a formula with \
its computed value unless asked.\n\
- Return ONLY the CSV, wrapped exactly between a line `<<<CSV` and a line \
`CSV>>>`. No text before or after.\n\n";

/// The prompt: the rules, the instruction, and the sheet between its markers.
pub open spec fn prompt_text(csv: Seq<char>, instruction: Seq<char>) -> Seq<char> {
    PROMPT_HEAD@ + "INSTRUCTION: "@ + instruction + "\n\n<<<CSV\n"@ + csv + "CSV>>>\n"@
}

/// Builds the prompt: the current sheet as CSV plus the user's instruction.
pub fn build_prompt(csv: &str, instruction: &str) -> (s: String)
    ensures
        s@ == prompt_text(csv@, instruction@),
{
    let mut v = chars_of(PROMPT_HEAD);
    push_text(&mut v, "INSTRUCTION: ");
    push_text(&mut v, instruction);
    push_text(&mut v, "\n\n<<<CSV\n");
    push_text(&mut v, csv);
    push_text(&mut v, "CSV>>>\n");
    string_of(v.as_slice())
}

// ---- the reply ------------------------------------------------------------

/// Whether a text stands at a place, and at none before.
pub open spec fn is_first(hay: Seq<char>, needle: Seq<char>, at: int) -> bool {
    occurs_at(hay, needle, at) && forall|j: int| j < at ==> !occurs_at(hay, needle, j)
}

/// Whether a text stands at a place, and at none after.
pub open spec fn is_last(hay: Seq<char>, needle: Seq<char>, at: int) -> bool {
    occurs_at(hay, needle, at) && forall|j: int| j > at ==> !occurs_at(hay, needle, j)
}

/// Where a text first stands.
pub open spec fn first_of(hay: Seq<char>, needle: Seq<char>) -> Option<int> {
    if exists|i: int| is_first(hay, needle, i) {
        Some(choose|i: int| is_first(hay, needle, i))
    } else {
        None
    }
}

/// Where a text last stands.
pub open spec fn last_of(hay: Seq<char>, needle: Seq<char>) -> Option<int> {
    if exists|i: int| is_last(hay, needle, i) {
        Some(choose|i: int| is_last(hay, needle, i))
    } else {
        None
    }
}

/// The first place at which a text stands is where it first stands.
pub proof fn first_place(hay: Seq<char>, needle: Seq<char>, at: int)
    requires
        is_first(hay, needle, at),
    ensures
        first_of(hay, needle) == Some(at),
{
    let i = choose|i: int| is_first(hay, needle, i);
    assert(is_first(hay, needle, i));
    assert(!(i < at) && !(at < i));
}

/// The last place at which a text stands is where it last stands.
pub proof fn last_place(hay: Seq<char>, needle: Seq<char>, at: int)
    requires
        is_last(hay, needle, at),
    ensures
        last_of(hay, needle) == Some(at),
{
    let i = choose|i: int| is_last(hay, needle, i);
    assert(is_last(hay, needle, i));
    assert(!(i < at) && !(at < i));
}

/// What stands before a mark, without line feeds at its ends.
pub open spec fn before_mark(s: Seq<char>, mark: Seq<char>) -> Option<Seq<char>> {
    match first_of(s, mark) {
        Some(i) => Some(trim_char(s.take(i), '\n')),
        None => None,
    }
}

/// What stands between the markers, the last opening one and the first closing one
/// after it.
pub open spec fn marked_part(s: Seq<char>) -> Option<Seq<char>> {
    match last_of(s, "<<<CSV"@) {
        Some(i) => before_mark(s.skip(i + "<<<CSV"@.len()), "CSV>>>"@),
        None => None,
    }
}

/// What stands between the first fence of three backticks and the next, without
/// the rest of the line on which the first one stands.
pub open spec fn fenced_part(s: Seq<char>) -> Option<Seq<char>> {
    match first_of(s, "```"@) {
        Some(i) => {
            let rest = s.skip(i + "```"@.len());
            let eol = upto(rest, '\n');
            before_mark(
                if eol < rest.len() {
                    rest.skip(eol + 1)
                } else {
                    rest
                },
                "```"@,
            )
        },
        None => None,
    }
}

/// The CSV of a reply: what stands between the markers, else in a fenced block,
/// else the whole reply; none where that is blank.
pub open spec fn csv_of_reply(s: Seq<char>) -> Option<Seq<char>> {
    match marked_part(s) {
        Some(body) => Some(body),
        None => match fenced_part(s) {
            Some(body) => Some(body),
            None => if trim_space(s).len() == 0 {
                None
            } else {
                Some(trim_space(s))
            },
        },
    }
}

fn find(hay: &[char], needle: &str) -> (r: Option<usize>)
    ensures
        match r {
            Some(at) => first_of(hay@, needle@) == Some(at as int) && at + needle@.len()
                <= hay@.len(),
            None => first_of(hay@, needle@) is None,
        },
{
    let chars = chars_of(needle);
    match find_from(hay, chars.as_slice(), 0) {
        Some(at) => {
            proof {
                first_place(hay@, needle@, at as int);
            }
            Some(at)
        },
        None => None,
    }
}

fn find_last(hay: &[char], needle: &str) -> (r: Option<usize>)
    ensures
        match r {
            Some(at) => last_of(hay@, needle@) == Some(at as int) && at + needle@.len()
                <= hay@.len(),
            None => last_of(hay@, needle@) is None,
        },
{
    let chars = chars_of(needle);
    match rfind(hay, chars.as_slice()) {
        Some(at) => {
            proof {
                last_place(hay@, needle@, at as int);
            }
            Some(at)
        },
        None => None,
    }
}

fn up_to_mark(s: &[char], mark: &str) -> (r: Option<String>)
    ensures
        match r {
            Some(t) => before_mark(s@, mark@) == Some(t@),
            None => before_mark(s@, mark@) is None,
        },
{
    match find(s, mark) {
        Some(at) => {
            let part = slice_of(s, 0, at);
            assert(part@ =~= s@.take(at as int));
            Some(string_of(trim_matches(part.as_slice(), '\n').as_slice()))
        },
        None => None,
    }
}

/// Extracts the CSV body between the markers (last occurrence wins). Falls back
/// to a fenced block, then to the raw response, so a stray reply still yields
/// something to parse.
pub fn extract_csv(resp: &str) -> (r: Option<String>)
    ensures
        match r {
            Some(t) => csv_of_reply(resp@) == Some(t@),
            None => csv_of_reply(resp@) is None,
        },
{
    let chars = chars_of(resp);
    let s = chars.as_slice();
    let n: usize = chars.len();
    proof {
        reveal_strlit("<<<CSV");
        reveal_strlit("```");
    }
    if let Some(start) = find_last(s, "<<<CSV") {
        let rest = slice_of(s, start + 6, n);
        assert(rest@ =~= resp@.skip(start + 6));
        if let Some(body) = up_to_mark(rest.as_slice(), "CSV>>>") {
            return Some(body);
        }
    }
    if let Some(start) = find(s, "```") {
        let mut rest = slice_of(s, start + 3, n);
        assert(rest@ =~= resp@.skip(start + 3));
        // Skip an optional language tag on the fence line.
        let ghost fence = rest@;
        let len: usize = rest.len();
        match find_char(rest.as_slice(), '\n', 0) {
            Some(eol) => {
                proof {
                    upto_is(fence, '\n', eol as int);
                }
                rest = slice_of(rest.as_slice(), eol + 1, len);
                assert(rest@ =~= fence.skip(eol + 1));
            },
            None => {
                proof {
                    upto_is(fence, '\n', fence.len() as int);
                }
            },
        }
        if let Some(body) = up_to_mark(rest.as_slice(), "```") {
            return Some(body);
        }
    }
    let t = trim(s);
    if t.len() == 0 {
        None
    } else {
        Some(string_of(t.as_slice()))
    }
}

/// Why a run failed: what it wrote as an error, else the beginning of what it
/// wrote.
pub open spec fn failure_detail(err: Seq<char>, out: Seq<char>) -> Seq<char> {
    let e = trim_space(err);
    let o = trim_space(out);
    if e.len() > 0 {
        e
    } else if o.len() > 200 {
        o.take(200)
    } else {
        o
    }
}

/// The message of a run of `program` that failed. API and policy errors are
/// printed to the standard output, not to the error output.
pub fn failure_message(program: &str, err: &str, out: &str) -> (s: String)
    ensures
        s@ == program@ + " failed: "@ + failure_detail(err@, out@),
{
    let e_chars = chars_of(err);
    let e = trim(e_chars.as_slice());
    let mut v = chars_of(program);
    push_text(&mut v, " failed: ");
    if e.len() > 0 {
        push_chars(&mut v, e.as_slice());
    } else {
        let o_chars = chars_of(out);
        let o = trim(o_chars.as_slice());
        let n: usize = if o.len() > 200 {
            200
        } else {
            o.len()
        };
        let head = slice_of(o.as_slice(), 0, n);
        assert(head@ =~= failure_detail(err@, out@));
        push_chars(&mut v, head.as_slice());
    }
    string_of(v.as_slice())
}

/// The CSV of a reply is no longer than the reply.
pub proof fn body_no_longer(s: Seq<char>)
    ensures
        csv_of_reply(s) matches Some(body) ==> body.len() <= s.len(),
{
    if let Some(i) = last_of(s, "<<<CSV"@) {
        assert(is_last(s, "<<<CSV"@, i));
        mark_no_longer(s.skip(i + "<<<CSV"@.len()), "CSV>>>"@);
    }
    if let Some(i) = first_of(s, "```"@) {
        assert(is_first(s, "```"@, i));
        let rest = s.skip(i + "```"@.len());
        let eol = upto(rest, '\n');
        upto_bounds(rest, '\n');
        mark_no_longer(rest, "```"@);
        if eol < rest.len() {
            mark_no_longer(rest.skip(eol + 1), "```"@);
        }
    }
    let p = |c: char| is_space(c);
    trimming_shortens(s, p);
    trimming_shortens(trim_start(s, p), p);
    assert(trim_space(s) == trim_end(trim_start(s, p), p));
}

proof fn mark_no_longer(s: Seq<char>, mark: Seq<char>)
    ensures
        before_mark(s, mark) matches Some(t) ==> t.len() <= s.len(),
{
    if let Some(i) = first_of(s, mark) {
        assert(is_first(s, mark, i));
        trimming_shortens(s.take(i), only('\n'));
        trimming_shortens(trim_start(s.take(i), only('\n')), only('\n'));
    }
}

/// Whatever is said around the markers, what stands between the last opening one
/// and the next closing one is what counts.
pub proof fn commentary_left_out(pre: Seq<char>, body: Seq<char>, post: Seq<char>)
    requires
        is_last(pre + "<<<CSV"@ + body + "CSV>>>"@ + post, "<<<CSV"@, pre.len() as int),
        is_first(body + "CSV>>>"@ + post, "CSV>>>"@, body.len() as int),
    ensures
        csv_of_reply(pre + "<<<CSV"@ + body + "CSV>>>"@ + post) == Some(trim_char(body, '\n')),
{
    let s = pre + "<<<CSV"@ + body + "CSV>>>"@ + post;
    last_place(s, "<<<CSV"@, pre.len() as int);
    first_place(body + "CSV>>>"@ + post, "CSV>>>"@, body.len() as int);
    let rest = body + "CSV>>>"@ + post;
    assert(s.skip(pre.len() as int + "<<<CSV"@.len()) =~= rest);
    assert(rest.take(body.len() as int) =~= body);
}

/// Without markers, a fenced block counts: what stands between the line of the first
/// fence and the next fence.
pub proof fn fenced_block_counts(
    pre: Seq<char>,
    tag: Seq<char>,
    body: Seq<char>,
    post: Seq<char>,
)
    requires
        ({
            let s = pre + "```"@ + tag + seq!['\n'] + body + "```"@ + post;
            &&& marked_part(s) is None
            &&& is_first(s, "```"@, pre.len() as int)
            &&& !tag.contains('\n')
            &&& is_first(body + "```"@ + post, "```"@, body.len() as int)
        }),
    ensures
        csv_of_reply(pre + "```"@ + tag + seq!['\n'] + body + "```"@ + post) == Some(
            trim_char(body, '\n'),
        ),
{
    let s = pre + "```"@ + tag + seq!['\n'] + body + "```"@ + post;
    let rest = body + "```"@ + post;
    first_place(s, "```"@, pre.len() as int);
    first_place(rest, "```"@, body.len() as int);
    let after = s.skip(pre.len() as int + "```"@.len());
    assert(after =~= tag + seq!['\n'] + rest);
    assert forall|j: int| 0 <= j < tag.len() implies after[j] != '\n' by {
        assert(after[j] == tag[j]);
        assert(tag.contains(tag[j]));
    }
    upto_is(after, '\n', tag.len() as int);
    assert(after.skip(tag.len() as int + 1) =~= rest);
    assert(rest.take(body.len() as int) =~= body);
}

/// Without markers and fences the whole reply counts, without the white space around
/// it; a blank reply gives nothing.
pub proof fn bare_reply_counts(s: Seq<char>)
    requires
        marked_part(s) is None,
        fenced_part(s) is None,
    ensures
        trim_space(s).len() > 0 ==> csv_of_reply(s) == Some(trim_space(s)),
        trim_space(s).len() == 0 ==> csv_of_reply(s) is None,
{
}

/// The prompt ends with the sheet between the markers, and the instruction stands before
/// it, behind the rules.
pub proof fn prompt_holds_the_sheet(csv: Seq<char>, instruction: Seq<char>)
    ensures
        ({
            let p = prompt_text(csv, instruction);
            let tail = "\n\n<<<CSV\n"@ + csv + "CSV>>>\n"@;
            let head = PROMPT_HEAD@ + "INSTRUCTION: "@;
            &&& p.len() == head.len() + instruction.len() + tail.len()
            &&& p.take(head.len() as int) == head
            &&& p.subrange(head.len() as int, head.len() + instruction.len() as int) == instruction
            &&& p.skip(head.len() + instruction.len() as int) == tail
        }),
{
    let p = prompt_text(csv, instruction);
    let tail = "\n\n<<<CSV\n"@ + csv + "CSV>>>\n"@;
    let head = PROMPT_HEAD@ + "INSTRUCTION: "@;
    assert(p.take(head.len() as int) =~= head);
    assert(p.subrange(head.len() as int, head.len() + instruction.len() as int) =~= instruction);
    assert(p.skip(head.len() + instruction.len() as int) =~= tail);
}

/// Why a run failed is what it wrote as an error, where that is not blank, and else the
/// beginning of what it wrote, no more than two hundred characters of it.
pub proof fn failures_are_told(err: Seq<char>, out: Seq<char>)
    ensures
        ({
            let d = failure_detail(err, out);
            &&& trim_space(err).len() > 0 ==> d == trim_space(err)
            &&& trim_space(err).len() == 0 ==> d.is_prefix_of(trim_space(out)) && d.len() <= 200
                && (d.len() == 200 || d == trim_space(out))
        }),
{
    let o = trim_space(out);
    assert(o.take(o.len() as int) =~= o);
}

} // verus!
