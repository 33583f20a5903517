//! The text of a tag: inline after a space, or a piped block.
use vstd::prelude::*;

use crate::parser::error::{agrees, unexpected, unexpected_at, Failure, ParseError};
use crate::parser::indent::{is_deeper, is_deeper_at, unit_view};
use crate::parser::scan::{
    eol_len, eol_len_at, indent_end, indent_end_at, lemma_indent_end_bounds,
    lemma_line_end_bounds, lemma_skip_blank_bounds, line_end, line_end_at, piece, skip_blank,
    skip_blank_at, to_chars, token_agrees,
};
use crate::parser::HsmlProcessContext;

verus! {

/// The end of the inline text that starts at `i`: a space, then the rest of
/// the line, which is the text and is not empty.
pub open spec fn spec_text(s: Seq<char>, i: int) -> Result<int, Failure> {
    if 0 <= i < s.len() && s[i] == ' ' {
        if line_end(s, i + 1) > i + 1 {
            Ok(line_end(s, i + 1))
        } else {
            Err(unexpected(s, i + 1))
        }
    } else {
        Err(unexpected(s, i))
    }
}

/// The end of the text block whose scan has reached the line start `q`,
/// where `last` is the end of the last line taken so far. A line that is
/// deeper than the tag is taken. A blank line is taken where a deeper line
/// follows it. Any other line ends the block.
pub open spec fn block_end(
    s: Seq<char>,
    q: int,
    level: int,
    unit: Option<Seq<char>>,
    last: int,
) -> int
    decreases s.len() - q,
{
    let e = indent_end(s, q);
    if q < 0 || q >= s.len() || e >= s.len() {
        last
    } else if eol_len(s, e) > 0 {
        proof {
            lemma_indent_end_bounds(s, q);
        }
        block_end(s, e + eol_len(s, e), level, unit, last)
    } else if is_deeper(s, q, level, unit) {
        let le = line_end(s, q);
        if eol_len(s, le) > 0 {
            proof {
                lemma_line_end_bounds(s, q);
            }
            block_end(s, le + eol_len(s, le), level, unit, le)
        } else {
            le
        }
    } else {
        last
    }
}

/// The start of the first line of the text block that the `.` at `i`
/// introduces.
pub open spec fn block_start(s: Seq<char>, i: int) -> int {
    i + 1 + eol_len(s, i + 1)
}

/// Whether the text block that the `.` at `i` introduces holds a line.
pub open spec fn block_has_lines(
    s: Seq<char>,
    i: int,
    level: int,
    unit: Option<Seq<char>>,
) -> bool {
    let f = skip_blank(s, block_start(s, i));
    f < s.len() && is_deeper(s, f, level, unit)
}

/// The extent of the text block that the `.` at `i` introduces, for a tag
/// at `level`: where its lines start and where they end. A line terminator
/// must follow the `.`. The lines start after it and end with the last
/// line that is deeper than the tag; a block without lines ends after the
/// `.`, and starts there too.
pub open spec fn spec_text_block(
    s: Seq<char>,
    i: int,
    level: int,
    unit: Option<Seq<char>>,
) -> Result<(int, int), Failure> {
    if !(0 <= i < s.len() && s[i] == '.') {
        Err(unexpected(s, i))
    } else if eol_len(s, i + 1) == 0 {
        Err(unexpected(s, i + 1))
    } else if block_has_lines(s, i, level, unit) {
        let f = skip_blank(s, block_start(s, i));
        Ok((block_start(s, i), block_end(s, f, level, unit, f)))
    } else {
        Ok((i + 1, i + 1))
    }
}

/// The indentation that a text block's lines share: that of its first line
/// that is not blank.
pub open spec fn block_base(s: Seq<char>, start: int) -> int {
    indent_end(s, skip_blank(s, start)) - skip_blank(s, start)
}

/// The text of the lines between `q` and `e`, appended to `acc`: each line
/// without its first `base` characters of indentation (or without all of
/// its indentation, where it has less), and `\n` between two lines.
pub open spec fn dedented(s: Seq<char>, q: int, e: int, base: int, acc: Seq<char>) -> Seq<char>
    decreases e - q,
{
    if q < 0 || q >= e || e > s.len() {
        acc
    } else {
        let le = if line_end(s, q) < e {
            line_end(s, q)
        } else {
            e
        };
        let c0 = if indent_end(s, q) < q + base {
            indent_end(s, q)
        } else {
            q + base
        };
        let c = if c0 < le {
            c0
        } else {
            le
        };
        let line = acc + s.subrange(c, le);
        if eol_len(s, le) > 0 && le + eol_len(s, le) <= e {
            proof {
                lemma_line_end_bounds(s, q);
            }
            dedented(s, le + eol_len(s, le), e, base, line.push('\n'))
        } else {
            line
        }
    }
}

/// The text of a block that runs from `start` to `end`.
pub open spec fn block_text(s: Seq<char>, start: int, end: int) -> Seq<char> {
    dedented(s, start, end, block_base(s, start), Seq::empty())
}

/// Inline text holds its space and at least one character more, ends
/// within the input, and holds no line terminator.
pub proof fn lemma_text_bounds(s: Seq<char>, i: int)
    requires
        0 <= i <= s.len(),
    ensures
        spec_text(s, i) matches Ok(e) ==> {
            &&& i + 1 < e <= s.len()
            &&& forall|j: int| i < j < e ==> eol_len(s, j) == 0
        },
{
    if i < s.len() {
        lemma_line_end_bounds(s, i + 1);
    }
}

/// The lines of a text block end at or after the end of the last line
/// taken so far, within the input.
pub proof fn lemma_block_end_bounds(
    s: Seq<char>,
    q: int,
    level: int,
    unit: Option<Seq<char>>,
    last: int,
)
    requires
        0 <= last <= q <= s.len(),
    ensures
        last <= block_end(s, q, level, unit, last) <= s.len(),
    decreases s.len() - q,
{
    let e = indent_end(s, q);
    lemma_indent_end_bounds(s, q);
    lemma_line_end_bounds(s, q);
    if q < s.len() && e < s.len() {
        if eol_len(s, e) > 0 {
            lemma_block_end_bounds(s, e + eol_len(s, e), level, unit, last);
        } else if is_deeper(s, q, level, unit) {
            let le = line_end(s, q);
            if eol_len(s, le) > 0 {
                lemma_block_end_bounds(s, le + eol_len(s, le), level, unit, le);
            }
        }
    }
}

/// A text block holds its `.` and ends within the input; its lines start
/// after the `.` and end where the block ends.
pub proof fn lemma_text_block_bounds(s: Seq<char>, i: int, level: int, unit: Option<Seq<char>>)
    requires
        0 <= i <= s.len(),
    ensures
        spec_text_block(s, i, level, unit) matches Ok((start, end)) ==> i < start <= end
            <= s.len(),
{
    if i < s.len() && s[i] == '.' && eol_len(s, i + 1) > 0 {
        let q = block_start(s, i);
        lemma_skip_blank_bounds(s, q);
        let f = skip_blank(s, q);
        if f < s.len() {
            lemma_block_end_bounds(s, f, level, unit, f);
        }
    }
}

/// Reads the inline text that starts at `i` and returns its end.
pub fn text_at(s: &[char], i: usize) -> (r: Result<usize, ParseError>)
    requires
        i <= s.len(),
    ensures
        agrees(r, spec_text(s@, i as int)),
        r matches Ok(end) ==> i + 1 < end <= s.len(),
{
    if i < s.len() && s[i] == ' ' {
        let end = line_end_at(s, i + 1);
        if end > i + 1 {
            Ok(end)
        } else {
            Err(unexpected_at(s, i + 1))
        }
    } else {
        Err(unexpected_at(s, i))
    }
}

/// Finds the end of the text block whose first line starts at `first`.
fn block_end_at(s: &[char], first: usize, level: usize, unit: &Option<Vec<char>>) -> (end: usize)
    requires
        first <= s.len(),
    ensures
        end == block_end(s@, first as int, level as int, unit_view(*unit), first as int),
        first <= end <= s.len(),
{
    let mut q: usize = first;
    let mut last: usize = first;
    loop
        invariant_except_break
            first <= last <= q <= s.len(),
            block_end(s@, first as int, level as int, unit_view(*unit), first as int) == block_end(
                s@,
                q as int,
                level as int,
                unit_view(*unit),
                last as int,
            ),
        ensures
            first <= last <= s.len(),
            last == block_end(s@, first as int, level as int, unit_view(*unit), first as int),
        decreases s.len() - q,
    {
        if q >= s.len() {
            break;
        }
        let e = indent_end_at(s, q);
        if e >= s.len() {
            break;
        }
        let n = eol_len_at(s, e);
        if n > 0 {
            q = e + n;
        } else if is_deeper_at(s, q, level, unit) {
            let le = line_end_at(s, q);
            let m = eol_len_at(s, le);
            last = le;
            if m > 0 {
                q = le + m;
            } else {
                break;
            }
        } else {
            break;
        }
    }
    last
}

/// Reads the text block that the `.` at `i` introduces and returns where
/// its lines start and end.
pub fn text_block_at(s: &[char], i: usize, level: usize, unit: &Option<Vec<char>>) -> (r: Result<
    (usize, usize),
    ParseError,
>)
    requires
        i <= s.len(),
    ensures
        match r {
            Ok((start, end)) => {
                &&& spec_text_block(s@, i as int, level as int, unit_view(*unit)) == Ok::<
                    (int, int),
                    Failure,
                >((start as int, end as int))
                &&& i < start <= end <= s.len()
            },
            Err(e) => spec_text_block(s@, i as int, level as int, unit_view(*unit)) == Err::<
                (int, int),
                Failure,
            >(e@),
        },
{
    if !(i < s.len() && s[i] == '.') {
        return Err(unexpected_at(s, i));
    }
    let n = eol_len_at(s, i + 1);
    if n == 0 {
        return Err(unexpected_at(s, i + 1));
    }
    let start = i + 1 + n;
    let first = skip_blank_at(s, start);
    if first < s.len() && is_deeper_at(s, first, level, unit) {
        Ok((start, block_end_at(s, first, level, unit)))
    } else {
        Ok((i + 1, i + 1))
    }
}

/// Appends the characters of `s` between `from` and `to`.
pub(crate) fn push_range(out: &mut String, s: &[char], from: usize, to: usize)
    requires
        from <= to <= s.len(),
    ensures
        final(out)@ == old(out)@ + s@.subrange(from as int, to as int),
{
    let mut i: usize = from;
    while i < to
        invariant
            from <= i <= to <= s.len(),
            out@ == old(out)@ + s@.subrange(from as int, i as int),
        decreases to - i,
    {
        out.push(s[i]);
        i += 1;
    }
}

/// Builds the text of a block that runs from `start` to `end`.
pub fn block_text_at(s: &[char], start: usize, end: usize) -> (text: String)
    requires
        start <= end <= s.len(),
    ensures
        text@ == block_text(s@, start as int, end as int),
{
    let first = skip_blank_at(s, start);
    let base = indent_end_at(s, first) - first;
    let mut text = String::new();
    let mut q: usize = start;
    loop
        invariant_except_break
            start <= q <= s.len(),
            end <= s.len(),
            base <= s.len(),
            block_text(s@, start as int, end as int) == dedented(
                s@,
                q as int,
                end as int,
                base as int,
                text@,
            ),
        ensures
            text@ == block_text(s@, start as int, end as int),
        decreases s.len() - q,
    {
        if q >= end {
            break;
        }
        let line_stop = line_end_at(s, q);
        let le = if line_stop < end {
            line_stop
        } else {
            end
        };
        let indent_stop = indent_end_at(s, q);
        let c0 = if indent_stop - q < base {
            indent_stop
        } else {
            q + base
        };
        let c = if c0 < le {
            c0
        } else {
            le
        };
        push_range(&mut text, s, c, le);
        let n = eol_len_at(s, le);
        if n > 0 && end - le >= n {
            text.push('\n');
            q = le + n;
        } else {
            break;
        }
    }
    text
}

/// Reads inline text from the start of `input`: a space, then the rest of
/// the line, which must not be empty.
pub fn process_text(input: &str) -> (r: Result<(&str, &str), ParseError>)
    ensures
        token_agrees(input@, r, 1, spec_text(input@, 0)),
{
    let s = to_chars(input);
    match text_at(s.as_slice(), 0) {
        Ok(end) => Ok((piece(input, end, s.len()), piece(input, 1, end))),
        Err(e) => Err(e),
    }
}

/// Reads a text block from the start of `input`, which is the `.` that
/// ends the header of a tag at the context's level, and returns the lines
/// of the block as they are written.
pub fn process_text_block<'a>(input: &'a str, context: &mut HsmlProcessContext) -> (r: Result<
    (&'a str, &'a str),
    ParseError,
>)
    ensures
        *final(context) == *old(context),
        match r {
            Ok((rest, block)) => {
                &&& spec_text_block(
                    input@,
                    0,
                    old(context).indent_level as int,
                    old(context).unit(),
                ) matches Ok((start, end))
                &&& block@ == input@.subrange(start, end)
                &&& rest@ == input@.subrange(end, input@.len() as int)
            },
            Err(e) => spec_text_block(
                input@,
                0,
                old(context).indent_level as int,
                old(context).unit(),
            ) == Err::<(int, int), Failure>(e@),
        },
{
    let s = to_chars(input);
    let unit = context.unit_chars();
    match text_block_at(s.as_slice(), 0, context.indent_level, &unit) {
        Ok((start, end)) => Ok((piece(input, end, s.len()), piece(input, start, end))),
        Err(e) => Err(e),
    }
}

} // verus!
