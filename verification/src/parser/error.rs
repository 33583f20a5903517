//! Parse failures: where the parser stopped, and why.
use vstd::prelude::*;

use super::scan::to_chars;

verus! {

/// Why the parser stopped.
#[derive(Clone, Copy, Debug, PartialEq, Eq)]
pub enum ParseErrorKind {
    /// An attribute key begins with a character that no key may begin with.
    InvalidAttributeKeyStart,
    /// A `[` inside an attribute key is never closed.
    UnterminatedBracketGroup,
    /// A `(` inside an attribute key is never closed.
    UnterminatedParenGroup,
    /// The quote that opens an attribute value has no matching closer.
    UnterminatedQuotedValue,
    /// The `=` of an attribute is not followed by a quote.
    UnquotedAttributeValue,
    /// A tag header holds a second `#` selector.
    DuplicateId,
    /// A line's indentation mixes tabs and spaces, or is no multiple of the
    /// indentation unit.
    InconsistentIndent,
    /// Any other character that the grammar does not allow where it stands.
    UnexpectedInput,
    /// The input ends where more was expected.
    IncompleteInput,
}

/// A parse failure: the offset of the offending character, counted in
/// characters from the start of the input that was handed in, and the kind.
#[derive(Clone, Copy, Debug, PartialEq, Eq)]
pub struct ParseError {
    pub offset: usize,
    pub kind: ParseErrorKind,
}

/// The mathematical form of a [`ParseError`].
pub struct Failure {
    pub at: int,
    pub kind: ParseErrorKind,
}

impl View for ParseError {
    type V = Failure;

    open spec fn view(&self) -> Failure {
        Failure { at: self.offset as int, kind: self.kind }
    }
}

/// The failure for a character that may not stand at `i`: the input is
/// incomplete when `i` is its end, unexpected otherwise.
pub open spec fn unexpected(s: Seq<char>, i: int) -> Failure {
    Failure {
        at: i,
        kind: if i >= s.len() {
            ParseErrorKind::IncompleteInput
        } else {
            ParseErrorKind::UnexpectedInput
        },
    }
}

/// A token parser's outcome: the position after the token, or the failure.
pub open spec fn agrees(r: Result<usize, ParseError>, expected: Result<int, Failure>) -> bool {
    match r {
        Ok(end) => expected == Ok::<int, Failure>(end as int),
        Err(e) => expected == Err::<int, Failure>(e@),
    }
}

/// Builds the error for a character that may not stand at `i`.
pub fn unexpected_at(s: &[char], i: usize) -> (e: ParseError)
    ensures
        e@ == unexpected(s@, i as int),
{
    ParseError {
        offset: i,
        kind: if i >= s.len() {
            ParseErrorKind::IncompleteInput
        } else {
            ParseErrorKind::UnexpectedInput
        },
    }
}

/// How many line feeds stand before position `i`.
pub open spec fn line_feeds_before(s: Seq<char>, i: int) -> int
    decreases i,
{
    if i <= 0 || i > s.len() {
        0
    } else {
        line_feeds_before(s, i - 1) + if s[i - 1] == '\n' {
            1int
        } else {
            0int
        }
    }
}

/// Where the line that holds position `i` starts: after the last line feed
/// before `i`, or at 0.
pub open spec fn line_start_before(s: Seq<char>, i: int) -> int
    decreases i,
{
    if i <= 0 || i > s.len() {
        0
    } else if s[i - 1] == '\n' {
        i
    } else {
        line_start_before(s, i - 1)
    }
}

impl ParseError {
    /// The line and the column of the failure in `source`, both counted
    /// from 0, in characters. An offset beyond the source counts as its
    /// end.
    pub fn line_and_column(&self, source: &str) -> (r: (usize, usize))
        ensures
            ({
                let at = if self.offset <= source@.len() {
                    self.offset as int
                } else {
                    source@.len() as int
                };
                &&& r.0 == line_feeds_before(source@, at)
                &&& r.1 == at - line_start_before(source@, at)
            }),
    {
        let chars = to_chars(source);
        let s = chars.as_slice();
        let at = if self.offset <= s.len() {
            self.offset
        } else {
            s.len()
        };
        let mut line: usize = 0;
        let mut start: usize = 0;
        let mut i: usize = 0;
        while i < at
            invariant
                i <= at <= s.len(),
                line <= i,
                start <= i,
                line == line_feeds_before(s@, i as int),
                start == line_start_before(s@, i as int),
            decreases at - i,
        {
            i += 1;
            if s[i - 1] == '\n' {
                line += 1;
                start = i;
            }
        }
        (line, at - start)
    }
}

} // verus!
