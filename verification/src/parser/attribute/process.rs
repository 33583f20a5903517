//! The text of one attribute: its key, and its quoted value.
use vstd::prelude::*;

use crate::parser::error::{agrees, Failure, ParseError, ParseErrorKind};
use crate::parser::scan::{
    eol_len, eol_len_at, find_closer, find_closer_at, is_ascii_digit, is_ascii_letter,
    lemma_find_closer_bounds, letter, piece, to_chars, token_agrees,
};
use crate::parser::HsmlProcessContext;

verus! {

/// Whether a character has the Unicode property Alphabetic.
pub uninterp spec fn unicode_alphabetic(c: char) -> bool;

/// Whether a character is in one of the Unicode categories of numbers.
pub uninterp spec fn unicode_numeric(c: char) -> bool;

/// `char::is_alphabetic` of the standard library tells whether a character
/// has the Unicode property Alphabetic. The property is a table of the
/// Unicode Character Database; it is named here and not written out.
pub assume_specification[ char::is_alphabetic ](c: char) -> (r: bool)
    ensures
        r == unicode_alphabetic(c),
;

/// `char::is_numeric` of the standard library tells whether a character is
/// in one of the Unicode general categories of numbers (`Nd`, `Nl`, `No`).
/// The categories are tables of the Unicode Character Database; the answer
/// is named here and not written out.
pub assume_specification[ char::is_numeric ](c: char) -> (r: bool)
    ensures
        r == unicode_numeric(c),
;

/// Whether `c` is an ASCII character.
pub open spec fn is_ascii_char(c: char) -> bool {
    c <= '\x7f'
}

/// Whether a character is a letter: within ASCII one of `a` to `z` and `A`
/// to `Z`, beyond ASCII a character with the Unicode property Alphabetic.
pub open spec fn is_letter(c: char) -> bool {
    if is_ascii_char(c) {
        is_ascii_letter(c)
    } else {
        unicode_alphabetic(c)
    }
}

/// Whether a character is a number: within ASCII one of `0` to `9`, beyond
/// ASCII a character of a Unicode category of numbers.
pub open spec fn is_number(c: char) -> bool {
    if is_ascii_char(c) {
        is_ascii_digit(c)
    } else {
        unicode_numeric(c)
    }
}

/// The characters that may begin an attribute key, numbers left aside: a
/// letter, or one of `:`, `#`, `@`, `[`, `(`.
pub open spec fn is_key_start(c: char) -> bool {
    is_letter(c) || c == ':' || c == '#' || c == '@' || c == '[' || c == '('
}

/// Whether an attribute key ends before position `i`: at `)`, `,`, `=`, a
/// space, or a line terminator.
pub open spec fn is_key_terminator(s: Seq<char>, i: int) -> bool {
    0 <= i < s.len() && (s[i] == ')' || s[i] == ',' || s[i] == '=' || s[i] == ' ' || eol_len(
        s,
        i,
    ) > 0)
}

/// The end of the attribute key whose scan has reached `i`. A `[` opens a
/// group that runs to the first `]` not preceded by a backslash, a `(` one
/// that runs to the first such `)`; what a group holds belongs to the key.
pub open spec fn key_end(s: Seq<char>, i: int) -> Result<int, Failure>
    decreases s.len() - i,
{
    if i < 0 || i >= s.len() {
        Err(Failure { at: s.len() as int, kind: ParseErrorKind::IncompleteInput })
    } else if is_key_terminator(s, i) {
        Ok(i)
    } else if s[i] == '[' {
        let p = find_closer(s, i + 1, ']');
        if p >= s.len() {
            Err(Failure { at: i, kind: ParseErrorKind::UnterminatedBracketGroup })
        } else {
            proof {
                lemma_find_closer_bounds(s, i + 1, ']');
            }
            key_end(s, p + 1)
        }
    } else if s[i] == '(' {
        let p = find_closer(s, i + 1, ')');
        if p >= s.len() {
            Err(Failure { at: i, kind: ParseErrorKind::UnterminatedParenGroup })
        } else {
            proof {
                lemma_find_closer_bounds(s, i + 1, ')');
            }
            key_end(s, p + 1)
        }
    } else {
        key_end(s, i + 1)
    }
}

/// The end of the attribute key that starts at `i`, or why there is none.
pub open spec fn spec_attribute_key(s: Seq<char>, i: int) -> Result<int, Failure> {
    if i < 0 || i >= s.len() {
        Err(Failure { at: i, kind: ParseErrorKind::IncompleteInput })
    } else if is_number(s[i]) || !is_key_start(s[i]) {
        Err(Failure { at: i, kind: ParseErrorKind::InvalidAttributeKeyStart })
    } else {
        key_end(s, i)
    }
}

/// The position of the quote that closes the attribute value whose opening
/// quote stands at `i`, or why there is none. The closing quote is the
/// first quote of the same kind that no backslash precedes.
pub open spec fn spec_attribute_value(s: Seq<char>, i: int) -> Result<int, Failure> {
    if i < 0 || i >= s.len() {
        Err(Failure { at: i, kind: ParseErrorKind::IncompleteInput })
    } else if s[i] == '"' || s[i] == '\'' {
        let p = find_closer(s, i + 1, s[i]);
        if p >= s.len() {
            Err(Failure { at: i, kind: ParseErrorKind::UnterminatedQuotedValue })
        } else {
            Ok(p)
        }
    } else {
        Err(Failure { at: i, kind: ParseErrorKind::UnquotedAttributeValue })
    }
}

/// The end of the attribute that starts at `i`: the end of its key, or the
/// position after the closing quote where `=` follows the key.
pub open spec fn spec_attribute(s: Seq<char>, i: int) -> Result<int, Failure> {
    match spec_attribute_key(s, i) {
        Ok(k) => if 0 <= k < s.len() && s[k] == '=' {
            match spec_attribute_value(s, k + 1) {
                Ok(p) => Ok(p + 1),
                Err(f) => Err(f),
            }
        } else {
            Ok(k)
        },
        Err(f) => Err(f),
    }
}

/// The scan of an attribute key ends within the input, at a character
/// that ends keys.
pub proof fn lemma_key_end_bounds(s: Seq<char>, i: int)
    requires
        0 <= i <= s.len(),
    ensures
        key_end(s, i) matches Ok(k) ==> i <= k < s.len() && is_key_terminator(s, k),
    decreases s.len() - i,
{
    if i < s.len() && !is_key_terminator(s, i) {
        if s[i] == '[' {
            let p = find_closer(s, i + 1, ']');
            lemma_find_closer_bounds(s, i + 1, ']');
            if p < s.len() {
                lemma_key_end_bounds(s, p + 1);
            }
        } else if s[i] == '(' {
            let p = find_closer(s, i + 1, ')');
            lemma_find_closer_bounds(s, i + 1, ')');
            if p < s.len() {
                lemma_key_end_bounds(s, p + 1);
            }
        } else {
            lemma_key_end_bounds(s, i + 1);
        }
    }
}

/// An attribute is never empty and ends within the input. Its key is
/// never empty either, and where the attribute has a value, the key, `=`
/// and the two quotes are all within it.
pub proof fn lemma_attribute_bounds(s: Seq<char>, i: int)
    requires
        0 <= i <= s.len(),
    ensures
        spec_attribute_key(s, i) matches Ok(k) ==> i < k < s.len(),
        spec_attribute(s, i) matches Ok(e) ==> {
            &&& spec_attribute_key(s, i) matches Ok(k)
            &&& i < k <= e <= s.len()
            &&& k < e ==> k + 3 <= e
        },
{
    lemma_key_end_bounds(s, i);
    if let Ok(k) = spec_attribute_key(s, i) {
        if s[k] == '=' && k + 1 < s.len() {
            lemma_find_closer_bounds(s, k + 2, s[k + 1]);
        }
    }
}

/// Tells whether `c` is a letter.
pub fn is_letter_char(c: char) -> (r: bool)
    ensures
        r == is_letter(c),
{
    if c <= '\x7f' {
        letter(c)
    } else {
        c.is_alphabetic()
    }
}

/// Tells whether `c` is a number.
pub fn is_number_char(c: char) -> (r: bool)
    ensures
        r == is_number(c),
{
    if c <= '\x7f' {
        c >= '0' && c <= '9'
    } else {
        c.is_numeric()
    }
}

/// Whether `c` may begin an attribute key: a letter, or one of `:`, `#`,
/// `@`, `[`, `(`.
pub fn is_valid_attribute_key_start(c: char) -> (r: bool)
    ensures
        r == is_key_start(c),
{
    is_letter_char(c) || c == ':' || c == '#' || c == '@' || c == '[' || c == '('
}

/// Reads the attribute key that starts at `i` and returns its end.
pub fn attribute_key_at(s: &[char], i: usize) -> (r: Result<usize, ParseError>)
    requires
        i <= s.len(),
    ensures
        agrees(r, spec_attribute_key(s@, i as int)),
        r matches Ok(k) ==> i < k < s.len(),
{
    if i >= s.len() {
        return Err(ParseError { offset: i, kind: ParseErrorKind::IncompleteInput });
    }
    let first = s[i];
    if is_number_char(first) {
        return Err(ParseError { offset: i, kind: ParseErrorKind::InvalidAttributeKeyStart });
    }
    if !is_valid_attribute_key_start(first) {
        return Err(ParseError { offset: i, kind: ParseErrorKind::InvalidAttributeKeyStart });
    }
    let mut p: usize = i;
    loop
        invariant
            i <= p <= s.len(),
            p == i ==> i < s.len() && !is_key_terminator(s@, i as int),
            spec_attribute_key(s@, i as int) == key_end(s@, i as int),
            key_end(s@, i as int) == key_end(s@, p as int),
        decreases s.len() - p,
    {
        if p >= s.len() {
            return Err(ParseError { offset: s.len(), kind: ParseErrorKind::IncompleteInput });
        }
        let c = s[p];
        if c == ')' || c == ',' || c == '=' || c == ' ' || eol_len_at(s, p) > 0 {
            return Ok(p);
        }
        if c == '[' {
            let q = find_closer_at(s, p + 1, ']');
            if q >= s.len() {
                return Err(
                    ParseError { offset: p, kind: ParseErrorKind::UnterminatedBracketGroup },
                );
            }
            p = q + 1;
        } else if c == '(' {
            let q = find_closer_at(s, p + 1, ')');
            if q >= s.len() {
                return Err(ParseError { offset: p, kind: ParseErrorKind::UnterminatedParenGroup });
            }
            p = q + 1;
        } else {
            p += 1;
        }
    }
}

/// Reads the quoted attribute value whose opening quote should stand at `i`
/// and returns the position of its closing quote.
pub fn attribute_value_at(s: &[char], i: usize) -> (r: Result<usize, ParseError>)
    requires
        i <= s.len(),
    ensures
        agrees(r, spec_attribute_value(s@, i as int)),
        r matches Ok(p) ==> i < p < s.len(),
{
    if i >= s.len() {
        return Err(ParseError { offset: i, kind: ParseErrorKind::IncompleteInput });
    }
    let quote = s[i];
    if quote == '"' || quote == '\'' {
        let p = find_closer_at(s, i + 1, quote);
        if p >= s.len() {
            return Err(ParseError { offset: i, kind: ParseErrorKind::UnterminatedQuotedValue });
        }
        return Ok(p);
    }
    Err(ParseError { offset: i, kind: ParseErrorKind::UnquotedAttributeValue })
}

/// Reads the attribute that starts at `i` and returns the end of its key
/// and its own end. The two differ exactly where the attribute has a value,
/// which then stands between the quotes after the `=`.
pub fn attribute_at(s: &[char], i: usize) -> (r: Result<(usize, usize), ParseError>)
    requires
        i <= s.len(),
    ensures
        match r {
            Ok((k, end)) => {
                &&& spec_attribute_key(s@, i as int) == Ok::<int, Failure>(k as int)
                &&& spec_attribute(s@, i as int) == Ok::<int, Failure>(end as int)
                &&& i < k <= end <= s.len()
                &&& k < end ==> k + 3 <= end
            },
            Err(e) => spec_attribute(s@, i as int) == Err::<int, Failure>(e@),
        },
{
    let k = match attribute_key_at(s, i) {
        Ok(k) => k,
        Err(e) => {
            return Err(e);
        },
    };
    if s[k] == '=' {
        match attribute_value_at(s, k + 1) {
            Ok(p) => Ok((k, p + 1)),
            Err(e) => Err(e),
        }
    } else {
        Ok((k, k))
    }
}

/// Reads an attribute key from the start of `input`: the key runs up to the
/// first `)`, `,`, `=`, space or line terminator outside a `[..]` or `(..)`
/// group.
pub fn process_attribute_key(input: &str) -> (r: Result<(&str, &str), ParseError>)
    ensures
        token_agrees(input@, r, 0, spec_attribute_key(input@, 0)),
{
    let s = to_chars(input);
    match attribute_key_at(s.as_slice(), 0) {
        Ok(k) => Ok((piece(input, k, s.len()), piece(input, 0, k))),
        Err(e) => Err(e),
    }
}

/// Reads a quoted attribute value from the start of `input` and returns it
/// without its quotes.
pub fn process_attribute_value<'a>(input: &'a str, _context: &mut HsmlProcessContext) -> (r:
    Result<(&'a str, &'a str), ParseError>)
    ensures
        *final(_context) == *old(_context),
        match r {
            Ok((rest, value)) => {
                &&& spec_attribute_value(input@, 0) matches Ok(p)
                &&& value@ == input@.subrange(1, p)
                &&& rest@ == input@.subrange(p + 1, input@.len() as int)
            },
            Err(e) => spec_attribute_value(input@, 0) == Err::<int, Failure>(e@),
        },
{
    let s = to_chars(input);
    match attribute_value_at(s.as_slice(), 0) {
        Ok(p) => Ok((piece(input, p + 1, s.len()), piece(input, 1, p))),
        Err(e) => Err(e),
    }
}

/// Reads one attribute from the start of `input` and returns its text as
/// written: the key, and `=` with the quoted value where they follow.
pub fn process_attribute<'a>(input: &'a str, context: &mut HsmlProcessContext) -> (r: Result<
    (&'a str, &'a str),
    ParseError,
>)
    ensures
        *final(context) == *old(context),
        token_agrees(input@, r, 0, spec_attribute(input@, 0)),
{
    let s = to_chars(input);
    match attribute_at(s.as_slice(), 0) {
        Ok((_, end)) => Ok((piece(input, end, s.len()), piece(input, 0, end))),
        Err(e) => Err(e),
    }
}

} // verus!
