//! Indentation: the unit, the levels that it gives, and what lies deeper
//! than a tag.
use vstd::prelude::*;

use super::scan::{is_indent, indent_char, occurs, text_of, to_chars};
use super::HsmlProcessContext;

verus! {

/// The indentation unit that a parse holds, as a character sequence.
pub open spec fn unit_view(unit: Option<Vec<char>>) -> Option<Seq<char>> {
    match unit {
        Some(u) => Some(u@),
        None => None,
    }
}

/// The character at `j` of the unit written over and over.
pub open spec fn unit_char(u: Seq<char>, j: int) -> char {
    u[j % (u.len() as int)]
}

/// Whether the `n` characters of `s` from `q` on are the unit written over
/// and over.
pub open spec fn repeats(s: Seq<char>, q: int, n: int, u: Seq<char>) -> bool {
    forall|j: int| 0 <= j < n ==> q + j < s.len() && s[q + j] == #[trigger] unit_char(u, j)
}

/// The length of the indentation of a tag at `level`: so many units, and
/// nothing while no unit is set.
pub open spec fn prefix_len(level: int, unit: Option<Seq<char>>) -> int {
    match unit {
        Some(u) => level * u.len(),
        None => 0,
    }
}

/// Whether the line that starts at `q` is indented strictly deeper than a
/// tag at `level`: it starts with the tag's own indentation, and a space or
/// a tab follows.
pub open spec fn is_deeper(s: Seq<char>, q: int, level: int, unit: Option<Seq<char>>) -> bool {
    let n = prefix_len(level, unit);
    &&& 0 <= q
    &&& 0 <= n
    &&& q + n < s.len()
    &&& n > 0 ==> repeats(s, q, n, unit->Some_0)
    &&& is_indent(s[q + n])
}

/// Whether the characters of `s` between `q` and `c` hold both a space and
/// a tab.
pub open spec fn is_mixed(s: Seq<char>, q: int, c: int) -> bool {
    occurs(s, q, c, ' ') && occurs(s, q, c, '\t')
}

/// The level of a line whose indentation is the `n` characters from `q` on:
/// the number of units that make it up, where it is made of whole units.
pub open spec fn line_level(s: Seq<char>, q: int, n: int, u: Seq<char>) -> Option<int> {
    if u.len() > 0 && n % (u.len() as int) == 0 && repeats(s, q, n, u) {
        Some(n / (u.len() as int))
    } else {
        None
    }
}

/// An indentation taken as the unit is one unit.
pub proof fn lemma_unit_is_level_one(s: Seq<char>, q: int, n: int)
    requires
        0 <= q,
        0 < n,
        q + n <= s.len(),
    ensures
        line_level(s, q, n, s.subrange(q, q + n)) == Some(1int),
{
    let u = s.subrange(q, q + n);
    assert forall|j: int| 0 <= j < n implies q + j < s.len() && s[q + j] == #[trigger] unit_char(
        u,
        j,
    ) by {
        vstd::arithmetic::div_mod::lemma_small_mod(j as nat, n as nat);
    }
    vstd::arithmetic::div_mod::lemma_mod_self_0(n);
    vstd::arithmetic::div_mod::lemma_div_basics(n);
}

/// Tells whether the `n` characters from `q` on are the unit written
/// over and over.
pub fn repeats_at(s: &[char], q: usize, n: usize, u: &Vec<char>) -> (r: bool)
    requires
        q + n <= s.len(),
        n > 0 ==> u.len() > 0,
    ensures
        r == repeats(s@, q as int, n as int, u@),
{
    let mut j: usize = 0;
    while j < n
        invariant
            j <= n,
            q + n <= s.len(),
            n > 0 ==> u.len() > 0,
            forall|k: int| 0 <= k < j ==> s@[q + k] == #[trigger] unit_char(u@, k),
        decreases n - j,
    {
        if s[q + j] != u[j % u.len()] {
            assert(s@[q + j] != unit_char(u@, j as int));
            return false;
        }
        j += 1;
    }
    true
}

/// Tells whether the line that starts at `q` is indented strictly deeper
/// than a tag at `level`.
pub fn is_deeper_at(s: &[char], q: usize, level: usize, unit: &Option<Vec<char>>) -> (r: bool)
    requires
        q <= s.len(),
    ensures
        r == is_deeper(s@, q as int, level as int, unit_view(*unit)),
{
    match unit {
        Some(u) => {
            let n: usize = match level.checked_mul(u.len()) {
                Some(n) => n,
                None => {
                    return false;
                },
            };
            if n >= s.len() - q {
                return false;
            }
            if n > 0 {
                assert(u.len() > 0) by (nonlinear_arith)
                    requires
                        n == level * u.len(),
                        n > 0,
                ;
                if !repeats_at(s, q, n, u) {
                    return false;
                }
            }
            indent_char(s[q + n])
        },
        None => q < s.len() && indent_char(s[q]),
    }
}

/// Tells whether the characters between `q` and `c` hold both a space and
/// a tab.
pub fn is_mixed_at(s: &[char], q: usize, c: usize) -> (r: bool)
    requires
        q <= c <= s.len(),
    ensures
        r == is_mixed(s@, q as int, c as int),
{
    let mut space = false;
    let mut tab = false;
    let mut j: usize = q;
    while j < c
        invariant
            q <= j <= c <= s.len(),
            space == occurs(s@, q as int, j as int, ' '),
            tab == occurs(s@, q as int, j as int, '\t'),
        decreases c - j,
    {
        if s[j] == ' ' {
            space = true;
        }
        if s[j] == '\t' {
            tab = true;
        }
        j += 1;
    }
    space && tab
}

/// Computes the level of a line whose indentation is the `n` characters
/// from `q` on, where it is made of whole units.
pub fn line_level_at(s: &[char], q: usize, n: usize, u: &Vec<char>) -> (r: Option<usize>)
    requires
        q + n <= s.len(),
    ensures
        match r {
            Some(k) => line_level(s@, q as int, n as int, u@) == Some(k as int),
            None => line_level(s@, q as int, n as int, u@) is None,
        },
{
    if u.len() == 0 || n % u.len() != 0 {
        return None;
    }
    if repeats_at(s, q, n, u) {
        Some(n / u.len())
    } else {
        None
    }
}

impl HsmlProcessContext {
    /// The indentation unit, character by character.
    pub(crate) fn unit_chars(&self) -> (r: Option<Vec<char>>)
        ensures
            unit_view(r) == self.unit(),
    {
        match &self.indent_string {
            Some(u) => Some(to_chars(u.as_str())),
            None => None,
        }
    }

    /// Records the unit that a parse has ended with.
    pub(crate) fn record_unit(&mut self, unit: &Option<Vec<char>>)
        ensures
            final(self).unit() == unit_view(*unit),
            final(self).indent_level == old(self).indent_level,
    {
        self.indent_string = match unit {
            Some(u) => {
                assert(u@.subrange(0, u@.len() as int) == u@);
                Some(text_of(u.as_slice(), 0, u.len()))
            },
            None => None,
        };
    }
}

} // verus!
