//! Validation of project names.
//!
//! A project name is accepted when it contains an ASCII letter immediately
//! followed by an ASCII letter or digit, i.e. when some substring of it
//! matches the pattern `[a-zA-Z][a-zA-Z0-9]+`.

use vstd::prelude::*;

verus! {

pub open spec fn spec_is_ascii_letter(c: char) -> bool {
    ('a' <= c && c <= 'z') || ('A' <= c && c <= 'Z')
}

pub open spec fn spec_is_ascii_letter_or_digit(c: char) -> bool {
    spec_is_ascii_letter(c) || ('0' <= c && c <= '9')
}

/// Some substring of `s` matches `[a-zA-Z][a-zA-Z0-9]+`: a letter stands
/// immediately before a letter or digit.
pub open spec fn spec_name_matches_pattern(s: Seq<char>) -> bool {
    exists|i: int|
        0 <= i && i + 1 < s.len() && spec_is_ascii_letter(s[i]) && spec_is_ascii_letter_or_digit(
            s[i + 1],
        )
}

fn is_ascii_letter(c: char) -> (r: bool)
    ensures
        r == spec_is_ascii_letter(c),
{
    ('a' <= c && c <= 'z') || ('A' <= c && c <= 'Z')
}

fn is_ascii_letter_or_digit(c: char) -> (r: bool)
    ensures
        r == spec_is_ascii_letter_or_digit(c),
{
    is_ascii_letter(c) || ('0' <= c && c <= '9')
}

/// Decides whether a project name is valid.
pub fn name_matches_pattern(name: &str) -> (r: bool)
    ensures
        r == spec_name_matches_pattern(name@),
{
    let len = name.unicode_len();
    if len < 2 {
        return false;
    }
    let mut i: usize = 0;
    while i + 1 < len
        invariant
            len == name@.len(),
            2 <= len,
            0 <= i < len,
            forall|j: int|
                0 <= j < i ==> !(spec_is_ascii_letter(name@[j]) && spec_is_ascii_letter_or_digit(
                    name@[j + 1],
                )),
        decreases len - i,
    {
        let c = name.get_char(i);
        let d = name.get_char(i + 1);
        if is_ascii_letter(c) && is_ascii_letter_or_digit(d) {
            return true;
        }
        i = i + 1;
    }
    false
}

} // verus!
