//! Terminal escape sequences.

use crate::text::{is_digit, to_chars};
use vstd::prelude::*;

verus! {

/// Whether `c` may stand between the bracket and the letter of a sequence.
pub open spec fn is_parameter(c: char) -> bool {
    is_digit(c) || c == ';'
}

/// Whether `c` is a letter of A to Z or a to z, which ends a sequence.
pub open spec fn is_final_letter(c: char) -> bool {
    'A' <= c <= 'Z' || 'a' <= c <= 'z'
}

/// How many parameter characters `text` begins with.
pub open spec fn parameters_len(text: Seq<char>) -> nat
    decreases text.len(),
{
    if text.len() > 0 && is_parameter(text[0]) {
        1 + parameters_len(text.skip(1))
    } else {
        0
    }
}

/// The length of the escape sequence that `text` begins with: escape, an
/// opening bracket, parameters and a letter. Zero if there is none.
pub open spec fn escape_len(text: Seq<char>) -> nat {
    if text.len() >= 2 && text[0] == '\u{1b}' && text[1] == '[' {
        let letter = 2 + parameters_len(text.skip(2));
        if letter < text.len() && is_final_letter(text[letter as int]) {
            letter + 1
        } else {
            0
        }
    } else {
        0
    }
}

/// `text` without its escape sequences, taken off from the front.
pub open spec fn without_escapes(text: Seq<char>) -> Seq<char>
    decreases text.len(),
{
    if text.len() == 0 {
        seq![]
    } else if escape_len(text) > 0 {
        without_escapes(text.skip(escape_len(text) as int))
    } else {
        seq![text[0]] + without_escapes(text.skip(1))
    }
}

/// The length of the escape sequence at position `at`.
fn escape_at(chars: &Vec<char>, at: usize) -> (len: usize)
    requires
        at < chars@.len(),
    ensures
        len == escape_len(chars@.skip(at as int)),
        at + len <= chars@.len(),
{
    let ghost rest = chars@.skip(at as int);
    if chars.len() - at < 2 || chars[at] != '\u{1b}' || chars[at + 1] != '[' {
        return 0;
    }
    let mut i: usize = at + 2;
    assert(rest.skip(2) == chars@.skip(at + 2));
    while i < chars.len() && ((chars[i] >= '0' && chars[i] <= '9') || chars[i] == ';')
        invariant
            at + 2 <= i <= chars@.len(),
            rest == chars@.skip(at as int),
            parameters_len(rest.skip(2)) == (i - at - 2) + parameters_len(chars@.skip(i as int)),
        decreases chars@.len() - i,
    {
        assert(chars@.skip(i as int).skip(1) == chars@.skip(i + 1));
        i = i + 1;
    }
    assert(parameters_len(chars@.skip(i as int)) == 0);
    if i < chars.len() {
        let c = chars[i];
        assert(rest[i - at] == c);
        if (c >= 'A' && c <= 'Z') || (c >= 'a' && c <= 'z') {
            return i - at + 1;
        }
    }
    0
}

/// Takes the escape sequences out of `text`.
pub fn strip_ansi(text: &str) -> (clean: String)
    ensures
        clean@ == without_escapes(text@),
{
    let chars = to_chars(text);
    let mut clean = String::new();
    let mut i: usize = 0;
    assert(chars@.skip(0) == chars@);
    assert(clean@ + without_escapes(chars@) == without_escapes(chars@));
    while i < chars.len()
        invariant
            i <= chars@.len(),
            clean@ + without_escapes(chars@.skip(i as int)) == without_escapes(chars@),
        decreases chars@.len() - i,
    {
        let ghost rest = chars@.skip(i as int);
        let len = escape_at(&chars, i);
        if len > 0 {
            assert(rest.skip(len as int) == chars@.skip(i + len));
            i = i + len;
        } else {
            let ghost before = clean@;
            clean.push(chars[i]);
            assert(rest.skip(1) == chars@.skip(i + 1));
            assert(clean@ + without_escapes(chars@.skip(i + 1)) == before + without_escapes(rest));
            i = i + 1;
        }
    }
    assert(clean@ + without_escapes(chars@.skip(i as int)) == clean@);
    clean
}

} // verus!
