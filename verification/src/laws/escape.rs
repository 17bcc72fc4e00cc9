//! Laws of escape sequences: what is taken out and what is kept.

use crate::ansi::{escape_len, is_final_letter, is_parameter, parameters_len, without_escapes};
use crate::laws::text::law_escape_sequence_disappears;
use vstd::prelude::*;

verus! {

/// Parameters reach up to the first character that is none.
proof fn lemma_parameters_len(text: Seq<char>, n: int)
    requires
        0 <= n <= text.len(),
        forall|i: int| 0 <= i < n ==> is_parameter(#[trigger] text[i]),
        n == text.len() || !is_parameter(text[n]),
    ensures
        parameters_len(text) == n,
    decreases n,
{
    if n > 0 {
        let rest = text.skip(1);
        assert(is_parameter(text[0]));
        assert forall|i: int| 0 <= i < n - 1 implies is_parameter(#[trigger] rest[i]) by {
            assert(rest[i] == text[i + 1]);
        }
        lemma_parameters_len(rest, n - 1);
    }
}

/// Where the parameters of a text end.
proof fn lemma_parameters_end(text: Seq<char>)
    ensures
        parameters_len(text) <= text.len(),
        forall|i: int| 0 <= i < parameters_len(text) ==> is_parameter(#[trigger] text[i]),
    decreases text.len(),
{
    if text.len() > 0 && is_parameter(text[0]) {
        let rest = text.skip(1);
        lemma_parameters_end(rest);
        assert forall|i: int| 0 <= i < parameters_len(text) implies is_parameter(
            #[trigger] text[i],
        ) by {
            if i > 0 {
                assert(text[i] == rest[i - 1]);
            }
        }
    }
}

/// Escape, an opening bracket, any digits and semicolons, and a letter disappear, and
/// nothing else round them does.
pub proof fn law_sequence_of_any_parameters_disappears(
    plain: Seq<char>,
    parameters: Seq<char>,
    letter: char,
    rest: Seq<char>,
)
    requires
        !plain.contains('\u{1b}'),
        forall|i: int|
            0 <= i < parameters.len() ==> ('0' <= #[trigger] parameters[i] <= '9' || parameters[i]
                == ';'),
        'A' <= letter <= 'Z' || 'a' <= letter <= 'z',
    ensures
        without_escapes(plain + (seq!['\u{1b}', '['] + parameters + seq![letter]) + rest) == plain
            + without_escapes(rest),
{
    let escape = seq!['\u{1b}', '['] + parameters + seq![letter];
    let behind = escape.skip(2);
    let n = parameters.len() as int;
    assert(behind =~= parameters + seq![letter]);
    assert forall|i: int| 0 <= i < n implies is_parameter(#[trigger] behind[i]) by {
        assert(behind[i] == parameters[i]);
    }
    assert(behind[n] == letter);
    assert(!is_parameter(letter));
    lemma_parameters_len(behind, n);
    assert(escape[n + 2] == letter);
    assert(escape_len(escape) == escape.len());
    law_escape_sequence_disappears(plain, escape, rest);
}

/// Any character but escape is kept, and what stands behind it is read as if it stood
/// alone.
pub proof fn law_other_characters_are_kept(text: Seq<char>)
    ensures
        text.len() == 0 ==> without_escapes(text).len() == 0,
        text.len() > 0 && text[0] != '\u{1b}' ==> without_escapes(text) == seq![text[0]]
            + without_escapes(text.skip(1)),
{
}

/// An escape that begins no sequence is kept: no bracket follows, or what follows the
/// digits and semicolons behind the bracket is no letter.
pub proof fn law_broken_sequence_is_kept(text: Seq<char>)
    requires
        text.len() > 0,
        text[0] == '\u{1b}',
        text.len() >= 2 && text[1] == '[' ==> forall|n: int|
            2 <= n < text.len() && (forall|i: int|
                2 <= i < n ==> ('0' <= #[trigger] text[i] <= '9' || text[i] == ';'))
                ==> !('A' <= #[trigger] text[n] <= 'Z' || 'a' <= text[n] <= 'z'),
    ensures
        without_escapes(text) == seq!['\u{1b}'] + without_escapes(text.skip(1)),
{
    if text.len() >= 2 && text[1] == '[' {
        let behind = text.skip(2);
        lemma_parameters_end(behind);
        let n = 2 + parameters_len(behind) as int;
        if n < text.len() {
            assert forall|i: int| 2 <= i < n implies ('0' <= #[trigger] text[i] <= '9' || text[i]
                == ';') by {
                assert(is_parameter(behind[i - 2]));
            }
            assert(!is_final_letter(text[n]));
        }
    }
    assert(escape_len(text) == 0);
}

} // verus!
