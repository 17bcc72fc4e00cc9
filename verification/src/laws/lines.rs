//! Laws that say what the lines and the pieces of a text are.

use crate::laws::text::{
    is_blank, is_trimmed, law_blank_ends_are_trimmed, law_trimmed_text_stays, lemma_len_before_is,
};
use crate::text::{
    is_white_space, lines_of, occurs_at, occurs_in, optional_text, shortened,
    small_letter, small_letters, texts, trim_of, without_leading,
};
use vstd::prelude::*;

verus! {

/// White space is the characters with that property in Unicode, and no others.
pub proof fn law_white_space_is_unicodes(c: char)
    ensures
        is_white_space(c) <==> {
            ||| "\u{9}\u{a}\u{b}\u{c}\u{d}\u{20}\u{85}\u{a0}\u{1680}"@.contains(c)
            ||| "\u{2000}\u{2001}\u{2002}\u{2003}\u{2004}\u{2005}\u{2006}"@.contains(c)
            ||| "\u{2007}\u{2008}\u{2009}\u{200a}\u{2028}\u{2029}\u{202f}\u{205f}\u{3000}"@.contains(c)
        },
{
    reveal_strlit("\u{9}\u{a}\u{b}\u{c}\u{d}\u{20}\u{85}\u{a0}\u{1680}");
    reveal_strlit("\u{2000}\u{2001}\u{2002}\u{2003}\u{2004}\u{2005}\u{2006}");
    reveal_strlit("\u{2007}\u{2008}\u{2009}\u{200a}\u{2028}\u{2029}\u{202f}\u{205f}\u{3000}");
    let a = "\u{9}\u{a}\u{b}\u{c}\u{d}\u{20}\u{85}\u{a0}\u{1680}"@;
    let b = "\u{2000}\u{2001}\u{2002}\u{2003}\u{2004}\u{2005}\u{2006}"@;
    let d = "\u{2007}\u{2008}\u{2009}\u{200a}\u{2028}\u{2029}\u{202f}\u{205f}\u{3000}"@;
    assert(a.contains(a[0]) && a.contains(a[1]) && a.contains(a[2]) && a.contains(a[3]));
    assert(a.contains(a[4]) && a.contains(a[5]) && a.contains(a[6]) && a.contains(a[7]));
    assert(a.contains(a[8]));
    assert(b.contains(b[0]) && b.contains(b[1]) && b.contains(b[2]) && b.contains(b[3]));
    assert(b.contains(b[4]) && b.contains(b[5]) && b.contains(b[6]));
    assert(d.contains(d[0]) && d.contains(d[1]) && d.contains(d[2]) && d.contains(d[3]));
    assert(d.contains(d[4]) && d.contains(d[5]) && d.contains(d[6]) && d.contains(d[7]));
    assert(d.contains(d[8]));
}

/// What is left of a trimmed text is what stands between the white space at its ends:
/// all of it, and no white space at its own ends.
pub proof fn law_trim_leaves_the_middle(before: Seq<char>, middle: Seq<char>, after: Seq<char>)
    requires
        forall|i: int| 0 <= i < before.len() ==> is_white_space(#[trigger] before[i]),
        forall|i: int| 0 <= i < after.len() ==> is_white_space(#[trigger] after[i]),
        middle.len() > 0 ==> !is_white_space(middle[0]) && !is_white_space(middle.last()),
    ensures
        trim_of(before + middle + after) == middle,
{
    assert(is_blank(before));
    assert(is_blank(after));
    assert(is_trimmed(middle));
    law_blank_ends_are_trimmed(before, middle, after);
    law_trimmed_text_stays(middle);
}

/// All marks in front of a text are taken off, and nothing else is.
pub proof fn law_leading_marks_are_taken_off(text: Seq<char>, c: char, n: nat)
    requires
        text.len() > 0 ==> text[0] != c,
    ensures
        without_leading(Seq::new(n, |i: int| c) + text, c) == text,
    decreases n,
{
    let marked = Seq::new(n, |i: int| c) + text;
    if n == 0 {
        assert(marked =~= text);
    } else {
        let shorter = Seq::new((n - 1) as nat, |i: int| c) + text;
        assert(marked[0] == c);
        assert(marked.skip(1) =~= shorter);
        law_leading_marks_are_taken_off(text, c, (n - 1) as nat);
    }
}

/// A line ends at a line feed, or at a carriage return and a line feed; neither is
/// part of it, and what stands behind is read as if it stood alone. A last line
/// without an end is a line too.
pub proof fn law_lines_end_at_line_feeds(line: Seq<char>, rest: Seq<char>)
    requires
        !line.contains('\n'),
    ensures
        lines_of(Seq::<char>::empty()).len() == 0,
        line.len() > 0 ==> lines_of(line) == seq![line],
        line.len() == 0 || line.last() != '\r' ==> lines_of(line + seq!['\n'] + rest) == seq![line]
            + lines_of(rest),
        lines_of(line + seq!['\r', '\n'] + rest) == seq![line] + lines_of(rest),
{
    assert forall|i: int| 0 <= i < line.len() implies line[i] != '\n' by {
        assert(line.contains(line[i]));
    }
    let n = line.len() as int;
    lemma_len_before_is(line, '\n', n);
    let plain = line + seq!['\n'] + rest;
    assert(plain[n] == '\n');
    lemma_len_before_is(plain, '\n', n);
    assert(plain.take(n) =~= line);
    assert(plain.skip(n + 1) =~= rest);
    let returned = line + seq!['\r', '\n'] + rest;
    let longer = line.push('\r');
    assert forall|i: int| 0 <= i < n + 1 implies returned[i] != '\n' by {
        if i < n {
            assert(returned[i] == line[i]);
        }
    }
    assert(returned[n + 1] == '\n');
    lemma_len_before_is(returned, '\n', n + 1);
    assert(returned.take(n + 1) =~= longer);
    assert(longer.drop_last() =~= line);
    assert(returned.skip(n + 2) =~= rest);
}

/// A piece occurs in a text just if the text is the piece with something, or nothing,
/// in front of it and behind it.
pub proof fn law_piece_occurs_between_two_others(piece: Seq<char>, text: Seq<char>)
    ensures
        occurs_in(piece, text) <==> exists|before: Seq<char>, after: Seq<char>|
            text == #[trigger] (before + piece + after),
{
    if occurs_in(piece, text) {
        let i = choose|i: int| occurs_at(piece, text, i);
        let before = text.take(i);
        let after = text.skip(i + piece.len());
        assert(text =~= before + text.subrange(i, i + piece.len()) + after);
        assert(text == before + piece + after);
    }
    if exists|before: Seq<char>, after: Seq<char>| text == #[trigger] (before + piece + after) {
        let (before, after) = choose|before: Seq<char>, after: Seq<char>|
            text == #[trigger] (before + piece + after);
        let i = before.len() as int;
        assert(text.subrange(i, i + piece.len()) =~= piece);
        assert(occurs_at(piece, text, i));
    }
}

/// Each capital letter becomes its small one, and every other character stays.
pub proof fn law_letters_become_small(text: Seq<char>, i: int)
    requires
        0 <= i < text.len(),
    ensures
        small_letters(text).len() == text.len(),
        forall|d: int|
            0 <= d < 26 && text[i] == #[trigger] "ABCDEFGHIJKLMNOPQRSTUVWXYZ"@[d]
                ==> small_letters(text)[i] == "abcdefghijklmnopqrstuvwxyz"@[d],
        !"ABCDEFGHIJKLMNOPQRSTUVWXYZ"@.contains(text[i]) ==> small_letters(text)[i] == text[i],
{
    reveal_strlit("ABCDEFGHIJKLMNOPQRSTUVWXYZ");
    reveal_strlit("abcdefghijklmnopqrstuvwxyz");
    let c = text[i];
    let capitals = "ABCDEFGHIJKLMNOPQRSTUVWXYZ"@;
    let small = "abcdefghijklmnopqrstuvwxyz"@;
    assert(capitals.len() == 26);
    assert forall|d: int| 0 <= d < 26 implies #[trigger] capitals[d] as int == 65 + d && small[d]
        as int == 97 + d by {}
    assert(small_letters(text)[i] == small_letter(c));
    if 'A' <= c <= 'Z' {
        let d = c as int - 65;
        assert(capitals[d] as int == c as int);
        assert(capitals[d] == c);
        assert((c as int + 32) as char == small[d]);
    }
}

/// A line of at most 120 characters is kept; of a longer one the first 117 are, and
/// three dots stand behind them.
pub proof fn law_failure_line_is_shortened(line: Seq<char>)
    ensures
        line.len() <= 120 ==> shortened(line, 120) == line,
        line.len() > 120 ==> shortened(line, 120) == line.take(117) + "..."@,
{
}

/// Shortening keeps what fits, and else the beginning with three dots behind it, which
/// stand alone where there is no room for more.
pub proof fn law_shortened_text_is_written_out(text: Seq<char>, max: nat)
    ensures
        text.len() <= max ==> shortened(text, max) == text,
        text.len() > max >= 3 ==> shortened(text, max) == text.take(max - 3) + "..."@,
        text.len() > max && max < 3 ==> shortened(text, max) == "..."@,
{
}

/// A list of strings stands for their texts, one by one, and an optional string for
/// its text.
pub proof fn law_strings_stand_for_their_texts(list: Seq<String>, i: int)
    requires
        0 <= i < list.len(),
    ensures
        texts(list).len() == list.len(),
        texts(list)[i] == list[i]@,
        optional_text(Some(list[i])) == Some(list[i]@),
        optional_text(None) is None,
{
}

} // verus!
