//! Laws of text: trimming, lines, counts, shortening and escape sequences.

use crate::ansi::{escape_len, is_parameter, parameters_len, without_escapes};
use crate::noise::limited;
use crate::text::{
    all_digits, count_of, decimal, digits_value, is_digit, is_white_space, joined, len_before,
    lines_of, occurs_at, occurs_in, shortened, trim_end_of, trim_of, trim_start_of, without_return,
};
use vstd::prelude::*;

verus! {

/// Whether `text` has no white space at its two ends.
pub open spec fn is_trimmed(text: Seq<char>) -> bool {
    text.len() == 0 || (!is_white_space(text[0]) && !is_white_space(text.last()))
}

proof fn lemma_trim_start(text: Seq<char>)
    ensures
        trim_start_of(text).is_suffix_of(text),
        trim_start_of(text).len() > 0 ==> !is_white_space(trim_start_of(text)[0]),
        text.len() > 0 && !is_white_space(text[0]) ==> trim_start_of(text) == text,
    decreases text.len(),
{
    if text.len() > 0 && is_white_space(text[0]) {
        lemma_trim_start(text.skip(1));
        let rest = trim_start_of(text);
        let n = rest.len() as int;
        assert(text.skip(1).subrange(text.skip(1).len() - n, text.skip(1).len() as int)
            == text.subrange(text.len() - n, text.len() as int));
    } else {
        assert(text.subrange(0, text.len() as int) == text);
    }
}

proof fn lemma_trim_end(text: Seq<char>)
    ensures
        trim_end_of(text).is_prefix_of(text),
        trim_end_of(text).len() > 0 ==> !is_white_space(trim_end_of(text).last()),
        text.len() > 0 && !is_white_space(text.last()) ==> trim_end_of(text) == text,
    decreases text.len(),
{
    if text.len() > 0 && is_white_space(text.last()) {
        lemma_trim_end(text.drop_last());
        let rest = trim_end_of(text);
        let n = rest.len() as int;
        assert(text.drop_last().subrange(0, n) == text.subrange(0, n));
    } else {
        assert(text.subrange(0, text.len() as int) == text);
    }
}

/// Trimmed text has no white space at its ends.
pub proof fn law_trim_leaves_no_space(text: Seq<char>)
    ensures
        is_trimmed(trim_of(text)),
{
    lemma_trim_start(text);
    let start = trim_start_of(text);
    lemma_trim_end(start);
    let end = trim_end_of(start);
    if end.len() > 0 {
        assert(end[0] == start.subrange(0, end.len() as int)[0]);
        assert(end[0] == start[0]);
    }
}

/// Text without white space at its ends stays as it is.
pub proof fn law_trimmed_text_stays(text: Seq<char>)
    requires
        is_trimmed(text),
    ensures
        trim_of(text) == text,
{
    lemma_trim_start(text);
    lemma_trim_end(text);
}

/// Trimming twice is trimming once.
pub proof fn law_trim_is_idempotent(text: Seq<char>)
    ensures
        trim_of(trim_of(text)) == trim_of(text),
{
    law_trim_leaves_no_space(text);
    law_trimmed_text_stays(trim_of(text));
}

/// Trimming does not reach into a text between two characters that are no white
/// space.
pub proof fn law_trim_keeps_solid_head(head: Seq<char>, tail: Seq<char>)
    requires
        head.len() > 0,
        is_trimmed(head),
    ensures
        head.is_prefix_of(trim_of(head + tail)),
    decreases tail.len(),
{
    let text = head + tail;
    lemma_trim_start(text);
    assert(text[0] == head[0]);
    if tail.len() == 0 {
        assert(text == head);
        lemma_trim_end(head);
        assert(head.subrange(0, head.len() as int) == head);
    } else if is_white_space(tail.last()) {
        assert(text.drop_last() == head + tail.drop_last());
        law_trim_keeps_solid_head(head, tail.drop_last());
        lemma_trim_start(text.drop_last());
        assert(text.drop_last()[0] == head[0]);
        assert(trim_of(text) == trim_of(text.drop_last()));
    } else {
        lemma_trim_end(text);
        assert(text.subrange(0, head.len() as int) == head);
    }
}

/// Whether `text` is white space and nothing else.
pub open spec fn is_blank(text: Seq<char>) -> bool {
    forall|i: int| 0 <= i < text.len() ==> is_white_space(#[trigger] text[i])
}

proof fn lemma_trim_end_blank(text: Seq<char>, after: Seq<char>)
    requires
        is_blank(after),
    ensures
        trim_end_of(text + after) == trim_end_of(text),
    decreases after.len(),
{
    if after.len() == 0 {
        assert(text + after == text);
    } else {
        assert(is_white_space(after[after.len() - 1]));
        assert((text + after).drop_last() == text + after.drop_last());
        assert forall|i: int| 0 <= i < after.drop_last().len() implies is_white_space(
            #[trigger] after.drop_last()[i],
        ) by {
            assert(after.drop_last()[i] == after[i]);
        }
        lemma_trim_end_blank(text, after.drop_last());
    }
}

proof fn lemma_trim_start_blank(before: Seq<char>, text: Seq<char>)
    requires
        is_blank(before),
    ensures
        trim_start_of(before + text) == trim_start_of(text),
    decreases before.len(),
{
    if before.len() == 0 {
        assert(before + text == text);
    } else {
        assert(is_white_space(before[0]));
        assert((before + text).skip(1) == before.skip(1) + text);
        assert forall|i: int| 0 <= i < before.skip(1).len() implies is_white_space(
            #[trigger] before.skip(1)[i],
        ) by {
            assert(before.skip(1)[i] == before[i + 1]);
        }
        lemma_trim_start_blank(before.skip(1), text);
    }
}

proof fn lemma_trim_blank_end(text: Seq<char>, after: Seq<char>)
    requires
        is_blank(after),
    ensures
        trim_end_of(trim_start_of(text + after)) == trim_end_of(trim_start_of(text)),
    decreases text.len(),
{
    if text.len() == 0 {
        assert(text + after == after);
        lemma_trim_start_blank(after, Seq::<char>::empty());
        assert(after + Seq::<char>::empty() == after);
    } else if is_white_space(text[0]) {
        assert((text + after).skip(1) == text.skip(1) + after);
        lemma_trim_blank_end(text.skip(1), after);
    } else {
        assert((text + after)[0] == text[0]);
        lemma_trim_end_blank(text, after);
    }
}

/// White space round a text does not change what is left of it when trimmed.
pub proof fn law_blank_ends_are_trimmed(before: Seq<char>, text: Seq<char>, after: Seq<char>)
    requires
        is_blank(before),
        is_blank(after),
    ensures
        trim_of(before + text + after) == trim_of(text),
{
    assert(before + text + after == before + (text + after));
    lemma_trim_start_blank(before, text + after);
    lemma_trim_blank_end(text, after);
}

/// A carriage return at the end of a line is trimmed.
proof fn lemma_return_is_trimmed(line: Seq<char>)
    ensures
        trim_of(without_return(line)) == trim_of(line),
{
    if line.len() > 0 && line.last() == '\r' {
        let shorter = line.drop_last();
        let empty = Seq::<char>::empty();
        assert(empty + shorter + seq!['\r'] == line);
        law_blank_ends_are_trimmed(empty, shorter, seq!['\r']);
    }
}

/// Text on further lines leaves the lines before it, trimmed, as they were.
pub proof fn law_lines_before_stay(text: Seq<char>, after: Seq<char>, i: int)
    requires
        0 <= i < lines_of(text).len(),
    ensures
        i < lines_of(text + seq!['\n'] + after).len(),
        trim_of(lines_of(text + seq!['\n'] + after)[i]) == trim_of(lines_of(text)[i]),
    decreases text.len(),
{
    let n = len_before(text, '\n') as int;
    let longer = text + seq!['\n'] + after;
    lemma_len_before(text, '\n');
    lemma_len_before_is(longer, '\n', n);
    assert(longer.take(n) == text.take(n));
    if n < text.len() {
        let rest = text.skip(n + 1);
        assert(longer.skip(n + 1) == rest + seq!['\n'] + after);
        if i > 0 {
            law_lines_before_stay(rest, after, i - 1);
        }
    } else {
        assert(text.take(n) == text);
        lemma_return_is_trimmed(text);
    }
}

/// Text on earlier lines leaves the lines behind it as they were.
pub proof fn law_lines_behind_stay(before: Seq<char>, text: Seq<char>)
    ensures
        lines_of(text).is_suffix_of(lines_of(before + seq!['\n'] + text)),
    decreases before.len(),
{
    let n = len_before(before, '\n') as int;
    let longer = before + seq!['\n'] + text;
    let all = lines_of(longer);
    let own = lines_of(text);
    lemma_len_before(before, '\n');
    lemma_len_before_is(longer, '\n', n);
    if n < before.len() {
        let rest = before.skip(n + 1);
        assert(longer.skip(n + 1) == rest + seq!['\n'] + text);
        law_lines_behind_stay(rest, text);
        let fewer = lines_of(rest + seq!['\n'] + text);
        assert(all.subrange(all.len() - own.len(), all.len() as int) == fewer.subrange(
            fewer.len() - own.len(),
            fewer.len() as int,
        ));
    } else {
        assert(longer.skip(n + 1) == text);
        assert(all.subrange(all.len() - own.len(), all.len() as int) == own);
    }
}

/// No line has a line feed in it.
pub proof fn law_lines_have_no_line_feed(text: Seq<char>, i: int)
    requires
        0 <= i < lines_of(text).len(),
    ensures
        !lines_of(text)[i].contains('\n'),
    decreases text.len(),
{
    let n = len_before(text, '\n') as int;
    lemma_len_before(text, '\n');
    if n < text.len() {
        if i > 0 {
            law_lines_have_no_line_feed(text.skip(n + 1), i - 1);
        } else {
            assert(lines_of(text)[0] == without_return(text.take(n)));
        }
    }
}

/// What `len_before` says of a text.
pub(crate) proof fn lemma_len_before(text: Seq<char>, c: char)
    ensures
        len_before(text, c) <= text.len(),
        forall|i: int| 0 <= i < len_before(text, c) ==> text[i] != c,
        len_before(text, c) < text.len() ==> text[len_before(text, c) as int] == c,
    decreases text.len(),
{
    if text.len() > 0 && text[0] != c {
        lemma_len_before(text.skip(1), c);
        assert forall|i: int| 0 <= i < len_before(text, c) implies text[i] != c by {
            if i > 0 {
                assert(text[i] == text.skip(1)[i - 1]);
            }
        }
    }
}

/// The first line feed behind text that has none.
pub(crate) proof fn lemma_len_before_is(text: Seq<char>, c: char, n: int)
    requires
        0 <= n <= text.len(),
        forall|i: int| 0 <= i < n ==> text[i] != c,
        n == text.len() || text[n] == c,
    ensures
        len_before(text, c) == n,
    decreases n,
{
    if n > 0 {
        assert forall|i: int| 0 <= i < n - 1 implies text.skip(1)[i] != c by {
            assert(text.skip(1)[i] == text[i + 1]);
        }
        lemma_len_before_is(text.skip(1), c, n - 1);
    }
}

/// Whether `line` can stand alone on a line: it is not empty, and has neither a
/// line feed in it nor a carriage return at its end.
pub open spec fn is_whole_line(line: Seq<char>) -> bool {
    &&& line.len() > 0
    &&& !line.contains('\n')
    &&& line.last() != '\r'
}

pub(crate) proof fn lemma_joined_one(list: Seq<Seq<char>>, sep: Seq<char>)
    requires
        list.len() == 1,
    ensures
        joined(list, sep) == list[0],
{
    reveal_with_fuel(joined, 2);
    assert(list.drop_last().len() == 0);
    assert(joined(list, sep) =~= list[0]);
}

proof fn lemma_joined_front(list: Seq<Seq<char>>, sep: Seq<char>)
    requires
        list.len() > 1,
    ensures
        joined(list, sep) == list[0] + sep + joined(list.skip(1), sep),
    decreases list.len(),
{
    let rest = list.skip(1);
    let shorter = list.drop_last();
    assert(rest.last() == list.last());
    if list.len() == 2 {
        lemma_joined_one(shorter, sep);
        lemma_joined_one(rest, sep);
        assert(joined(list, sep) == list[0] + sep + list[1]);
    } else {
        lemma_joined_front(shorter, sep);
        assert(shorter.skip(1) == rest.drop_last());
        assert(joined(list, sep) == list[0] + sep + joined(rest, sep));
    }
}

/// Each part stands in the parts joined, the first at the beginning.
pub proof fn law_joined_text_holds_its_parts(list: Seq<Seq<char>>, sep: Seq<char>, i: int)
    requires
        0 <= i < list.len(),
    ensures
        occurs_in(list[i], joined(list, sep)),
        list[0].is_prefix_of(joined(list, sep)),
    decreases list.len(),
{
    let text = joined(list, sep);
    if list.len() == 1 {
        lemma_joined_one(list, sep);
        assert(text.subrange(0, text.len() as int) == text);
        assert(occurs_at(list[0], text, 0));
    } else {
        let shorter = list.drop_last();
        let last = list.last();
        let front = joined(shorter, sep);
        let at = (front.len() + sep.len()) as int;
        let k = if i < shorter.len() {
            i
        } else {
            0
        };
        law_joined_text_holds_its_parts(shorter, sep, k);
        assert(text == front + sep + last);
        assert(text.subrange(at, at + last.len()) == last);
        assert(occurs_at(last, text, at));
        let n = list[0].len() as int;
        assert(text.subrange(0, n) == front.subrange(0, n));
        if i < shorter.len() {
            let j = choose|j: int| occurs_at(list[i], front, j);
            assert(text.subrange(j, j + list[i].len()) == front.subrange(j, j + list[i].len()));
            assert(occurs_at(list[i], text, j));
        }
    }
}

/// A piece of a piece is a piece.
pub proof fn law_piece_of_a_piece_is_a_piece(inner: Seq<char>, outer: Seq<char>, text: Seq<char>)
    requires
        occurs_in(inner, outer),
        occurs_in(outer, text),
    ensures
        occurs_in(inner, text),
{
    let i = choose|i: int| occurs_at(inner, outer, i);
    let j = choose|j: int| occurs_at(outer, text, j);
    assert(text.subrange(j + i, j + i + inner.len()) == outer.subrange(i, i + inner.len())) by {
        assert(outer == text.subrange(j, j + outer.len()));
    }
    assert(occurs_at(inner, text, i + j));
}

/// Lines that were joined by line feeds are read back as they were.
pub proof fn law_joined_lines_are_read_back(list: Seq<Seq<char>>)
    requires
        forall|i: int| 0 <= i < list.len() ==> is_whole_line(#[trigger] list[i]),
    ensures
        lines_of(joined(list, "\n"@)) == list,
    decreases list.len(),
{
    reveal_strlit("\n");
    let text = joined(list, "\n"@);
    if list.len() == 0 {
        assert(lines_of(text) == list);
    } else if list.len() == 1 {
        lemma_joined_one(list, "\n"@);
        assert(is_whole_line(list[0]));
        assert forall|i: int| 0 <= i < text.len() implies text[i] != '\n' by {
            assert(list[0].contains(list[0][i]));
        }
        lemma_len_before_is(text, '\n', text.len() as int);
        assert(lines_of(text) == list);
    } else {
        let first = list[0];
        let rest = list.skip(1);
        lemma_joined_front(list, "\n"@);
        assert(is_whole_line(first));
        let n = first.len() as int;
        assert forall|i: int| 0 <= i < n implies text[i] != '\n' by {
            assert(text[i] == first[i]);
            assert(first.contains(first[i]));
        }
        assert(text[n] == '\n');
        lemma_len_before_is(text, '\n', n);
        assert(text.take(n) == first);
        assert(text.skip(n + 1) == joined(rest, "\n"@));
        assert forall|i: int| 0 <= i < rest.len() implies is_whole_line(#[trigger] rest[i]) by {
            assert(rest[i] == list[i + 1]);
        }
        law_joined_lines_are_read_back(rest);
        assert(lines_of(text) == list);
    }
}

pub(crate) proof fn lemma_decimal(n: nat)
    ensures
        decimal(n).len() > 0,
        all_digits(decimal(n)),
        digits_value(decimal(n)) == n,
    decreases n,
{
    if n < 10 {
        let one = decimal(n);
        assert(one.drop_last() == Seq::<char>::empty());
        assert(digits_value(one.drop_last()) == 0);
    } else {
        lemma_decimal(n / 10);
        let shorter = decimal(n / 10);
        assert(decimal(n).drop_last() == shorter);
        assert forall|i: int| 0 <= i < decimal(n).len() implies is_digit(
            #[trigger] decimal(n)[i],
        ) by {
            if i < shorter.len() {
                assert(decimal(n)[i] == shorter[i]);
            }
        }
    }
}

/// A count that was written in decimal is read back as it was.
pub proof fn law_written_count_is_read_back(n: usize)
    ensures
        count_of(decimal(n as nat)) == Some(n),
{
    lemma_decimal(n as nat);
    assert(is_digit(decimal(n as nat)[0]));
}

/// Different numbers are written differently.
pub proof fn law_decimal_is_injective(a: nat, b: nat)
    requires
        decimal(a) == decimal(b),
    ensures
        a == b,
{
    lemma_decimal(a);
    lemma_decimal(b);
}

/// Shortened text fits, text that fits is kept, and of longer text the beginning
/// is.
pub proof fn law_shortened_text_fits(text: Seq<char>, max: nat)
    requires
        max >= 3,
    ensures
        shortened(text, max).len() <= max,
        text.len() <= max ==> shortened(text, max) == text,
        text.len() > max ==> shortened(text, max).len() == max && text.take(max - 3).is_prefix_of(
            shortened(text, max),
        ) && "..."@.is_suffix_of(shortened(text, max)),
{
    reveal_strlit("...");
    if text.len() > max {
        let short = shortened(text, max);
        assert(short.subrange(0, max - 3) == text.take(max - 3));
        assert(short.subrange(max - 3, max as int) == "..."@);
    }
}

/// An output within the limit is kept; of a longer one the beginning is, and
/// the cut is marked.
pub proof fn law_cut_output_is_marked(text: Seq<char>, max: nat)
    ensures
        text.len() <= max ==> limited(text, max) == text,
        text.len() > max ==> text.take(max as int).is_prefix_of(limited(text, max)) && occurs_in(
            "[RTK:PASSTHROUGH]"@,
            limited(text, max),
        ),
{
    if text.len() > max {
        let cut = limited(text, max);
        let head = text.take(max as int);
        assert(cut.subrange(0, max as int) == head);
        reveal_strlit("[RTK:PASSTHROUGH]");
        reveal_strlit("\n\n[RTK:PASSTHROUGH] Output truncated (");
        let note = "\n\n[RTK:PASSTHROUGH] Output truncated ("@;
        let mark = "[RTK:PASSTHROUGH]"@;
        let at = max as int;
        let len = mark.len() as int;
        assert(note.subrange(2, 2 + len) == mark);
        assert(cut.subrange(at, at + note.len()) == note);
        assert forall|i: int| 0 <= i < len implies #[trigger] cut.subrange(
            at + 2,
            at + 2 + len,
        )[i] == mark[i] by {
            assert(cut.subrange(at, at + note.len())[i + 2] == note[i + 2]);
            assert(note.subrange(2, 2 + len)[i] == note[i + 2]);
        }
        assert(cut.subrange(at + 2, at + 2 + len) == mark);
        assert(occurs_at(mark, cut, at + 2));
    }
}

/// Of a longer output the first characters are kept, and behind them stands how many there
/// were and how many are left.
pub proof fn law_cut_output_is_written_out(text: Seq<char>, max: nat)
    ensures
        text.len() <= max ==> limited(text, max) == text,
        text.len() > max ==> limited(text, max) == text.take(max as int)
            + "\n\n[RTK:PASSTHROUGH] Output truncated ("@ + decimal(text.len())
            + " chars \u{2192} "@ + decimal(max) + " chars)"@,
{
}

/// Text without the escape character stays as it is.
pub proof fn law_plain_text_is_kept(text: Seq<char>)
    requires
        !text.contains('\u{1b}'),
    ensures
        without_escapes(text) == text,
    decreases text.len(),
{
    if text.len() > 0 {
        assert(text.contains(text[0]));
        let rest = text.skip(1);
        assert forall|i: int| 0 <= i < rest.len() implies rest[i] != '\u{1b}' by {
            assert(text.contains(text[i + 1]));
        }
        law_plain_text_is_kept(rest);
        assert(seq![text[0]] + rest == text);
    }
}

/// An escape sequence behind plain text disappears.
pub proof fn law_escape_sequence_disappears(plain: Seq<char>, escape: Seq<char>, rest: Seq<char>)
    requires
        !plain.contains('\u{1b}'),
        escape.len() > 0,
        escape_len(escape) == escape.len(),
    ensures
        without_escapes(plain + escape + rest) == plain + without_escapes(rest),
    decreases plain.len(),
{
    let text = plain + escape + rest;
    if plain.len() == 0 {
        assert(text == escape + rest);
        lemma_parameters_then(escape.skip(2), rest);
        assert(text.skip(2) == escape.skip(2) + rest);
        assert(escape_len(text) == escape.len());
        assert(text.skip(escape.len() as int) == rest);
        assert(plain + without_escapes(rest) == without_escapes(rest));
    } else {
        assert(plain.contains(plain[0]));
        assert(text[0] == plain[0]);
        let shorter = plain.skip(1);
        assert forall|i: int| 0 <= i < shorter.len() implies shorter[i] != '\u{1b}' by {
            assert(plain.contains(plain[i + 1]));
        }
        assert(text.skip(1) == shorter + escape + rest);
        law_escape_sequence_disappears(shorter, escape, rest);
        assert(seq![plain[0]] + (shorter + without_escapes(rest)) == plain + without_escapes(rest));
    }
}

/// Parameters end where they end, whatever follows.
proof fn lemma_parameters_then(text: Seq<char>, rest: Seq<char>)
    requires
        parameters_len(text) < text.len(),
    ensures
        parameters_len(text + rest) == parameters_len(text),
    decreases text.len(),
{
    assert((text + rest)[0] == text[0]);
    if is_parameter(text[0]) {
        assert((text + rest).skip(1) == text.skip(1) + rest);
        lemma_parameters_then(text.skip(1), rest);
    }
}

} // verus!
