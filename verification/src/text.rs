//! Text as a sequence of characters: trimming, lines, searching, joining and
//! decimal numbers.

use vstd::prelude::*;

verus! {

/// `String::push` of the standard library: appends `c` to the end of `text`
/// and leaves what was there as it is.
pub assume_specification[ String::push ](text: &mut String, c: char)
    ensures
        final(text)@ == old(text)@.push(c),
;

/// The texts that the strings of a list hold.
pub open spec fn texts(list: Seq<String>) -> Seq<Seq<char>> {
    list.map_values(|s: String| s@)
}

/// The text in an optional string.
pub open spec fn optional_text(text: Option<String>) -> Option<Seq<char>> {
    match text {
        Some(t) => Some(t@),
        None => None,
    }
}

/// Whether `c` has the Unicode property `White_Space`.
pub open spec fn is_white_space(c: char) -> bool {
    ||| '\u{9}' <= c <= '\u{d}'
    ||| c == ' '
    ||| c == '\u{85}'
    ||| c == '\u{a0}'
    ||| c == '\u{1680}'
    ||| '\u{2000}' <= c <= '\u{200a}'
    ||| c == '\u{2028}'
    ||| c == '\u{2029}'
    ||| c == '\u{202f}'
    ||| c == '\u{205f}'
    ||| c == '\u{3000}'
}

/// `text` from its first character that is not white space.
pub open spec fn trim_start_of(text: Seq<char>) -> Seq<char>
    decreases text.len(),
{
    if text.len() > 0 && is_white_space(text[0]) {
        trim_start_of(text.skip(1))
    } else {
        text
    }
}

/// `text` up to its last character that is not white space.
pub open spec fn trim_end_of(text: Seq<char>) -> Seq<char>
    decreases text.len(),
{
    if text.len() > 0 && is_white_space(text.last()) {
        trim_end_of(text.drop_last())
    } else {
        text
    }
}

/// `text` without the white space at its two ends.
pub open spec fn trim_of(text: Seq<char>) -> Seq<char> {
    trim_end_of(trim_start_of(text))
}

/// `text` without the characters `c` that it begins with.
pub open spec fn without_leading(text: Seq<char>, c: char) -> Seq<char>
    decreases text.len(),
{
    if text.len() > 0 && text[0] == c {
        without_leading(text.skip(1), c)
    } else {
        text
    }
}

/// How many characters stand before the first `c` of `text`: all of them, if
/// there is no `c`.
pub open spec fn len_before(text: Seq<char>, c: char) -> nat
    decreases text.len(),
{
    if text.len() == 0 || text[0] == c {
        0
    } else {
        1 + len_before(text.skip(1), c)
    }
}

/// `line` without the carriage return at its end, if it has one.
pub open spec fn without_return(line: Seq<char>) -> Seq<char> {
    if line.len() > 0 && line.last() == '\r' {
        line.drop_last()
    } else {
        line
    }
}

/// The lines of `text`. A line ends in a line feed, or in a carriage return and
/// a line feed, neither of which belongs to it; the last line may have no end.
pub open spec fn lines_of(text: Seq<char>) -> Seq<Seq<char>>
    decreases text.len(),
{
    let n = len_before(text, '\n') as int;
    if text.len() == 0 {
        seq![]
    } else if n >= text.len() {
        seq![text]
    } else {
        seq![without_return(text.take(n))] + lines_of(text.skip(n + 1))
    }
}

/// Whether `piece` occurs somewhere in `text`.
pub open spec fn occurs_in(piece: Seq<char>, text: Seq<char>) -> bool {
    exists|i: int| #[trigger] occurs_at(piece, text, i)
}

/// Whether `piece` stands in `text` at position `i`.
pub open spec fn occurs_at(piece: Seq<char>, text: Seq<char>, i: int) -> bool {
    &&& 0 <= i
    &&& i + piece.len() <= text.len()
    &&& text.subrange(i, i + piece.len()) == piece
}

/// `c`, or its small letter if it is one of the letters A to Z.
pub open spec fn small_letter(c: char) -> char {
    if 'A' <= c <= 'Z' {
        (c as int + 32) as char
    } else {
        c
    }
}

/// `text` with the letters A to Z made small.
pub open spec fn small_letters(text: Seq<char>) -> Seq<char> {
    text.map_values(|c: char| small_letter(c))
}

/// The parts one behind the other, with `sep` between each two of them.
pub open spec fn joined(parts: Seq<Seq<char>>, sep: Seq<char>) -> Seq<char>
    decreases parts.len(),
{
    if parts.len() == 0 {
        seq![]
    } else {
        joined(parts.drop_last(), sep) + (if parts.len() == 1 {
            seq![]
        } else {
            sep
        }) + parts.last()
    }
}

/// The decimal digit for `d`, which is below ten.
pub open spec fn digit_char(d: nat) -> char {
    (48 + d) as char
}

/// `n` in decimal digits, without leading zeros.
pub open spec fn decimal(n: nat) -> Seq<char>
    decreases n,
{
    if n < 10 {
        seq![digit_char(n)]
    } else {
        decimal(n / 10).push(digit_char(n % 10))
    }
}

/// Whether `c` is one of the digits 0 to 9.
pub open spec fn is_digit(c: char) -> bool {
    '0' <= c <= '9'
}

/// Whether `text` holds digits and nothing else.
pub open spec fn all_digits(text: Seq<char>) -> bool {
    forall|i: int| 0 <= i < text.len() ==> is_digit(#[trigger] text[i])
}

/// The number that the digits of `text` write.
pub open spec fn digits_value(text: Seq<char>) -> nat
    decreases text.len(),
{
    if text.len() == 0 {
        0
    } else {
        digits_value(text.drop_last()) * 10 + (text.last() as int - 48) as nat
    }
}

/// The number that `text` writes, if it is an optional plus sign and then one
/// or more digits, and the number fits in a `usize`.
pub open spec fn count_of(text: Seq<char>) -> Option<usize> {
    let digits = if text.len() > 0 && text[0] == '+' {
        text.skip(1)
    } else {
        text
    };
    if digits.len() > 0 && all_digits(digits) && digits_value(digits) <= usize::MAX {
        Some(digits_value(digits) as usize)
    } else {
        None
    }
}

/// `text`, or where it has more than `max` characters its first `max - 3`
/// and three dots. With `max` below three the dots stand alone.
pub open spec fn shortened(text: Seq<char>, max: nat) -> Seq<char> {
    if text.len() <= max {
        text
    } else if max < 3 {
        "..."@
    } else {
        text.take(max - 3) + "..."@
    }
}

/// Tells whether `c` is white space.
pub fn is_space(c: char) -> (space: bool)
    ensures
        space == is_white_space(c),
{
    (c >= '\u{9}' && c <= '\u{d}') || c == ' ' || c == '\u{85}' || c == '\u{a0}' || c == '\u{1680}'
        || (c >= '\u{2000}' && c <= '\u{200a}') || c == '\u{2028}' || c == '\u{2029}' || c
        == '\u{202f}' || c == '\u{205f}' || c == '\u{3000}'
}

/// The characters of `text`, in order.
pub fn to_chars(text: &str) -> (chars: Vec<char>)
    ensures
        chars@ == text@,
{
    let mut chars: Vec<char> = Vec::new();
    for c in it: text.chars()
        invariant
            it.seq() == text@,
            chars@ == text@.take(it.index()),
    {
        chars.push(c);
    }
    chars
}

/// The text that `chars` holds from position `from` up to, not with, `to`.
pub fn piece(chars: &Vec<char>, from: usize, to: usize) -> (text: String)
    requires
        from <= to <= chars@.len(),
    ensures
        text@ == chars@.subrange(from as int, to as int),
{
    let mut text = String::new();
    let mut i: usize = from;
    while i < to
        invariant
            from <= i <= to <= chars@.len(),
            text@ == chars@.subrange(from as int, i as int),
        decreases to - i,
    {
        text.push(chars[i]);
        i = i + 1;
    }
    text
}

/// The characters of `text` without the white space at its two ends.
pub fn trimmed_chars(text: &str) -> (chars: Vec<char>)
    ensures
        chars@ == trim_of(text@),
{
    let all = to_chars(text);
    let mut from: usize = 0;
    assert(all@.skip(0) == all@);
    while from < all.len() && is_space(all[from])
        invariant
            from <= all@.len(),
            trim_start_of(all@.skip(from as int)) == trim_start_of(all@),
        decreases all@.len() - from,
    {
        assert(all@.skip(from as int).skip(1) == all@.skip(from + 1));
        from = from + 1;
    }
    let mut to: usize = all.len();
    assert(all@.subrange(from as int, to as int) == all@.skip(from as int));
    while from < to && is_space(all[to - 1])
        invariant
            from <= to <= all@.len(),
            trim_end_of(all@.subrange(from as int, to as int)) == trim_of(all@),
        decreases to - from,
    {
        assert(all@.subrange(from as int, to as int).drop_last() == all@.subrange(
            from as int,
            to - 1,
        ));
        to = to - 1;
    }
    let mut chars: Vec<char> = Vec::new();
    let mut i: usize = from;
    while i < to
        invariant
            from <= i <= to <= all@.len(),
            chars@ == all@.subrange(from as int, i as int),
        decreases to - i,
    {
        chars.push(all[i]);
        i = i + 1;
    }
    chars
}

/// `text` without the white space at its two ends.
pub fn trim(text: &str) -> (trimmed: String)
    ensures
        trimmed@ == trim_of(text@),
{
    let chars = trimmed_chars(text);
    assert(chars@.subrange(0, chars@.len() as int) == chars@);
    piece(&chars, 0, chars.len())
}

/// `text` without the characters `c` that it begins with, then without the
/// white space at its two ends.
pub fn trim_after(text: &str, c: char) -> (trimmed: String)
    ensures
        trimmed@ == trim_of(without_leading(text@, c)),
{
    let chars = to_chars(text);
    let mut from: usize = 0;
    assert(chars@.skip(0) == chars@);
    while from < chars.len() && chars[from] == c
        invariant
            from <= chars@.len(),
            without_leading(chars@.skip(from as int), c) == without_leading(chars@, c),
        decreases chars@.len() - from,
    {
        assert(chars@.skip(from as int).skip(1) == chars@.skip(from + 1));
        from = from + 1;
    }
    let rest = piece(&chars, from, chars.len());
    assert(rest@ == chars@.skip(from as int));
    trim(rest.as_str())
}

/// The lines of `text`, without their ends.
pub fn lines(text: &str) -> (list: Vec<String>)
    ensures
        texts(list@) == lines_of(text@),
{
    let chars = to_chars(text);
    let mut list: Vec<String> = Vec::new();
    let mut i: usize = 0;
    assert(chars@.skip(0) == chars@);
    assert(texts(list@) == Seq::<Seq<char>>::empty());
    while i < chars.len()
        invariant
            i <= chars@.len(),
            texts(list@) + lines_of(chars@.skip(i as int)) == lines_of(chars@),
        decreases chars@.len() - i,
    {
        let mut j: usize = i;
        let ghost rest = chars@.skip(i as int);
        while j < chars.len() && chars[j] != '\n'
            invariant
                i <= j <= chars@.len(),
                rest == chars@.skip(i as int),
                len_before(rest, '\n') == (j - i) + len_before(chars@.skip(j as int), '\n'),
            decreases chars@.len() - j,
        {
            assert(chars@.skip(j as int).skip(1) == chars@.skip(j + 1));
            j = j + 1;
        }
        let ghost before = list@;
        assert(len_before(chars@.skip(j as int), '\n') == 0);
        assert(rest.take(j - i) == chars@.subrange(i as int, j as int));
        if j < chars.len() {
            let to: usize = if j > i && chars[j - 1] == '\r' {
                j - 1
            } else {
                j
            };
            let line = piece(&chars, i, to);
            assert(line@ == without_return(rest.take(j - i)));
            list.push(line);
            assert(texts(list@) == texts(before).push(line@));
            assert(rest.skip(j - i + 1) == chars@.skip(j + 1));
            assert(texts(list@) + lines_of(chars@.skip(j + 1)) == texts(before) + lines_of(rest));
            i = j + 1;
        } else {
            let line = piece(&chars, i, j);
            list.push(line);
            assert(texts(list@) == texts(before).push(line@));
            assert(line@ == rest);
            assert(lines_of(chars@.skip(j as int)) == Seq::<Seq<char>>::empty());
            assert(texts(list@) + lines_of(chars@.skip(j as int)) == texts(before) + lines_of(
                rest,
            ));
            i = j;
        }
    }
    assert(lines_of(chars@.skip(i as int)) == Seq::<Seq<char>>::empty());
    list
}

/// Tells whether `chars` begins with `prefix`.
pub fn begins_with(chars: &Vec<char>, prefix: &str) -> (begins: bool)
    ensures
        begins == prefix@.is_prefix_of(chars@),
{
    let wanted = to_chars(prefix);
    if wanted.len() > chars.len() {
        return false;
    }
    let mut i: usize = 0;
    while i < wanted.len()
        invariant
            i <= wanted@.len() <= chars@.len(),
            wanted@ == prefix@,
            wanted@.take(i as int) == chars@.take(i as int),
        decreases wanted@.len() - i,
    {
        if wanted[i] != chars[i] {
            assert(wanted@[i as int] != chars@.subrange(0, wanted@.len() as int)[i as int]);
            return false;
        }
        assert(wanted@.take(i + 1) == chars@.take(i + 1));
        i = i + 1;
    }
    assert(wanted@.take(i as int) == wanted@);
    true
}

/// Tells whether `chars` holds the same characters as `text`.
pub fn same_text(chars: &Vec<char>, text: &str) -> (same: bool)
    ensures
        same == (chars@ == text@),
{
    let other = to_chars(text);
    let begins = begins_with(chars, text);
    if begins && other.len() == chars.len() {
        assert(chars@.subrange(0, chars@.len() as int) == chars@);
        true
    } else {
        false
    }
}

/// Tells whether `piece` occurs in `chars`.
pub fn chars_contain(chars: &Vec<char>, piece: &str) -> (found: bool)
    ensures
        found == occurs_in(piece@, chars@),
{
    let wanted = to_chars(piece);
    let mut i: usize = 0;
    while i <= chars.len() && wanted.len() <= chars.len() - i
        invariant
            wanted@ == piece@,
            i <= chars@.len() + 1,
            forall|k: int| 0 <= k < i ==> !#[trigger] occurs_at(piece@, chars@, k),
        decreases chars@.len() + 1 - i,
    {
        let mut j: usize = 0;
        while j < wanted.len() && chars[i + j] == wanted[j]
            invariant
                j <= wanted@.len(),
                i + wanted@.len() <= chars.len(),
                chars@.subrange(i as int, i + j) == wanted@.take(j as int),
            decreases wanted@.len() - j,
        {
            assert(chars@.subrange(i as int, i + j + 1) == wanted@.take(j + 1));
            j = j + 1;
        }
        if j == wanted.len() {
            assert(wanted@.take(j as int) == wanted@);
            assert(occurs_at(piece@, chars@, i as int));
            return true;
        }
        assert(chars@.subrange(i as int, i + wanted@.len())[j as int] != wanted@[j as int]);
        assert(!occurs_at(piece@, chars@, i as int));
        i = i + 1;
    }
    assert forall|k: int| !#[trigger] occurs_at(piece@, chars@, k) by {}
    false
}

/// Tells whether `piece` occurs in `text`.
pub fn contains(text: &str, piece: &str) -> (found: bool)
    ensures
        found == occurs_in(piece@, text@),
{
    let chars = to_chars(text);
    chars_contain(&chars, piece)
}

/// The characters of `text`, with the letters A to Z made small.
pub fn to_small_letters(text: &str) -> (chars: Vec<char>)
    ensures
        chars@ == small_letters(text@),
{
    let all = to_chars(text);
    let mut chars: Vec<char> = Vec::new();
    let mut i: usize = 0;
    while i < all.len()
        invariant
            i <= all@.len(),
            chars@ == small_letters(all@.take(i as int)),
        decreases all@.len() - i,
    {
        let c = all[i];
        let small = if c >= 'A' && c <= 'Z' {
            (c as u8 + 32) as char
        } else {
            c
        };
        chars.push(small);
        assert(small_letters(all@.take(i + 1)) == small_letters(all@.take(i as int)).push(
            small_letter(c),
        ));
        i = i + 1;
    }
    assert(all@.take(i as int) == all@);
    chars
}

/// Joins the parts, with `sep` between each two of them.
pub fn join(parts: &Vec<String>, sep: &str) -> (text: String)
    ensures
        text@ == joined(texts(parts@), sep@),
{
    let mut text = String::new();
    let mut i: usize = 0;
    assert(texts(parts@).take(0) == Seq::<Seq<char>>::empty());
    while i < parts.len()
        invariant
            i <= parts@.len(),
            text@ == joined(texts(parts@).take(i as int), sep@),
        decreases parts@.len() - i,
    {
        if i > 0 {
            text.append(sep);
        }
        text.append(parts[i].as_str());
        assert(texts(parts@).take(i + 1).drop_last() == texts(parts@).take(i as int));
        i = i + 1;
    }
    assert(texts(parts@).take(i as int) == texts(parts@));
    text
}

/// Appends `n` in decimal to `text`.
pub fn push_decimal(text: &mut String, n: u64)
    ensures
        final(text)@ == old(text)@ + decimal(n as nat),
    decreases n,
{
    if n >= 10 {
        push_decimal(text, n / 10);
    }
    let d = (n % 10) as u8;
    text.push((48u8 + d) as char);
}

/// Reads a count, as `str::parse` does for a `usize`: an optional plus sign,
/// then digits only, of a number that fits.
pub fn parse_count(text: &str) -> (count: Option<usize>)
    ensures
        count == count_of(text@),
{
    let chars = to_chars(text);
    let from: usize = if chars.len() > 0 && chars[0] == '+' {
        1
    } else {
        0
    };
    let ghost digits = chars@.skip(from as int);
    if from == chars.len() {
        return None;
    }
    let mut value: usize = 0;
    let mut i: usize = from;
    while i < chars.len()
        invariant
            from <= i <= chars@.len(),
            digits == chars@.skip(from as int),
            digits == (if text@.len() > 0 && text@[0] == '+' {
                text@.skip(1)
            } else {
                text@
            }),
            all_digits(digits.take(i - from)),
            value == digits_value(digits.take(i - from)),
        decreases chars@.len() - i,
    {
        let c = chars[i];
        assert(c == digits[i - from]);
        if c < '0' || c > '9' {
            return None;
        }
        let d = (c as u32 - 48) as usize;
        let ghost k = i - from;
        assert(digits.take(k + 1).drop_last() == digits.take(k));
        assert(digits_value(digits.take(k + 1)) == value * 10 + d);
        if value > usize::MAX / 10 || value * 10 > usize::MAX - d {
            proof {
                lemma_digits_value_grows(digits, k + 1);
            }
            return None;
        }
        value = value * 10 + d;
        i = i + 1;
    }
    assert(digits.take(i - from) == digits);
    Some(value)
}

/// A number is no smaller than the number that its leading digits write.
proof fn lemma_digits_value_grows(text: Seq<char>, n: int)
    requires
        0 <= n <= text.len(),
    ensures
        digits_value(text) >= digits_value(text.take(n)),
    decreases text.len(),
{
    if n == text.len() {
        assert(text.take(n) == text);
    } else {
        lemma_digits_value_grows(text.drop_last(), n);
        assert(text.drop_last().take(n) == text.take(n));
    }
}

/// Shortens `text` to at most `max` characters, three dots among them.
pub fn truncate(text: &str, max: usize) -> (short: String)
    ensures
        short@ == shortened(text@, max as nat),
{
    let chars = to_chars(text);
    if chars.len() <= max {
        assert(chars@.subrange(0, chars@.len() as int) == chars@);
        piece(&chars, 0, chars.len())
    } else if max < 3 {
        "...".to_owned()
    } else {
        let mut short = piece(&chars, 0, max - 3);
        assert(chars@.subrange(0, max - 3) == text@.take(max - 3));
        short.append("...");
        short
    }
}

} // verus!
