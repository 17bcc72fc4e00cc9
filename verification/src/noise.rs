//! Lines that say nothing about the tests, and the output without them.

use crate::text::{
    begins_with, chars_contain, decimal, join, joined, lines, lines_of, occurs_in, piece,
    push_decimal, same_text, texts, to_chars, trim_of, trimmed_chars,
};
use vstd::prelude::*;

verus! {

/// How many characters of an output without a known runner are passed on.
pub const PASSTHROUGH_LIMIT: usize = 2000;

/// Whether `line` is empty, or a line of Yarn, of a build or of Jest that
/// belongs to every run.
pub open spec fn is_noise(line: Seq<char>) -> bool {
    let trimmed = trim_of(line);
    ||| trimmed.len() == 0
    // What Yarn 1 prints first
    ||| "yarn run v"@.is_prefix_of(trimmed)
    ||| "$ jest"@.is_prefix_of(trimmed)
    ||| "$ react-scripts test"@.is_prefix_of(trimmed)
    ||| "$ node "@.is_prefix_of(trimmed)
    ||| "$ cross-env "@.is_prefix_of(trimmed)
    ||| "$ ng test"@.is_prefix_of(trimmed)
    ||| "$ vitest"@.is_prefix_of(trimmed)
    // What the builds of Angular and Vitest print
    ||| trimmed == "Building..."@
    ||| "Start at"@.is_prefix_of(trimmed)
    // What Yarn Berry prints
    ||| "\u{27a4} YN"@.is_prefix_of(trimmed)
    // What Yarn prints last
    ||| "Done in "@.is_prefix_of(trimmed)
    ||| "error Command failed"@.is_prefix_of(trimmed)
    ||| "info Visit https://yarnpkg.com"@.is_prefix_of(trimmed)
    // What Jest prints in every run
    ||| trimmed == "Ran all test suites."@
    ||| "Snapshots:"@.is_prefix_of(trimmed)
    ||| ("Snapshot"@.is_prefix_of(trimmed) && occurs_in("total"@, trimmed))
}

/// The lines that are no noise, in their order.
pub open spec fn without_noise(list: Seq<Seq<char>>) -> Seq<Seq<char>> {
    list.filter(|line: Seq<char>| !is_noise(line))
}

/// `text`, or where it has more than `max` characters its first `max` and a note
/// of how many there were.
pub open spec fn limited(text: Seq<char>, max: nat) -> Seq<char> {
    if text.len() <= max {
        text
    } else {
        text.take(max as int) + "\n\n[RTK:PASSTHROUGH] Output truncated ("@ + decimal(text.len())
            + " chars \u{2192} "@ + decimal(max) + " chars)"@
    }
}

/// The lines of `text` that are no noise, cut at the limit.
pub open spec fn passed_through(text: Seq<char>) -> Seq<char> {
    limited(joined(without_noise(lines_of(text)), "\n"@), PASSTHROUGH_LIMIT as nat)
}

/// Tells whether a line is noise.
pub fn is_noise_line(line: &str) -> (noise: bool)
    ensures
        noise == is_noise(line@),
{
    let trimmed = trimmed_chars(line);
    if trimmed.len() == 0 {
        return true;
    }
    if begins_with(&trimmed, "yarn run v") || begins_with(&trimmed, "$ jest") || begins_with(
        &trimmed,
        "$ react-scripts test",
    ) || begins_with(&trimmed, "$ node ") || begins_with(&trimmed, "$ cross-env ") || begins_with(
        &trimmed,
        "$ ng test",
    ) || begins_with(&trimmed, "$ vitest") {
        return true;
    }
    if same_text(&trimmed, "Building...") || begins_with(&trimmed, "Start at") {
        return true;
    }
    if begins_with(&trimmed, "\u{27a4} YN") {
        return true;
    }
    if begins_with(&trimmed, "Done in ") || begins_with(&trimmed, "error Command failed")
        || begins_with(&trimmed, "info Visit https://yarnpkg.com") {
        return true;
    }
    if same_text(&trimmed, "Ran all test suites.") || begins_with(&trimmed, "Snapshots:") || (
    begins_with(&trimmed, "Snapshot") && chars_contain(&trimmed, "total")) {
        return true;
    }
    false
}

/// Cuts `text` behind its first `max` characters and notes that it was cut.
pub fn truncate_output(text: &str, max: usize) -> (cut: String)
    ensures
        cut@ == limited(text@, max as nat),
{
    let chars = to_chars(text);
    if chars.len() <= max {
        assert(chars@.subrange(0, chars@.len() as int) == chars@);
        return piece(&chars, 0, chars.len());
    }
    let mut cut = piece(&chars, 0, max);
    assert(chars@.subrange(0, max as int) == text@.take(max as int));
    cut.append("\n\n[RTK:PASSTHROUGH] Output truncated (");
    push_decimal(&mut cut, chars.len() as u64);
    cut.append(" chars \u{2192} ");
    push_decimal(&mut cut, max as u64);
    cut.append(" chars)");
    cut
}

/// Passes an output on without its noise, cut at the limit.
pub fn pass_through(text: &str) -> (passed: String)
    ensures
        passed@ == passed_through(text@),
{
    let list = lines(text);
    let mut kept: Vec<String> = Vec::new();
    let mut i: usize = 0;
    assert(texts(list@).take(0) == Seq::<Seq<char>>::empty());
    assert(texts(kept@) == without_noise(texts(list@).take(0)));
    while i < list.len()
        invariant
            i <= list@.len(),
            texts(kept@) == without_noise(texts(list@).take(i as int)),
        decreases list@.len() - i,
    {
        let ghost before = kept@;
        proof {
            let head = texts(list@).take(i + 1);
            assert(head.drop_last() == texts(list@).take(i as int));
            assert(head.last() == list@[i as int]@);
            reveal_with_fuel(Seq::<_>::filter, 1);
        }
        if !is_noise_line(list[i].as_str()) {
            kept.push(list[i].clone());
            assert(texts(kept@) == texts(before).push(list@[i as int]@));
        }
        i = i + 1;
    }
    assert(texts(list@).take(i as int) == texts(list@));
    let stripped = join(&kept, "\n");
    truncate_output(stripped.as_str(), PASSTHROUGH_LIMIT)
}

} // verus!
