//! Laws of the reports, written out: what stands in them, character by character.

use crate::jest_report::{
    failure_head, failure_list, numbered, test_report, JestTally,
};
use crate::laws::text::{
    is_trimmed, law_blank_ends_are_trimmed, law_trim_keeps_solid_head, law_trimmed_text_stays,
    lemma_joined_one,
};
use crate::test_result::{
    compact_failure_lines, compact_failures, compact_form, compact_head, preview_of, FailureText,
};
use crate::text::{decimal, is_white_space, joined, lines_of, trim_of};
use vstd::prelude::*;

verus! {

/// A run without failures is reported on one line: how many tests passed, then how
/// many were skipped, how many suites there were and the time, each only where
/// there is something to say. Failures that were read are not shown.
pub proof fn law_success_is_written_out(tally: JestTally, failures: Seq<Seq<char>>)
    requires
        tally.tests_failed == 0,
        tally.suites_failed == 0,
    ensures
        test_report(tally, failures) == "ok Yarn test: "@ + decimal(tally.tests_passed as nat)
            + " passed"@ + (if tally.tests_skipped == 0 {
            Seq::<char>::empty()
        } else {
            ", "@ + decimal(tally.tests_skipped as nat) + " skipped"@
        }) + (if tally.suites_total == 0 {
            Seq::<char>::empty()
        } else if tally.suites_total == 1 {
            " (1 suite)"@
        } else {
            " ("@ + decimal(tally.suites_total as nat) + " suites)"@
        }) + (if tally.time.len() == 0 {
            Seq::<char>::empty()
        } else {
            " ["@ + tally.time + "]"@
        }),
{
    reveal_strlit(" (1 suite)");
    reveal_strlit(" suites)");
    reveal_strlit(" (");
    reveal_strlit(" ");
    reveal_strlit("suite");
    reveal_strlit("suites");
    reveal_strlit(")");
    let one = " ("@ + decimal(1) + " "@ + "suite"@ + ")"@;
    assert(decimal(1) =~= seq!['1']);
    assert(one =~= " (1 suite)"@);
    assert(" "@ + "suites"@ + ")"@ =~= " suites)"@);
    let many = decimal(tally.suites_total as nat);
    assert(" ("@ + many + " "@ + "suites"@ + ")"@ =~= " ("@ + many + " suites)"@);
    let passed = "ok Yarn test: "@ + decimal(tally.tests_passed as nat) + " passed"@;
    let skipped = if tally.tests_skipped == 0 {
        Seq::<char>::empty()
    } else {
        ", "@ + decimal(tally.tests_skipped as nat) + " skipped"@
    };
    let suites = if tally.suites_total == 0 {
        Seq::<char>::empty()
    } else if tally.suites_total == 1 {
        " (1 suite)"@
    } else {
        " ("@ + many + " suites)"@
    };
    let time = if tally.time.len() == 0 {
        Seq::<char>::empty()
    } else {
        " ["@ + tally.time + "]"@
    };
    assert(test_report(tally, failures) =~= passed + skipped + suites + time);
}

/// The first line of the report of a run with failures.
spec fn headline(tally: JestTally) -> Seq<char> {
    "Yarn test: "@ + decimal(tally.tests_failed as nat) + " failed, "@ + decimal(
        tally.tests_passed as nat,
    ) + " passed"@ + (if tally.tests_skipped == 0 {
        Seq::<char>::empty()
    } else {
        ", "@ + decimal(tally.tests_skipped as nat) + " skipped"@
    }) + " ("@ + decimal(tally.tests_total as nat) + " total)"@ + (if tally.time.len() == 0 {
        Seq::<char>::empty()
    } else {
        " ["@ + tally.time + "]"@
    })
}

proof fn lemma_headline(tally: JestTally)
    ensures
        failure_head(tally) == headline(tally),
        headline(tally).len() > 0,
        is_trimmed(headline(tally)),
{
    reveal_strlit("Yarn test: ");
    reveal_strlit(" total)");
    reveal_strlit("]");
    let head = headline(tally);
    assert(failure_head(tally) =~= head);
    assert(head[0] == 'Y');
    assert(head.last() == ')' || head.last() == ']');
}

/// The failures, each with its number in front.
spec fn entries(failures: Seq<Seq<char>>, n: nat) -> Seq<Seq<char>> {
    Seq::new(n, |i: int| decimal((i + 1) as nat) + ". "@ + failures[i])
}

proof fn lemma_numbered_is_joined(failures: Seq<Seq<char>>, n: nat)
    requires
        n > 0,
    ensures
        numbered(failures, n) == joined(entries(failures, n), "\n"@) + "\n"@,
    decreases n,
{
    let list = entries(failures, n);
    let own = decimal(n) + ". "@ + failures[n - 1];
    assert(list.last() == own);
    if n == 1 {
        lemma_joined_one(list, "\n"@);
        assert(numbered(failures, 0) =~= seq![]);
        assert(numbered(failures, 1) =~= own + "\n"@);
    } else {
        lemma_numbered_is_joined(failures, (n - 1) as nat);
        assert(list.drop_last() =~= entries(failures, (n - 1) as nat));
        assert(numbered(failures, n) =~= joined(list, "\n"@) + "\n"@);
    }
}

/// The report of a run with failures begins with how many tests failed and passed,
/// how many were skipped if any were, how many there are in all, and the time if it
/// is known; where no failure was read that is the whole report. Behind it stand the
/// first ten failures, numbered from one, each on a line of its own, and how many
/// more there are.
pub proof fn law_failed_run_is_written_out(tally: JestTally, failures: Seq<Seq<char>>)
    requires
        tally.tests_failed > 0 || tally.suites_failed > 0,
    ensures
        ({
            let report = test_report(tally, failures);
            let head = "Yarn test: "@ + decimal(tally.tests_failed as nat) + " failed, "@
                + decimal(tally.tests_passed as nat) + " passed"@ + (if tally.tests_skipped == 0 {
                Seq::<char>::empty()
            } else {
                ", "@ + decimal(tally.tests_skipped as nat) + " skipped"@
            }) + " ("@ + decimal(tally.tests_total as nat) + " total)"@ + (if tally.time.len()
                == 0 {
                Seq::<char>::empty()
            } else {
                " ["@ + tally.time + "]"@
            });
            let shown = Seq::new(
                if failures.len() <= 10 {
                    failures.len()
                } else {
                    10
                },
                |i: int| decimal((i + 1) as nat) + ". "@ + failures[i],
            );
            let whole = head + "\n\nFAILURES:\n"@ + joined(shown, "\n"@) + (if failures.len()
                <= 10 {
                Seq::<char>::empty()
            } else {
                "\n\n... +"@ + decimal((failures.len() - 10) as nat) + " more failures"@
            });
            &&& failures.len() == 0 ==> report == head
            &&& failures.len() > 0 ==> report == trim_of(whole)
            &&& failures.len() > 10 ==> report == whole
            &&& 0 < failures.len() <= 10 && failures.last().len() > 0 && !is_white_space(
                failures.last().last(),
            ) ==> report == whole
        }),
{
    lemma_headline(tally);
    let empty = Seq::<char>::empty();
    let report = test_report(tally, failures);
    let head = headline(tally);
    let n = if failures.len() <= 10 {
        failures.len()
    } else {
        10
    };
    let shown = entries(failures, n);
    assert(shown =~= Seq::new(n, |i: int| decimal((i + 1) as nat) + ". "@ + failures[i]));
    let more = if failures.len() <= 10 {
        empty
    } else {
        "\n\n... +"@ + decimal((failures.len() - 10) as nat) + " more failures"@
    };
    let whole = head + "\n\nFAILURES:\n"@ + joined(shown, "\n"@) + more;
    let raw = head.push('\n') + failure_list(failures);
    assert(report == trim_of(raw));
    assert(is_white_space('\n'));
    if failures.len() == 0 {
        assert(raw =~= empty + head + seq!['\n']);
        law_blank_ends_are_trimmed(empty, head, seq!['\n']);
        law_trimmed_text_stays(head);
    } else {
        lemma_numbered_is_joined(failures, n);
        reveal_strlit("\n\nFAILURES:\n");
        reveal_strlit("\nFAILURES:\n");
        reveal_strlit("\n");
        reveal_strlit("\n... +");
        reveal_strlit("\n\n... +");
        reveal_strlit(" more failures\n");
        reveal_strlit(" more failures");
        let start = head + "\n\nFAILURES:\n"@ + joined(shown, "\n"@);
        assert(head.push('\n') + "\nFAILURES:\n"@ =~= head + "\n\nFAILURES:\n"@);
        if failures.len() <= 10 {
            assert(raw =~= empty + whole + seq!['\n']);
        } else {
            let count = decimal((failures.len() - 10) as nat);
            assert(raw =~= start + "\n"@ + "\n... +"@ + count + " more failures\n"@);
            assert(raw =~= empty + whole + seq!['\n']);
        }
        law_blank_ends_are_trimmed(empty, whole, seq!['\n']);
        assert(whole[0] == head[0]);
        if failures.len() > 10 {
            assert(whole.last() == 's');
            law_trimmed_text_stays(whole);
        } else if failures.last().len() > 0 && !is_white_space(failures.last().last()) {
            assert(shown.last().last() == failures.last().last());
            let front = joined(shown.drop_last(), "\n"@);
            assert(joined(shown, "\n"@).last() == shown.last().last());
            assert(whole.last() == failures.last().last());
            law_trimmed_text_stays(whole);
        }
    }
}

/// Where a test or a suite failed, the report begins with the counts as they are:
/// failed, passed, skipped if any were, and the total.
pub proof fn law_failed_run_begins_with_its_counts(tally: JestTally, failures: Seq<Seq<char>>)
    requires
        tally.tests_failed > 0 || tally.suites_failed > 0,
    ensures
        ("Yarn test: "@ + decimal(tally.tests_failed as nat) + " failed, "@ + decimal(
            tally.tests_passed as nat,
        ) + " passed"@ + (if tally.tests_skipped == 0 {
            Seq::<char>::empty()
        } else {
            ", "@ + decimal(tally.tests_skipped as nat) + " skipped"@
        }) + " ("@ + decimal(tally.tests_total as nat) + " total)"@).is_prefix_of(
            test_report(tally, failures),
        ),
{
    lemma_headline(tally);
    reveal_strlit("Yarn test: ");
    reveal_strlit(" total)");
    let counts = "Yarn test: "@ + decimal(tally.tests_failed as nat) + " failed, "@ + decimal(
        tally.tests_passed as nat,
    ) + " passed"@ + (if tally.tests_skipped == 0 {
        Seq::<char>::empty()
    } else {
        ", "@ + decimal(tally.tests_skipped as nat) + " skipped"@
    }) + " ("@ + decimal(tally.tests_total as nat) + " total)"@;
    let time = if tally.time.len() == 0 {
        Seq::<char>::empty()
    } else {
        " ["@ + tally.time + "]"@
    };
    assert(headline(tally) =~= counts + time);
    assert(counts[0] == 'Y');
    assert(counts.last() == ')');
    let tail = time.push('\n') + failure_list(failures);
    assert(headline(tally).push('\n') + failure_list(failures) =~= counts + tail);
    law_trim_keeps_solid_head(counts, tail);
}

/// Text joined from two lists is the text of the first, the separator and the text
/// of the second.
pub proof fn law_joined_lists_are_joined(a: Seq<Seq<char>>, b: Seq<Seq<char>>, sep: Seq<char>)
    requires
        a.len() > 0,
        b.len() > 0,
    ensures
        joined(a + b, sep) == joined(a, sep) + sep + joined(b, sep),
    decreases b.len(),
{
    let all = a + b;
    assert(all.last() == b.last());
    if b.len() == 1 {
        lemma_joined_one(b, sep);
        assert(all.drop_last() =~= a);
        assert(joined(all, sep) =~= joined(a, sep) + sep + b[0]);
    } else {
        law_joined_lists_are_joined(a, b.drop_last(), sep);
        assert(all.drop_last() =~= a + b.drop_last());
        assert(joined(all, sep) =~= joined(a, sep) + sep + joined(b, sep));
    }
}

/// Nothing joined is empty, and one part joined is that part.
pub proof fn law_joined_part_stands_alone(part: Seq<char>, sep: Seq<char>)
    ensures
        joined(Seq::<Seq<char>>::empty(), sep).len() == 0,
        joined(seq![part], sep) == part,
{
    lemma_joined_one(seq![part], sep);
}

/// The preview of a message is its first line, and its second behind a space where
/// there is one.
pub proof fn law_preview_is_two_lines(message: Seq<char>)
    ensures
        lines_of(message).len() == 0 ==> preview_of(message).len() == 0,
        lines_of(message).len() == 1 ==> preview_of(message) == lines_of(message)[0],
        lines_of(message).len() >= 2 ==> preview_of(message) == lines_of(message)[0] + " "@
            + lines_of(message)[1],
{
    let list = lines_of(message);
    if list.len() == 1 {
        lemma_joined_one(list, " "@);
    } else if list.len() >= 2 {
        let two = list.take(2);
        assert(list.len() == 2 ==> two =~= list);
        lemma_joined_one(two.drop_last(), " "@);
        assert(preview_of(message) =~= list[0] + " "@ + list[1]);
    }
}

/// The failures in the compact form, each with its number in front and its preview
/// on the next line.
spec fn blocks(failures: Seq<FailureText>, n: nat) -> Seq<Seq<char>> {
    Seq::new(
        n,
        |i: int|
            decimal((i + 1) as nat) + ". "@ + failures[i].name + "\n   "@ + preview_of(
                failures[i].message,
            ),
    )
}

proof fn lemma_compact_failures_are_joined(failures: Seq<FailureText>, n: nat)
    requires
        n > 0,
    ensures
        compact_failures(failures, n).len() > 0,
        joined(compact_failures(failures, n), "\n"@) == joined(blocks(failures, n), "\n"@),
    decreases n,
{
    reveal_strlit("\n   ");
    reveal_strlit("   ");
    reveal_strlit("\n");
    let list = blocks(failures, n);
    let lines = compact_failures(failures, n);
    let name = decimal(n) + ". "@ + failures[n - 1].name;
    let text = "   "@ + preview_of(failures[n - 1].message);
    let two = seq![name, text];
    assert(two.drop_last() =~= seq![name]);
    lemma_joined_one(two.drop_last(), "\n"@);
    assert(joined(two, "\n"@) =~= name + "\n"@ + text);
    assert(list.last() =~= name + "\n"@ + text);
    if n == 1 {
        assert(compact_failures(failures, 0) =~= seq![]);
        assert(lines =~= two);
        lemma_joined_one(list, "\n"@);
    } else {
        let shorter = compact_failures(failures, (n - 1) as nat);
        lemma_compact_failures_are_joined(failures, (n - 1) as nat);
        assert(lines =~= shorter + two);
        law_joined_lists_are_joined(shorter, two, "\n"@);
        assert(list.drop_last() =~= blocks(failures, (n - 1) as nat));
        assert(joined(list, "\n"@) =~= joined(list.drop_last(), "\n"@) + "\n"@ + list.last());
    }
}

/// The compact form begins with how many tests passed and failed. Behind an empty
/// line stand the first five failures, numbered from one, each with the preview of
/// its message on the next line; then how many more there are, and last the time in
/// milliseconds if it is known.
pub proof fn law_compact_form_is_written_out(
    passed: usize,
    failed: usize,
    duration_ms: Option<u64>,
    failures: Seq<FailureText>,
)
    ensures
        ({
            let shown = Seq::new(
                if failures.len() <= 5 {
                    failures.len()
                } else {
                    5
                },
                |i: int|
                    decimal((i + 1) as nat) + ". "@ + failures[i].name + "\n   "@ + preview_of(
                        failures[i].message,
                    ),
            );
            compact_form(passed, failed, duration_ms, failures) == "PASS ("@ + decimal(
                passed as nat,
            ) + ") FAIL ("@ + decimal(failed as nat) + ")"@ + (if failures.len() == 0 {
                Seq::<char>::empty()
            } else {
                "\n\n"@ + joined(shown, "\n"@)
            }) + (if failures.len() <= 5 {
                Seq::<char>::empty()
            } else {
                "\n\n... +"@ + decimal((failures.len() - 5) as nat) + " more failures"@
            }) + (match duration_ms {
                Some(duration) => "\n\nTime: "@ + decimal(duration as nat) + "ms"@,
                None => Seq::<char>::empty(),
            })
        }),
{
    reveal_strlit("\n");
    reveal_strlit("\n\n");
    reveal_strlit("\n... +");
    reveal_strlit("\n\n... +");
    reveal_strlit("\nTime: ");
    reveal_strlit("\n\nTime: ");
    let sep = "\n"@;
    let empty = Seq::<char>::empty();
    let n = if failures.len() <= 5 {
        failures.len()
    } else {
        5
    };
    let shown = blocks(failures, n);
    let head = "PASS ("@ + decimal(passed as nat) + ") FAIL ("@ + decimal(failed as nat) + ")"@;
    let middle = if failures.len() == 0 {
        empty
    } else {
        "\n\n"@ + joined(shown, sep)
    };
    let more = if failures.len() <= 5 {
        empty
    } else {
        "\n\n... +"@ + decimal((failures.len() - 5) as nat) + " more failures"@
    };
    let time = match duration_ms {
        Some(duration) => "\n\nTime: "@ + decimal(duration as nat) + "ms"@,
        None => empty,
    };
    let first = seq![head];
    let list = first + compact_failure_lines(failures);
    assert(compact_head(passed, failed) == head);
    lemma_joined_one(first, sep);
    lemma_compact_list(head, failures, n);
    assert(joined(list, sep) =~= head + middle + more);
    if let Some(duration) = duration_ms {
        let last = "\nTime: "@ + decimal(duration as nat) + "ms"@;
        let all = list.push(last);
        assert(all.drop_last() =~= list);
        assert(joined(all, sep) =~= joined(list, sep) + sep + last);
        assert(sep + last =~= time);
    }
    assert(compact_form(passed, failed, duration_ms, failures) =~= head + middle + more + time);
}

proof fn lemma_compact_list(head: Seq<char>, failures: Seq<FailureText>, n: nat)
    requires
        n == (if failures.len() <= 5 {
            failures.len()
        } else {
            5
        }),
    ensures
        joined(seq![head] + compact_failure_lines(failures), "\n"@) == head + (if failures.len()
            == 0 {
            Seq::<char>::empty()
        } else {
            "\n\n"@ + joined(blocks(failures, n), "\n"@)
        }) + (if failures.len() <= 5 {
            Seq::<char>::empty()
        } else {
            "\n\n... +"@ + decimal((failures.len() - 5) as nat) + " more failures"@
        }),
{
    reveal_strlit("\n");
    reveal_strlit("\n\n");
    reveal_strlit("\n... +");
    reveal_strlit("\n\n... +");
    let sep = "\n"@;
    let empty = Seq::<char>::empty();
    let list = seq![head] + compact_failure_lines(failures);
    lemma_joined_one(seq![head], sep);
    if failures.len() == 0 {
        assert(list =~= seq![head]);
    } else {
        let lines = compact_failures(failures, n);
        let start = seq![head, empty];
        assert(start.drop_last() =~= seq![head]);
        assert(joined(start, sep) =~= head + sep);
        lemma_compact_failures_are_joined(failures, n);
        law_joined_lists_are_joined(start, lines, sep);
        let front = start + lines;
        assert(joined(front, sep) =~= head + ("\n\n"@ + joined(blocks(failures, n), sep)));
        if failures.len() <= 5 {
            assert(list =~= front);
        } else {
            let more = "\n... +"@ + decimal((failures.len() - 5) as nat) + " more failures"@;
            assert(list =~= front.push(more));
            assert(list.drop_last() =~= front);
            assert(joined(list, sep) =~= joined(front, sep) + sep + more);
            assert(sep + more =~= "\n\n... +"@ + decimal((failures.len() - 5) as nat)
                + " more failures"@);
        }
    }
}

} // verus!
