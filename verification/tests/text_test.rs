use yarn_cmd::ansi::strip_ansi;
use yarn_cmd::noise::{is_noise_line, pass_through, truncate_output};
use yarn_cmd::text::{
    contains, is_space, join, lines, parse_count, push_decimal, to_small_letters, trim, trim_after,
    truncate,
};

fn owned(list: &[&str]) -> Vec<String> {
    list.iter().map(|s| s.to_string()).collect()
}

const SAMPLES: [&str; 16] = [
    "",
    "\n",
    "a",
    "a\n",
    "a\r\n",
    "a\r",
    "a\n\nb",
    "a\r\r\nb\r",
    "\r\n\r\n",
    " \t a b \u{a0}\u{3000}",
    "\u{2003}x\u{200b}",
    "Tests:\n  1 passed\n",
    "\n\na",
    "one\rtwo\nthree",
    "\u{27a4} YN0000\r\n\u{25cf} App",
    "   ",
];

#[test]
fn space_is_unicode_white_space() {
    for code in 0..=0x10ffffu32 {
        if let Some(c) = char::from_u32(code) {
            assert_eq!(is_space(c), c.is_whitespace(), "U+{:04X}", code);
        }
    }
}

#[test]
fn lines_and_trim_agree_with_str() {
    for text in SAMPLES {
        let expected: Vec<String> = text.lines().map(|l| l.to_string()).collect();
        assert_eq!(lines(text), expected, "{:?}", text);
        assert_eq!(trim(text), text.trim(), "{:?}", text);
    }
}

#[test]
fn trim_after_takes_all_marks() {
    assert_eq!(trim_after("\u{d7}\u{d7}  name \u{d7} ", '\u{d7}'), "name \u{d7}");
    assert_eq!(trim_after(" \u{d7} name", '\u{d7}'), "\u{d7} name");
    assert_eq!(trim_after("", '\u{d7}'), "");
}

#[test]
fn contains_agrees_with_str() {
    for (text, piece) in [
        ("", ""),
        ("abc", ""),
        ("abc", "c"),
        ("aab", "ab"),
        ("aab", "abc"),
        ("aaab", "aab"),
        ("Test Suites: 1", "Test Suites:"),
        ("Test Suites", "Test Suites:"),
        ("\u{25cf}\u{2192}", "\u{2192}"),
    ] {
        assert_eq!(contains(text, piece), text.contains(piece), "{:?} {:?}", text, piece);
    }
}

#[test]
fn small_letters_agree_on_the_phrase() {
    // For each character: whether its small form has a letter of the phrase.
    let phrase = "no tests found";
    for code in 0..=0x10ffffu32 {
        if let Some(c) = char::from_u32(code) {
            let text = c.to_string();
            let full: String = text.to_lowercase();
            let small: String = to_small_letters(&text).into_iter().collect();
            if full != small {
                assert!(!full.chars().any(|l| phrase.contains(l)), "U+{:04X}", code);
                assert!(!small.chars().any(|l| phrase.contains(l)), "U+{:04X}", code);
            }
        }
    }
}

#[test]
fn join_puts_separators_between() {
    assert_eq!(join(&owned(&[]), ", "), "");
    assert_eq!(join(&owned(&["a"]), ", "), "a");
    assert_eq!(join(&owned(&["a", "", "b"]), ", "), "a, , b");
}

#[test]
fn joined_lines_are_read_back() {
    let list = owned(&["one", " two ", "\u{25cf} three"]);
    assert_eq!(lines(&join(&list, "\n")), list);
}

#[test]
fn decimals_are_written_and_read_back() {
    for n in [0u64, 9, 10, 99, 100, 1234567890, u64::MAX] {
        let mut text = String::from("n=");
        push_decimal(&mut text, n);
        assert_eq!(text, format!("n={}", n));
        assert_eq!(parse_count(&format!("{}", n)), Some(n as usize));
    }
}

#[test]
fn counts_are_read_as_str_parse_does() {
    for text in [
        "",
        "0",
        "007",
        "42",
        "+42",
        "+",
        "++1",
        "-1",
        " 1",
        "1 ",
        "1a",
        "18446744073709551615",
        "18446744073709551616",
        "99999999999999999999999",
        "00000000000000000000000000000001",
        "\u{0663}",
    ] {
        assert_eq!(parse_count(text), text.parse::<usize>().ok(), "{:?}", text);
    }
}

#[test]
fn truncate_keeps_what_fits() {
    assert_eq!(truncate("hello", 5), "hello");
    assert_eq!(truncate("hello!", 5), "he...");
    assert_eq!(truncate("\u{25cf}\u{25cf}\u{25cf}\u{25cf}", 3), "...");
    assert_eq!(truncate("abc", 2), "...");
    assert_eq!(truncate("", 0), "");
    assert_eq!(truncate(&"x".repeat(121), 120), format!("{}...", "x".repeat(117)));
}

#[test]
fn escape_sequences_are_taken_out() {
    let re = regex::Regex::new(r"\x1b\[[0-9;]*[a-zA-Z]").unwrap();
    for text in [
        "",
        "plain",
        "\x1b[1m\x1b[32m PASS \x1b[39m\x1b[22m src",
        "\x1b[m",
        "\x1b[0;1;31mred\x1b[0m",
        "\x1b[31",
        "\x1b[31\u{e9}",
        "\x1b[?25l",
        "\x1b",
        "\x1b[",
        "\x1b\x1b[m[m",
        "a\x1b[2Kb\x1b]0;title\x07",
    ] {
        assert_eq!(strip_ansi(text), re.replace_all(text, ""), "{:?}", text);
    }
}

#[test]
fn escape_sequence_in_plain_text_disappears() {
    assert_eq!(strip_ansi("Tests: \x1b[1m3\x1b[22m passed"), "Tests: 3 passed");
}

#[test]
fn cut_output_is_marked() {
    assert_eq!(truncate_output("12345", 5), "12345");
    assert_eq!(
        truncate_output("123456", 5),
        "12345\n\n[RTK:PASSTHROUGH] Output truncated (6 chars \u{2192} 5 chars)"
    );
}

#[test]
fn noise_is_told_by_the_trimmed_line() {
    assert!(is_noise_line(""));
    assert!(is_noise_line(" \t "));
    assert!(is_noise_line("   Done in 4.12s."));
    assert!(is_noise_line("\u{27a4} YN0000: \u{250c} Resolution step"));
    assert!(is_noise_line("$ cross-env CI=1 jest"));
    assert!(is_noise_line("Ran all test suites."));
    assert!(!is_noise_line("Ran all test suites. And more"));
    assert!(!is_noise_line("Building... now"));
    assert!(is_noise_line("Snapshots:   0 total"));
    assert!(is_noise_line("Snapshot Summary: 3 total"));
    assert!(!is_noise_line("Snapshot Summary"));
    assert!(!is_noise_line("$ nodemon"));
}

#[test]
fn only_noise_is_left_out() {
    let text = "yarn run v1.22.22\n  kept 1\n\n$ jest\r\nkept 2\r\nDone in 1.00s.\n";
    assert_eq!(pass_through(text), "  kept 1\nkept 2");
    assert_eq!(pass_through(&pass_through(text)), pass_through(text));
}

#[test]
fn carriage_return_within_a_line_is_kept() {
    // The one case in which passing on twice differs from passing on once.
    assert_eq!(pass_through("a\r\r\nb"), "a\r\nb");
    assert_eq!(pass_through("a\r\nb"), "a\nb");
}
