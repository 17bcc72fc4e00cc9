use yarn_cmd::duration::duration_millis;

/// What double precision makes of the number.
fn by_float(number: &str, unit: &str) -> Option<u64> {
    match number.parse::<f64>() {
        Ok(value) => Some(if unit == "ms" {
            value as u64
        } else {
            (value * 1000.0) as u64
        }),
        Err(_) => None,
    }
}

fn check(number: &str) {
    assert_eq!(duration_millis(number, "s"), by_float(number, "s"), "{} s", number);
    assert_eq!(duration_millis(number, "ms"), by_float(number, "ms"), "{} ms", number);
}

#[test]
fn duration_of_given_numbers() {
    assert_eq!(duration_millis("8.45", "s"), Some(8450));
    assert_eq!(duration_millis("450", "ms"), Some(450));
    assert_eq!(duration_millis("450.9", "ms"), Some(450));
    assert_eq!(duration_millis("1.50", "s"), Some(1500));
    assert_eq!(duration_millis("2", "minutes"), Some(2000));
    // The product lies just below 1001 in double precision.
    assert_eq!(duration_millis("1.001", "s"), Some(1000));
}

#[test]
fn duration_needs_a_number() {
    for number in ["", ".", "1.2.3", "..", "1..", "a", "1a", "\u{0663}", "1,5", " 1"] {
        assert_eq!(duration_millis(number, "s"), None, "{:?}", number);
        assert_eq!(duration_millis(number, "ms"), None, "{:?}", number);
    }
    for number in ["5.", ".5", "0", "0.0", "000.5000"] {
        check(number);
    }
}

#[test]
fn durations_in_thousandths_agree_with_double_precision() {
    for n in 0..100_000u64 {
        check(&format!("{}.{:03}", n / 1000, n % 1000));
    }
}

#[test]
fn durations_in_hundredths_agree_with_double_precision() {
    for n in 0..50_000u64 {
        check(&format!("{}.{:02}", n / 100, n % 100));
    }
}

#[test]
fn long_numbers_agree_with_double_precision() {
    // A linear congruential generator, for digits of all lengths.
    let mut seed: u64 = 12345;
    for round in 0..20_000u64 {
        let mut number = String::new();
        let whole = round % 24;
        let fraction = (round / 24) % 90;
        for i in 0..(whole + fraction) {
            if i == whole {
                number.push('.');
            }
            seed = seed.wrapping_mul(6364136223846793005).wrapping_add(1442695040888963407);
            number.push(char::from(b'0' + ((seed >> 33) % 10) as u8));
        }
        if whole + fraction > 0 {
            check(&number);
        }
    }
}

#[test]
fn numbers_near_ties_agree_with_double_precision() {
    for number in [
        "9007199254740992",
        "9007199254740993",
        "9007199254740993.0000000000000000000000000000000000001",
        "9007199254740994",
        "9007199254740995",
        "4503599627370496.5",
        "4503599627370497.5",
        "4503599627370497.49999999999999999999999999999999999999999999",
        "18446744073709551615",
        "18446744073709551616",
        "18446744073709549568",
        "18446744073709550591",
        "18446744073709550592",
        "18446744073709551.615",
        "18446744073709551.616",
        "340282366920938463463374607431768211456",
        "0.00048828125",
        "0.000488281249999999999999999999999999999",
        "0.0009999999999999999999999999999999",
        "0.001",
        "0.00099999999999999999",
        "0.0000000000000000000000000000000000000000001",
    ] {
        check(number);
    }
    check(&"9".repeat(400));
    check(&format!("0.{}1", "0".repeat(400)));
}

#[test]
fn longer_durations_do_not_come_out_shorter() {
    let mut last = 0u64;
    for n in 0..5_000u64 {
        let millis = duration_millis(&format!("{}.{:04}", n / 10000, n % 10000), "s").unwrap();
        assert!(millis >= last);
        last = millis;
    }
}
