use hip_limiter::size_parser::parse_memory_limit;

#[test]
fn test_plain_bytes() {
    assert_eq!(parse_memory_limit("137438953472"), Some(137438953472));
    assert_eq!(parse_memory_limit("1024"), Some(1024));
    assert_eq!(parse_memory_limit("1024B"), Some(1024));
}

#[test]
fn test_plain_bytes_exact_precision() {
    assert_eq!(
        parse_memory_limit("9007199254740993"),
        Some(9_007_199_254_740_993)
    ); // 2^53 + 1
}

#[test]
fn test_si_suffixes() {
    assert_eq!(parse_memory_limit("126G"), Some(126_000_000_000));
    assert_eq!(parse_memory_limit("126GB"), Some(126_000_000_000));
    assert_eq!(parse_memory_limit("512M"), Some(512_000_000));
    assert_eq!(parse_memory_limit("512MB"), Some(512_000_000));
    assert_eq!(parse_memory_limit("1T"), Some(1_000_000_000_000));
    assert_eq!(parse_memory_limit("1TB"), Some(1_000_000_000_000));
    assert_eq!(parse_memory_limit("100K"), Some(100_000));
    assert_eq!(parse_memory_limit("100KB"), Some(100_000));
}

#[test]
fn test_binary_suffixes() {
    assert_eq!(parse_memory_limit("126GiB"), Some(126 * 1_073_741_824));
    assert_eq!(parse_memory_limit("512MiB"), Some(512 * 1_048_576));
    assert_eq!(parse_memory_limit("1TiB"), Some(1_099_511_627_776));
    assert_eq!(parse_memory_limit("100KiB"), Some(100 * 1_024));
}

#[test]
fn test_case_insensitive() {
    assert_eq!(parse_memory_limit("126g"), Some(126_000_000_000));
    assert_eq!(parse_memory_limit("126gb"), Some(126_000_000_000));
    assert_eq!(parse_memory_limit("126gib"), Some(126 * 1_073_741_824));
    assert_eq!(parse_memory_limit("126GIB"), Some(126 * 1_073_741_824));
}

#[test]
fn test_fractional() {
    assert_eq!(parse_memory_limit("1.5G"), Some(1_500_000_000));
    assert_eq!(parse_memory_limit("0.5GiB"), Some(536_870_912));
}

#[test]
fn test_invalid() {
    assert_eq!(parse_memory_limit(""), None);
    assert_eq!(parse_memory_limit("0G"), None);
    assert_eq!(parse_memory_limit("-1G"), None);
    assert_eq!(parse_memory_limit("abc"), None);
    assert_eq!(parse_memory_limit("126X"), None);
    assert_eq!(parse_memory_limit("G"), None);
    assert_eq!(parse_memory_limit("0"), None);
    assert_eq!(parse_memory_limit("0B"), None);
}

#[test]
fn test_whitespace() {
    assert_eq!(parse_memory_limit("  126G  "), Some(126_000_000_000));
    assert_eq!(parse_memory_limit("126 G"), Some(126_000_000_000));
}

/// The bytes of a number and a multiplier, calculated with floating-point numbers.
fn with_floats(number: &str, multiplier: u64) -> Option<u64> {
    let value: f64 = number.parse().ok()?;
    if value <= 0.0 || !value.is_finite() {
        return None;
    }
    let bytes = value * multiplier as f64;
    if bytes >= u64::MAX as f64 || bytes < 1.0 {
        return None;
    }
    Some(bytes as u64)
}

const SUFFIXES: [(&str, u64); 8] = [
    ("k", 1_000),
    ("KiB", 1_024),
    ("Mb", 1_000_000),
    ("miB", 1_048_576),
    ("G", 1_000_000_000),
    ("GiB", 1_073_741_824),
    ("TB", 1_000_000_000_000),
    ("TiB", 1_099_511_627_776),
];

#[test]
fn fractions_are_rounded_as_floating_point_numbers_are() {
    let mut state: u64 = 88172645463325252;
    let mut next = || {
        state ^= state << 13;
        state ^= state >> 7;
        state ^= state << 17;
        state
    };
    for _ in 0..20_000 {
        let whole = next() >> (next() % 64);
        let places = (next() % 25) as usize;
        let digits: String = (0..places).map(|_| char::from(b'0' + (next() % 10) as u8)).collect();
        let number = match next() % 4 {
            0 => format!("{whole}"),
            1 => format!("{}.{digits}", whole % 1000),
            2 => format!("0.{}{digits}", "0".repeat((next() % 14) as usize)),
            _ => format!("{whole}.{digits}"),
        };
        let (suffix, multiplier) = SUFFIXES[(next() % 8) as usize];
        assert_eq!(
            parse_memory_limit(&format!("{number}{suffix}")),
            with_floats(&number, multiplier),
            "{number}{suffix}"
        );
    }
}

#[test]
fn numbers_between_two_neighbours_go_to_the_even_one() {
    for number in [
        "9007199254740993",
        "9007199254740995",
        "9007199254740992.9999999999999999999",
        "9007199254740993.0000000000000000001",
        "18446744073709551615",
        "18446744073709551616",
        "18446744073709553664",
        "18446744073709553665",
        "0.0000000000009094947017729282379150390625",
        "0.000000000000909494701772928237915039062499999",
        "123456789012345678901234567890",
        "0.57",
        "0.29",
        "4.35",
        ".5",
        "5.",
        "1.2.3",
        ".",
        "",
    ] {
        for (suffix, multiplier) in SUFFIXES {
            assert_eq!(
                parse_memory_limit(&format!("{number}{suffix}")),
                with_floats(number, multiplier),
                "{number}{suffix}"
            );
        }
    }
}

#[test]
fn products_lose_what_floating_point_numbers_lose() {
    assert_eq!(parse_memory_limit("1.1G"), Some(1_100_000_000));
    assert_eq!(parse_memory_limit("0.001K"), Some(1));
    assert_eq!(parse_memory_limit("0.0009K"), None);
    assert_eq!(parse_memory_limit("1.005K"), Some(1_004));
    assert_eq!(parse_memory_limit("1.5"), Some(1));
    assert_eq!(parse_memory_limit("18446744073709551615"), Some(u64::MAX));
    assert_eq!(parse_memory_limit("18446744073709551616"), None);
    assert_eq!(parse_memory_limit("16777215TiB"), Some(16_777_215 << 40));
    assert_eq!(parse_memory_limit("16777216TiB"), None);
    assert_eq!(parse_memory_limit("16777217TiB"), None);
}

#[test]
fn neither_case_nor_blanks_matter() {
    for s in ["126gib", "1.5 Tb", "12", "0.5KIB", "x", "7 zb", "", "1 2"] {
        let bytes = parse_memory_limit(s);
        assert_eq!(parse_memory_limit(&s.to_ascii_uppercase()), bytes);
        assert_eq!(parse_memory_limit(&s.to_ascii_lowercase()), bytes);
        assert_eq!(parse_memory_limit(&format!("  {s}\t ")), bytes);
    }
}
