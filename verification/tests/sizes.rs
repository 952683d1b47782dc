use nitro_attest::host;
use nitro_attest::size::{checked_parse_size, format_bytes, parse_size};
use nitro_attest::text::{decimal_text, parse_number, split, strip_suffix, trim, IntError};

fn float_format(bytes: u64) -> String {
    let kib: u64 = 1024;
    let mib: u64 = 1024 * 1024;
    let gib: u64 = 1024 * 1024 * 1024;
    if bytes >= gib && bytes % gib == 0 {
        format!("{:.1} GiB", bytes as f64 / gib as f64)
    } else if bytes >= mib && bytes % mib == 0 {
        format!("{:.1} MiB", bytes as f64 / mib as f64)
    } else if bytes >= kib {
        format!("{:.1} KiB", bytes as f64 / kib as f64)
    } else {
        format!("{} B", bytes)
    }
}

#[test]
fn format_bytes_known_values() {
    assert_eq!(format_bytes(0), "0 B");
    assert_eq!(format_bytes(1023), "1023 B");
    assert_eq!(format_bytes(1024), "1.0 KiB");
    assert_eq!(format_bytes(1280), "1.2 KiB");
    assert_eq!(format_bytes(1536), "1.5 KiB");
    assert_eq!(format_bytes(1792), "1.8 KiB");
    assert_eq!(format_bytes(64 * 1024), "64.0 KiB");
    assert_eq!(format_bytes(1024 * 1024), "1.0 MiB");
    assert_eq!(format_bytes(1024 * 1024 + 1), "1024.0 KiB");
    assert_eq!(format_bytes(512 * 1024 * 1024), "512.0 MiB");
    assert_eq!(format_bytes(10 * 1024 * 1024 * 1024), "10.0 GiB");
}

#[test]
fn format_bytes_agrees_with_floats() {
    let mut n: u64 = 0;
    while n < 300_000 {
        assert_eq!(format_bytes(n), float_format(n));
        n += 7;
    }
    let mut n: u64 = 0;
    while n < 4_000_000 {
        assert_eq!(format_bytes(n), float_format(n));
        n += 256;
    }
    for shift in 10..64u32 {
        let base: u64 = 1u64 << shift;
        for delta in 0..5000u64 {
            let up: u64 = base.wrapping_add(delta.wrapping_mul(31));
            assert_eq!(format_bytes(up), float_format(up));
            let down: u64 = base.wrapping_sub(delta.wrapping_mul(17));
            assert_eq!(format_bytes(down), float_format(down));
        }
    }
    for delta in 0..5000u64 {
        let n: u64 = u64::MAX - delta;
        assert_eq!(format_bytes(n), float_format(n));
    }
    let mut x: u64 = 0x9e37_79b9_7f4a_7c15;
    for _ in 0..20_000 {
        x ^= x << 13;
        x ^= x >> 7;
        x ^= x << 17;
        assert_eq!(format_bytes(x), float_format(x));
    }
}

#[test]
fn bench_sizes() {
    assert_eq!(parse_size("0"), Ok(0));
    assert_eq!(parse_size("17"), Ok(17));
    assert_eq!(parse_size("+17"), Ok(17));
    assert_eq!(parse_size("64K"), Ok(65536));
    assert_eq!(parse_size(" 512M\n"), Ok(536_870_912));
    assert_eq!(parse_size("1G"), Ok(1_073_741_824));
    assert_eq!(parse_size("\u{3000}4K\u{a0}"), Ok(4096));
    assert_eq!(parse_size("18446744073709551615"), Ok(u64::MAX));
    assert_eq!(parse_size("17179869183G"), Ok(17_179_869_183 * 1_073_741_824));
}

#[test]
fn bench_sizes_that_are_none() {
    for s in ["", "K", "k", "1k", "1KB", "-1", "1.5G", "1 K", "1GG", "abc", "+", "+K", "1_000"] {
        assert_eq!(parse_size(s), Err(format!("Invalid size: {}", s)));
    }
    assert_eq!(parse_size("  x  "), Err("Invalid size: x".to_string()));
    assert_eq!(
        parse_size("18446744073709551616"),
        Err("Invalid size: 18446744073709551616".to_string())
    );
}

#[test]
fn bench_sizes_that_do_not_fit() {
    assert_eq!(checked_parse_size("17179869184G"), None);
    assert_eq!(checked_parse_size("18446744073709551615K"), None);
    assert_eq!(checked_parse_size("17179869183G"), Some(Ok(18_446_744_072_635_809_792)));
    assert_eq!(checked_parse_size("x"), Some(Err("Invalid size: x".to_string())));
}

#[test]
fn host_sizes() {
    assert_eq!(host::parse_size("100KB"), Ok(102_400));
    assert_eq!(host::parse_size(" 500MB "), Ok(524_288_000));
    assert_eq!(host::parse_size("1GB"), Ok(1_073_741_824));
    assert_eq!(host::parse_size("0KB"), Ok(0));
    assert_eq!(host::parse_size("+2MB"), Ok(2_097_152));
}

#[test]
fn host_sizes_that_are_none() {
    for s in ["", "100", "100K", "B", "1GiB", "1kb"] {
        assert_eq!(
            host::parse_size(s),
            Err(format!("invalid size '{}': expected format like 100KB, 500MB, 1GB", s))
        );
    }
    for s in ["KB", "xMB", "-1GB", "1 KB", "+GB", "99999999999999999999KB", "9999999999999999999xKB"] {
        let digits = &s[..s.len() - 2];
        let expected = digits.parse::<usize>().map_err(|e| e.to_string()).unwrap_err();
        assert_eq!(host::parse_size(s), Err(expected));
    }
    assert_eq!(
        host::parse_size("KB"),
        Err("cannot parse integer from empty string".to_string())
    );
    assert_eq!(host::parse_size("xKB"), Err("invalid digit found in string".to_string()));
    assert_eq!(
        host::parse_size("99999999999999999999KB"),
        Err("number too large to fit in target type".to_string())
    );
}

#[test]
fn host_sizes_that_do_not_fit() {
    assert_eq!(host::checked_parse_size(&format!("{}KB", usize::MAX)), None);
    assert_eq!(host::checked_parse_size("1KB"), Some(Ok(1024)));
}

#[test]
fn numbers_read_as_the_standard_library_reads_them() {
    let texts = [
        "", "0", "00", "007", "+", "-", "+0", "-0", "++1", "+-1", "1+", "12a", "a12", " 1", "1 ",
        "18446744073709551615", "18446744073709551616", "18446744073709551620",
        "99999999999999999999999", "99999999999999999999999x", "1844674407370955161x",
        "\u{663}", "1\u{663}", "1_0", "0x10", "4294967295", "4294967296",
    ];
    for s in texts {
        let expected = s.parse::<u64>();
        match parse_number(s, u64::MAX) {
            Ok(v) => assert_eq!(Ok(v), expected),
            Err(e) => {
                let text = match e {
                    IntError::Empty => "cannot parse integer from empty string",
                    IntError::InvalidDigit => "invalid digit found in string",
                    IntError::PosOverflow => "number too large to fit in target type",
                };
                assert_eq!(expected.unwrap_err().to_string(), text);
            }
        }
        let small = s.parse::<u32>();
        match parse_number(s, u32::MAX as u64) {
            Ok(v) => assert_eq!(Ok(v as u32), small),
            Err(_) => assert!(small.is_err()),
        }
    }
}

#[test]
fn decimal_text_reads_back() {
    for n in [0u64, 9, 10, 99, 100, 12345, u64::MAX] {
        let text = decimal_text(n);
        assert_eq!(text, n.to_string());
        assert_eq!(parse_number(&text, u64::MAX), Ok(n));
    }
}

#[test]
fn trim_agrees_with_the_standard_library() {
    for s in ["", " ", "a", " a ", "\t\n a b \r\u{b}\u{c}", "\u{2003}x\u{2028}", "\u{200b}x", "\u{85}\u{1680}"] {
        assert_eq!(trim(s), s.trim());
    }
    for u in 0..0x11_0000u32 {
        if let Some(c) = char::from_u32(u) {
            if c.is_whitespace() || u < 0x3100 {
                let s = format!("{}a{}", c, c);
                assert_eq!(trim(&s), s.trim());
            }
        }
    }
}

#[test]
fn split_and_strip() {
    assert_eq!(split("", ','), vec![""]);
    assert_eq!(split("4K,64K,256K", ','), vec!["4K", "64K", "256K"]);
    assert_eq!(split(",a,,b,", ','), vec!["", "a", "", "b", ""]);
    assert_eq!(strip_suffix("64K", "K"), Some("64"));
    assert_eq!(strip_suffix("K", "K"), Some(""));
    assert_eq!(strip_suffix("", "K"), None);
    assert_eq!(strip_suffix("64k", "K"), None);
}
