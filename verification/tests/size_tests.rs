use epo_processor::download::parse_file_size;
use epo_processor::size::SizeError;

#[test]
fn size_in_bytes_is_the_number_itself() {
    assert_eq!(parse_file_size("1 B"), Ok(1));
    assert_eq!(parse_file_size("10 b"), Ok(10));
    assert_eq!(parse_file_size("0 B"), Ok(0));
}

#[test]
fn size_units_are_powers_of_1024() {
    assert_eq!(parse_file_size("1 KB"), Ok(1024));
    assert_eq!(parse_file_size("1 MB"), Ok(1024 * 1024));
    assert_eq!(parse_file_size("1 GB"), Ok(1024 * 1024 * 1024));
    assert_eq!(parse_file_size("2 GB"), Ok(2_147_483_648));
}

#[test]
fn size_with_fraction_is_rounded_down() {
    assert_eq!(parse_file_size("12.4 MB"), Ok(13_002_342));
    assert_eq!(parse_file_size("1.5 KB"), Ok(1536));
    assert_eq!(parse_file_size("0.5 MB"), Ok(524_288));
    assert_eq!(parse_file_size("0.1 KB"), Ok(102));
    assert_eq!(parse_file_size("3.75 GB"), Ok(4_026_531_840));
    assert_eq!(parse_file_size("1.9 B"), Ok(1));
    assert_eq!(parse_file_size("0.0009765625 KB"), Ok(1));
    assert_eq!(parse_file_size("0.0009765624 KB"), Ok(0));
}

#[test]
fn size_unit_may_be_in_any_case() {
    assert_eq!(parse_file_size("1 kb"), Ok(1024));
    assert_eq!(parse_file_size("1 Kb"), Ok(1024));
    assert_eq!(parse_file_size("1 kB"), Ok(1024));
    assert_eq!(parse_file_size("3 mb"), Ok(3 * 1024 * 1024));
    assert_eq!(parse_file_size("3 gB"), Ok(3 * 1024 * 1024 * 1024));
}

#[test]
fn size_tokens_are_separated_by_any_white_space() {
    assert_eq!(parse_file_size("  1\tKB \n"), Ok(1024));
    assert_eq!(parse_file_size("1\u{a0}KB"), Ok(1024));
    assert_eq!(parse_file_size("\u{3000}7   MB"), Ok(7 * 1024 * 1024));
}

#[test]
fn size_number_may_lack_digits_on_one_side_of_the_point() {
    assert_eq!(parse_file_size(".5 KB"), Ok(512));
    assert_eq!(parse_file_size("5. KB"), Ok(5120));
}

#[test]
fn size_number_may_carry_a_sign() {
    assert_eq!(parse_file_size("+2 KB"), Ok(2048));
    assert_eq!(parse_file_size("-1 KB"), Ok(0));
    assert_eq!(parse_file_size("-0.5 GB"), Ok(0));
}

#[test]
fn size_too_large_is_the_largest_count() {
    assert_eq!(parse_file_size("18446744073709551615 B"), Ok(u64::MAX));
    assert_eq!(parse_file_size("18446744073709551616 B"), Ok(u64::MAX));
    assert_eq!(parse_file_size("17179869183 GB"), Ok(18_446_744_072_635_809_792));
    assert_eq!(parse_file_size("17179869184 GB"), Ok(u64::MAX));
    assert_eq!(parse_file_size("99999999999999999999999999999999999999999999 GB"), Ok(u64::MAX));
}

#[test]
fn size_with_a_long_fraction_is_exact() {
    assert_eq!(parse_file_size("0.00000000000000000000000000000000000000001 GB"), Ok(0));
    assert_eq!(
        parse_file_size("0.99999999999999999999999999999999999999999999999 KB"),
        Ok(1023)
    );
    assert_eq!(parse_file_size("1.00000000000000000000000000000000000000000 KB"), Ok(1024));
}

#[test]
fn size_without_two_tokens_is_a_format_error() {
    assert_eq!(parse_file_size(""), Err(SizeError::Format));
    assert_eq!(parse_file_size("   "), Err(SizeError::Format));
    assert_eq!(parse_file_size("12MB"), Err(SizeError::Format));
    assert_eq!(parse_file_size("12"), Err(SizeError::Format));
    assert_eq!(parse_file_size("1 2 MB"), Err(SizeError::Format));
}

#[test]
fn size_with_a_bad_number_is_a_number_error() {
    assert_eq!(parse_file_size("abc MB"), Err(SizeError::Number));
    assert_eq!(parse_file_size("1.2.3 MB"), Err(SizeError::Number));
    assert_eq!(parse_file_size(". MB"), Err(SizeError::Number));
    assert_eq!(parse_file_size("+ MB"), Err(SizeError::Number));
    assert_eq!(parse_file_size("1,5 MB"), Err(SizeError::Number));
    assert_eq!(parse_file_size("--1 KB"), Err(SizeError::Number));
    assert_eq!(parse_file_size("0x10 KB"), Err(SizeError::Number));
    assert_eq!(parse_file_size("1_000 KB"), Err(SizeError::Number));
    assert_eq!(parse_file_size("1e KB"), Err(SizeError::Number));
    assert_eq!(parse_file_size("1e+ KB"), Err(SizeError::Number));
    assert_eq!(parse_file_size("e5 KB"), Err(SizeError::Number));
    assert_eq!(parse_file_size(".e5 KB"), Err(SizeError::Number));
    assert_eq!(parse_file_size("1e5e2 KB"), Err(SizeError::Number));
    assert_eq!(parse_file_size("1e2.5 KB"), Err(SizeError::Number));
    assert_eq!(parse_file_size("1.5e2.0 KB"), Err(SizeError::Number));
    assert_eq!(parse_file_size("infinit KB"), Err(SizeError::Number));
    assert_eq!(parse_file_size("in KB"), Err(SizeError::Number));
    assert_eq!(parse_file_size("nane KB"), Err(SizeError::Number));
    assert_eq!(parse_file_size("+-1 KB"), Err(SizeError::Number));
}

#[test]
fn size_with_an_unknown_unit_is_a_unit_error() {
    assert_eq!(parse_file_size("1 TB"), Err(SizeError::Unit));
    assert_eq!(parse_file_size("1 K"), Err(SizeError::Unit));
    assert_eq!(parse_file_size("1 KBs"), Err(SizeError::Unit));
    assert_eq!(parse_file_size("1 bytes"), Err(SizeError::Unit));
}

#[test]
fn size_number_is_judged_before_the_unit() {
    assert_eq!(parse_file_size("abc XB"), Err(SizeError::Number));
}

#[test]
fn size_number_may_carry_an_exponent() {
    assert_eq!(parse_file_size("1e3 KB"), Ok(1_024_000));
    assert_eq!(parse_file_size("1E3 KB"), Ok(1_024_000));
    assert_eq!(parse_file_size("1e+3 B"), Ok(1000));
    assert_eq!(parse_file_size("1.5e1 KB"), Ok(15_360));
    assert_eq!(parse_file_size("12.5e-1 KB"), Ok(1280));
    assert_eq!(parse_file_size("125e-2 KB"), Ok(1280));
    assert_eq!(parse_file_size(".5e1 B"), Ok(5));
    assert_eq!(parse_file_size("5.e0 B"), Ok(5));
    assert_eq!(parse_file_size("1e0 GB"), Ok(1_073_741_824));
    assert_eq!(parse_file_size("0001e003 B"), Ok(1000));
    assert_eq!(parse_file_size("1024e-3 KB"), Ok(1048));
    assert_eq!(parse_file_size("1e-3 MB"), Ok(1048));
    assert_eq!(parse_file_size("9e-1 B"), Ok(0));
    assert_eq!(parse_file_size("-1e3 KB"), Ok(0));
}

#[test]
fn size_exponent_moves_the_point_past_either_end_of_the_digits() {
    assert_eq!(parse_file_size("123e2 B"), Ok(12_300));
    assert_eq!(parse_file_size("1.23e5 B"), Ok(123_000));
    assert_eq!(parse_file_size("123e-5 GB"), Ok(1_320_702));
    assert_eq!(parse_file_size("1e19 B"), Ok(10_000_000_000_000_000_000));
    assert_eq!(parse_file_size("1e20 B"), Ok(u64::MAX));
    assert_eq!(parse_file_size("1.8446744073709551615e19 B"), Ok(u64::MAX));
    assert_eq!(parse_file_size("1.8446744073709551614e19 B"), Ok(u64::MAX - 1));
    assert_eq!(parse_file_size("1e-9 GB"), Ok(1));
    assert_eq!(parse_file_size("1e-10 GB"), Ok(0));
}

#[test]
fn size_exponent_of_any_length_is_taken() {
    assert_eq!(parse_file_size("1e99999999999999999999999999999999999999 B"), Ok(u64::MAX));
    assert_eq!(parse_file_size("1e-99999999999999999999999999999999999999 GB"), Ok(0));
    assert_eq!(parse_file_size("0e99999999999999999999999999999999999999 GB"), Ok(0));
    assert_eq!(parse_file_size("0.000e99999999999999999999999999999999999999 GB"), Ok(0));
    assert_eq!(parse_file_size("1e00000000000000000000000000000000000002 B"), Ok(100));
    assert_eq!(
        parse_file_size("100000000000000000000000000000000000000000000000000e-50 KB"),
        Ok(1024)
    );
    assert_eq!(
        parse_file_size("0.00000000000000000000000000000000000000000000000001e50 KB"),
        Ok(1024)
    );
}

#[test]
fn size_may_be_infinite_or_no_number() {
    assert_eq!(parse_file_size("inf B"), Ok(u64::MAX));
    assert_eq!(parse_file_size("INF KB"), Ok(u64::MAX));
    assert_eq!(parse_file_size("+Infinity MB"), Ok(u64::MAX));
    assert_eq!(parse_file_size("-inf GB"), Ok(0));
    assert_eq!(parse_file_size("-INFINITY GB"), Ok(0));
    assert_eq!(parse_file_size("nan KB"), Ok(0));
    assert_eq!(parse_file_size("NaN KB"), Ok(0));
    assert_eq!(parse_file_size("-nan KB"), Ok(0));
    assert_eq!(parse_file_size("inf TB"), Err(SizeError::Unit));
}

fn with_floating_point(text: &str) -> Option<u64> {
    let parts: Vec<&str> = text.split_whitespace().collect();
    if parts.len() != 2 {
        return None;
    }
    let number: f64 = parts[0].parse().ok()?;
    match parts[1].to_uppercase().as_str() {
        "B" => Some(number as u64),
        "KB" => Some((number * 1024.0) as u64),
        "MB" => Some((number * 1024.0 * 1024.0) as u64),
        "GB" => Some((number * 1024.0 * 1024.0 * 1024.0) as u64),
        _ => None,
    }
}

#[test]
fn size_agrees_with_floating_point_where_that_is_exact() {
    let numbers = [
        "0", "1", "7", "12", "100", "1023", "1024", "65536", "123456789", "0.5", "0.25", "0.125",
        "1.5", "2.75", "12.4", "12.5", "99.9", "0.1", "0.01", "0.001", "3.14159", "1e3", "1E3",
        "2.5e2", "1e-3", "5e-1", "125e-2", "+4", "-4", "-0.5", ".5", "5.", "inf", "-inf", "nan",
        "1e30", "1e-30", "abc", "", "1.2.3", "1e", "e1", ".", "+", "0x1", "1_0", "٣",
    ];
    let units = ["B", "KB", "MB", "GB", "b", "kb", "Mb", "gB", "TB", "K", ""];
    for number in numbers {
        for unit in units {
            for text in [format!("{} {}", number, unit), format!("  {}\t{}\n", number, unit)] {
                assert_eq!(parse_file_size(&text).ok(), with_floating_point(&text), "{:?}", text);
            }
        }
    }
}

#[test]
fn size_agrees_with_floating_point_on_every_size_with_one_decimal() {
    for unit in ["B", "KB", "MB", "GB"] {
        for tenths in 0..20_000u32 {
            let text = format!("{}.{} {}", tenths / 10, tenths % 10, unit);
            assert_eq!(parse_file_size(&text).ok(), with_floating_point(&text), "{:?}", text);
        }
    }
}

#[test]
fn size_unit_letters_are_the_only_characters_that_capitalise_to_them() {
    let mut code: u32 = 0;
    while code <= 0x10FFFF {
        if let Some(c) = char::from_u32(code) {
            let upper: String = c.to_uppercase().collect();
            if ["B", "K", "M", "G", "KB", "MB", "GB"].contains(&upper.as_str()) {
                assert!(c.is_ascii_alphabetic(), "{:?}", c);
            }
            let as_unit = format!("1 {}", c);
            assert_eq!(parse_file_size(&as_unit).is_ok(), upper == "B", "{:?}", c);
        }
        code += 1;
    }
}
