use t2fanrd::text::{
    char_is_white_space, decimal_text, parse_number, read_number, same_text, split_text,
    strip_prefix, strip_suffix, trim_end_text, trim_text, NumberFault,
};

#[test]
fn white_space_is_trimmed() {
    assert_eq!(trim_text(" \t 42 \n"), "42");
    assert_eq!(trim_end_text(" 42 \n"), " 42");
    assert_eq!(trim_text("\u{3000}a b\u{a0}"), "a b");
    assert_eq!(trim_text("   "), "");
}

#[test]
fn white_space_is_that_of_unicode() {
    for n in 0..0x11_0000u32 {
        if let Some(c) = char::from_u32(n) {
            assert_eq!(char_is_white_space(c), c.is_whitespace());
        }
    }
}

#[test]
fn text_is_split_at_each_separator() {
    assert_eq!(split_text("a,b,,c", ','), vec!["a", "b", "", "c"]);
    assert_eq!(split_text("", ','), vec![""]);
    assert_eq!(split_text("/x/", '/'), vec!["", "x", ""]);
}

#[test]
fn numbers_are_read_as_rust_reads_them() {
    for s in ["0", "007", "+5", "+", "", "-1", "4294967295", "4294967296", "12a", " 1", "１"] {
        assert_eq!(parse_number(s, 10, u32::MAX), s.parse::<u32>().ok());
    }
    for s in ["ff", "FF", "100", "+3", "g0", ""] {
        let expected = u8::from_str_radix(s, 16).ok().map(u32::from);
        assert_eq!(parse_number(s, 16, 255), expected);
    }
}

#[test]
fn numbers_are_written_and_read_back() {
    for n in [0u32, 9, 10, 255, 1200, u32::MAX] {
        let text = decimal_text(u64::from(n));
        assert_eq!(text, n.to_string());
        assert_eq!(parse_number(&text, 10, u32::MAX), Some(n));
    }
    assert_eq!(decimal_text(u64::MAX), u64::MAX.to_string());
}

#[test]
fn affixes_are_stripped() {
    assert_eq!(strip_prefix("slot:1", "slot:"), Some("1"));
    assert_eq!(strip_prefix("slo", "slot:"), None);
    assert_eq!(strip_suffix("fan1_input", "_input"), Some("fan1"));
    assert_eq!(strip_suffix("fan1_min", "_input"), None);
    assert!(same_text("é", "é"));
    assert!(!same_text("a", "b"));
}

#[test]
fn faults_are_those_that_rust_names() {
    use_fault("", NumberFault::Empty, std::num::IntErrorKind::Empty);
    for text in ["+", "-", "-1", "1x", "x", "99999999999x", "++1"] {
        let kind = text.parse::<u32>().unwrap_err().kind().clone();
        let fault = match kind {
            std::num::IntErrorKind::InvalidDigit => NumberFault::InvalidDigit,
            std::num::IntErrorKind::PosOverflow => NumberFault::TooLarge,
            other => panic!("{other:?}"),
        };
        use_fault(text, fault, kind);
    }
    use_fault("4294967296", NumberFault::TooLarge, std::num::IntErrorKind::PosOverflow);
    assert_eq!(read_number("300", 10, 255), Err(NumberFault::TooLarge));
    assert_eq!(read_number("255", 10, 255), Ok(255));
}

fn use_fault(text: &str, fault: NumberFault, kind: std::num::IntErrorKind) {
    assert_eq!(text.parse::<u32>().unwrap_err().kind(), &kind);
    assert_eq!(read_number(text, 10, u32::MAX), Err(fault));
}
