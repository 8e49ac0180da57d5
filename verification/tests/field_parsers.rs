use csvelo::builtin_field_parsers::trim_ascii;
use csvelo::ParseCsvField;

#[test]
fn whitespace_is_trimmed_at_both_ends() {
    assert_eq!(trim_ascii(b"  a b \t"), b"a b");
    assert_eq!(trim_ascii(b"\r\n\x0c x"), b"x");
    assert_eq!(trim_ascii(b""), b"");
    assert_eq!(trim_ascii(b" \t\r\n"), b"");
    assert_eq!(trim_ascii(b"x"), b"x");
    // A vertical tab is no whitespace here.
    assert_eq!(trim_ascii(b"\x0bx\x0b"), b"\x0bx\x0b");
    for bytes in [&b" a "[..], b"\t\t", b"ab", b"  \x0c", b"\xa0 x \xa0", b"\n1\n"] {
        assert_eq!(trim_ascii(bytes), bytes.trim_ascii());
    }
}

#[test]
fn integers_are_a_sign_and_digits() {
    assert_eq!(i32::parse_csv_field(b"123"), Ok(123));
    assert_eq!(i32::parse_csv_field(b" -123 "), Ok(-123));
    assert_eq!(i32::parse_csv_field(b"+7"), Ok(7));
    assert_eq!(i32::parse_csv_field(b"-0"), Ok(0));
    assert_eq!(i32::parse_csv_field(b"0000000000000000000012"), Ok(12));
    assert_eq!(i32::parse_csv_field(b"2147483647"), Ok(i32::MAX));
    assert_eq!(i32::parse_csv_field(b"-2147483648"), Ok(i32::MIN));
    assert_eq!(i32::parse_csv_field(b"2147483648"), Err(()));
    assert_eq!(i32::parse_csv_field(b"-2147483649"), Err(()));
    assert_eq!(i32::parse_csv_field(b"99999999999999999999999999"), Err(()));
    assert_eq!(i32::parse_csv_field(b""), Err(()));
    assert_eq!(i32::parse_csv_field(b"  "), Err(()));
    assert_eq!(i32::parse_csv_field(b"+"), Err(()));
    assert_eq!(i32::parse_csv_field(b"-"), Err(()));
    assert_eq!(i32::parse_csv_field(b"+-1"), Err(()));
    assert_eq!(i32::parse_csv_field(b"1 2"), Err(()));
    assert_eq!(i32::parse_csv_field(b"1.0"), Err(()));
    assert_eq!(i32::parse_csv_field(b"1_000"), Err(()));
    assert_eq!(i32::parse_csv_field(b"0x10"), Err(()));
    assert_eq!(i32::parse_csv_field(b"12\xff"), Err(()));
    assert_eq!(u32::parse_csv_field(b"4294967295"), Ok(u32::MAX));
    assert_eq!(u32::parse_csv_field(b"4294967296"), Err(()));
    assert_eq!(u32::parse_csv_field(b"+0"), Ok(0));
    assert_eq!(u32::parse_csv_field(b"-0"), Err(()));
    assert_eq!(u32::parse_csv_field(b"-1"), Err(()));
    assert_eq!(u8::parse_csv_field(b"255"), Ok(255));
    assert_eq!(u8::parse_csv_field(b"256"), Err(()));
    assert_eq!(i8::parse_csv_field(b"-128"), Ok(-128));
    assert_eq!(i8::parse_csv_field(b"128"), Err(()));
    assert_eq!(u16::parse_csv_field(b"65535"), Ok(65535));
    assert_eq!(u16::parse_csv_field(b"65536"), Err(()));
    assert_eq!(i16::parse_csv_field(b"-32768"), Ok(-32768));
    assert_eq!(i16::parse_csv_field(b"-32769"), Err(()));
}

fn texts() -> Vec<String> {
    let mut texts = vec![];
    let pieces = ["", "+", "-", "0", "00", "1", "9", "12", "127", "128", "255", "256", "a", " ", "."];
    for a in pieces {
        for b in pieces {
            for c in ["", "3", "65535", "2147483647", "4294967295", "x"] {
                texts.push(format!("{}{}{}", a, b, c));
            }
        }
    }
    for n in [
        i64::from(i8::MIN) - 1,
        i64::from(i16::MIN) - 1,
        i64::from(i32::MIN) - 1,
        i64::from(u32::MAX) + 1,
        i64::MAX,
        i64::MIN,
    ] {
        for d in 0..3 {
            texts.push(format!("{}", n + d));
            texts.push(format!("{}", n - d));
        }
    }
    texts
}

#[test]
fn integers_are_read_as_the_standard_library_reads_them() {
    for text in texts() {
        let bytes = text.as_bytes();
        let trimmed = std::str::from_utf8(bytes.trim_ascii()).unwrap();
        assert_eq!(i8::parse_csv_field(bytes).ok(), trimmed.parse::<i8>().ok(), "{:?}", text);
        assert_eq!(i16::parse_csv_field(bytes).ok(), trimmed.parse::<i16>().ok(), "{:?}", text);
        assert_eq!(i32::parse_csv_field(bytes).ok(), trimmed.parse::<i32>().ok(), "{:?}", text);
        assert_eq!(u8::parse_csv_field(bytes).ok(), trimmed.parse::<u8>().ok(), "{:?}", text);
        assert_eq!(u16::parse_csv_field(bytes).ok(), trimmed.parse::<u16>().ok(), "{:?}", text);
        assert_eq!(u32::parse_csv_field(bytes).ok(), trimmed.parse::<u32>().ok(), "{:?}", text);
    }
}

#[test]
fn text_has_to_be_valid_utf8() {
    assert_eq!(<&str>::parse_csv_field(b"abc"), Ok("abc"));
    assert_eq!(<&str>::parse_csv_field(b" abc "), Ok(" abc "));
    assert_eq!(<&str>::parse_csv_field("\u{e9}\u{20ac}".as_bytes()), Ok("\u{e9}\u{20ac}"));
    assert_eq!(<&str>::parse_csv_field(b""), Ok(""));
    assert_eq!(<&str>::parse_csv_field(b"a\xffb"), Err(()));
    assert_eq!(<&str>::parse_csv_field(b"\xc3"), Err(()));
    assert_eq!(String::parse_csv_field(b"abc"), Ok("abc".to_string()));
    assert_eq!(String::parse_csv_field(b"\xed\xa0\x80"), Err(()));
}

#[test]
fn raw_bytes_are_taken_as_they_are() {
    assert_eq!(<&[u8]>::parse_csv_field(b" \xff\x00 "), Ok(&b" \xff\x00 "[..]));
    assert_eq!(<&[u8]>::parse_csv_field(b""), Ok(&b""[..]));
}
