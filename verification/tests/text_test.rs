use rv32_emu::numeral::{append_numeral, append_signed, parse_numeral, read_addr, NumeralError};
use rv32_emu::text::{
    append_chars, chars_of, copy_range, has_class, same_chars, same_text, scan, scan_back,
    split_lines, split_tokens, split_words, trim, CharClass,
};

fn chars(s: &str) -> Vec<char> {
    s.chars().collect()
}

fn strings(v: Vec<Vec<char>>) -> Vec<String> {
    v.into_iter().map(|w| w.into_iter().collect()).collect()
}

#[test]
fn chars_of_a_string() {
    assert_eq!(chars_of(""), Vec::<char>::new());
    assert_eq!(chars_of("add x1"), vec!['a', 'd', 'd', ' ', 'x', '1']);
    assert_eq!(chars_of("é\u{3000}z"), vec!['é', '\u{3000}', 'z']);
}

#[test]
fn comparing_texts() {
    assert!(same_text(&chars("add"), "add"));
    assert!(!same_text(&chars("add"), "addi"));
    assert!(!same_text(&chars("adD"), "add"));
    assert!(same_text(&chars(""), ""));
    assert!(same_chars(&chars("x1"), &chars("x1")));
    assert!(!same_chars(&chars("x1"), &chars("x2")));
    assert!(!same_chars(&chars("x1"), &chars("x")));
}

#[test]
fn copying_a_range() {
    let s = chars("hello world");
    assert_eq!(copy_range(&s, 0, 5), chars("hello"));
    assert_eq!(copy_range(&s, 6, 11), chars("world"));
    assert_eq!(copy_range(&s, 3, 3), chars(""));
}

#[test]
fn white_space_is_the_unicode_property() {
    let spaces = [
        '\t', '\n', '\u{b}', '\u{c}', '\r', ' ', '\u{85}', '\u{a0}', '\u{1680}', '\u{2000}',
        '\u{2005}', '\u{200a}', '\u{2028}', '\u{2029}', '\u{202f}', '\u{205f}', '\u{3000}',
    ];
    for c in spaces {
        assert!(has_class(c, CharClass::Space), "{:?}", c);
        assert!(c.is_whitespace());
    }
    for c in ['a', '0', ',', '#', '\u{8}', '\u{e}', '\u{200b}', '\u{feff}', '\u{180e}', '_'] {
        assert!(!has_class(c, CharClass::Space), "{:?}", c);
        assert!(!c.is_whitespace());
    }
    for u in 0..0x3100u32 {
        if let Some(c) = char::from_u32(u) {
            assert_eq!(has_class(c, CharClass::Space), c.is_whitespace());
        }
    }
}

#[test]
fn character_classes() {
    assert!(has_class(',', CharClass::Separator));
    assert!(has_class(' ', CharClass::Separator));
    assert!(!has_class(';', CharClass::Separator));
    assert!(has_class('\n', CharClass::LineBreak));
    assert!(!has_class('\r', CharClass::LineBreak));
    assert!(has_class('#', CharClass::CommentMark));
    assert!(has_class('(', CharClass::OpenParen));
    assert!(!has_class(')', CharClass::OpenParen));
}

#[test]
fn scanning() {
    let s = chars("  ab, cd  ");
    assert_eq!(scan(&s, 0, CharClass::Space, true), 2);
    assert_eq!(scan(&s, 2, CharClass::Space, true), 2);
    assert_eq!(scan(&s, 2, CharClass::Separator, false), 4);
    assert_eq!(scan(&s, 4, CharClass::Separator, true), 6);
    assert_eq!(scan(&s, 6, CharClass::Separator, false), 8);
    assert_eq!(scan(&s, 8, CharClass::Space, true), 10);
    assert_eq!(scan(&s, 10, CharClass::Space, true), 10);
    assert_eq!(scan(&s, 0, CharClass::CommentMark, false), 10);
    assert_eq!(scan_back(&s, 0, 10, CharClass::Space), 8);
    assert_eq!(scan_back(&s, 0, 8, CharClass::Space), 8);
    assert_eq!(scan_back(&s, 0, 2, CharClass::Space), 0);
    assert_eq!(scan_back(&s, 1, 2, CharClass::Space), 1);
}

#[test]
fn trimming() {
    assert_eq!(trim(&chars("  add x1  ")), chars("add x1"));
    assert_eq!(trim(&chars("add")), chars("add"));
    assert_eq!(trim(&chars("\t\r\n ")), chars(""));
    assert_eq!(trim(&chars("")), chars(""));
    assert_eq!(trim(&chars(" a ")), chars("a"));
    for s in ["  x  y ", "\u{3000}q\u{a0}", "", "   ", "abc", "\na\n"] {
        let expected: String = s.trim().to_string();
        let got: String = trim(&chars(s)).into_iter().collect();
        assert_eq!(got, expected);
    }
}

#[test]
fn lines_split_at_line_feeds() {
    assert_eq!(strings(split_lines(&chars(""))), vec![""]);
    assert_eq!(strings(split_lines(&chars("a"))), vec!["a"]);
    assert_eq!(strings(split_lines(&chars("a\nb"))), vec!["a", "b"]);
    assert_eq!(strings(split_lines(&chars("a\n"))), vec!["a", ""]);
    assert_eq!(strings(split_lines(&chars("\n\na\r\n"))), vec!["", "", "a\r", ""]);
    for s in ["x\ny\nz", "\n", "one", "a\n\nb\n"] {
        let expected: Vec<String> = s.split('\n').map(|l| l.to_string()).collect();
        assert_eq!(strings(split_lines(&chars(s))), expected);
    }
}

#[test]
fn tokens_split_at_white_space_and_commas() {
    assert_eq!(strings(split_tokens(&chars("add x1, x2, x3"))), vec!["add", "x1", "x2", "x3"]);
    assert_eq!(strings(split_tokens(&chars("add x1,x2,x3"))), vec!["add", "x1", "x2", "x3"]);
    assert_eq!(strings(split_tokens(&chars("  lw\tx3 ,4(x1) "))), vec!["lw", "x3", "4(x1)"]);
    assert_eq!(strings(split_tokens(&chars(""))), Vec::<String>::new());
    assert_eq!(strings(split_tokens(&chars(" ,, "))), Vec::<String>::new());
    assert_eq!(strings(split_tokens(&chars("a"))), vec!["a"]);
}

#[test]
fn words_split_at_white_space_only() {
    assert_eq!(
        strings(split_words(&chars(" mem 0x100, 4 "), CharClass::Space)),
        vec!["mem", "0x100,", "4"]
    );
    for s in ["break 0x10", "  a  b  ", "", "x", "\tq\n"] {
        let expected: Vec<String> = s.split_whitespace().map(|l| l.to_string()).collect();
        assert_eq!(strings(split_words(&chars(s), CharClass::Space)), expected);
    }
}

#[test]
fn numerals_are_read_in_the_given_base() {
    assert_eq!(parse_numeral(&chars("0"), false, 100), Ok(0));
    assert_eq!(parse_numeral(&chars("42"), false, 100), Ok(42));
    assert_eq!(parse_numeral(&chars("100"), false, 100), Ok(100));
    assert_eq!(parse_numeral(&chars("101"), false, 100), Err(NumeralError::TooLarge));
    assert_eq!(parse_numeral(&chars("0000000000000000000000000042"), false, 100), Ok(42));
    assert_eq!(parse_numeral(&chars("ff"), true, 255), Ok(255));
    assert_eq!(parse_numeral(&chars("FF"), true, 255), Ok(255));
    assert_eq!(parse_numeral(&chars("100"), true, 255), Err(NumeralError::TooLarge));
    assert_eq!(parse_numeral(&chars("ff"), false, 255), Err(NumeralError::Malformed));
    assert_eq!(parse_numeral(&chars(""), false, 255), Err(NumeralError::Malformed));
    assert_eq!(parse_numeral(&chars("+1"), false, 255), Err(NumeralError::Malformed));
    assert_eq!(parse_numeral(&chars("1 "), false, 255), Err(NumeralError::Malformed));
    assert_eq!(parse_numeral(&chars("g"), true, 255), Err(NumeralError::Malformed));
    assert_eq!(parse_numeral(&chars("１"), false, 255), Err(NumeralError::Malformed));
    // a digit that is wrong counts even after the limit is passed
    assert_eq!(parse_numeral(&chars("99999999999999999999x"), false, 255), Err(NumeralError::Malformed));
    assert_eq!(
        parse_numeral(&chars("18446744073709551615"), false, u64::MAX),
        Ok(u64::MAX)
    );
    assert_eq!(
        parse_numeral(&chars("18446744073709551616"), false, u64::MAX),
        Err(NumeralError::TooLarge)
    );
    assert_eq!(parse_numeral(&chars("ffffffffffffffff"), true, u64::MAX), Ok(u64::MAX));
    assert_eq!(
        parse_numeral(&chars("10000000000000000"), true, u64::MAX),
        Err(NumeralError::TooLarge)
    );
    assert_eq!(parse_numeral(&chars("7"), false, 0), Err(NumeralError::TooLarge));
    assert_eq!(parse_numeral(&chars("0"), false, 0), Ok(0));
}

#[test]
fn addresses_in_decimal_and_hex() {
    assert_eq!(read_addr(&chars("0")), Ok(0));
    assert_eq!(read_addr(&chars("4096")), Ok(4096));
    assert_eq!(read_addr(&chars("0x1000")), Ok(4096));
    assert_eq!(read_addr(&chars("0xffffffff")), Ok(u32::MAX));
    assert_eq!(read_addr(&chars("4294967295")), Ok(u32::MAX));
    assert_eq!(read_addr(&chars("4294967296")), Err(NumeralError::TooLarge));
    assert_eq!(read_addr(&chars("0x100000000")), Err(NumeralError::TooLarge));
    assert_eq!(read_addr(&chars("-1")), Err(NumeralError::Malformed));
    assert_eq!(read_addr(&chars("0x")), Err(NumeralError::Malformed));
    assert_eq!(read_addr(&chars("")), Err(NumeralError::Malformed));
    assert_eq!(read_addr(&chars("ff")), Err(NumeralError::Malformed));
    assert_eq!(read_addr(&chars("0X10")), Err(NumeralError::Malformed));
}

#[test]
fn numerals_are_written_without_leading_zeros() {
    let show = |n: u64, hex: bool| {
        let mut s = String::from(">");
        append_numeral(&mut s, n, hex);
        s
    };
    assert_eq!(show(0, false), ">0");
    assert_eq!(show(9, false), ">9");
    assert_eq!(show(10, false), ">10");
    assert_eq!(show(4294967295, false), ">4294967295");
    assert_eq!(show(u64::MAX, false), ">18446744073709551615");
    assert_eq!(show(0, true), ">0");
    assert_eq!(show(15, true), ">f");
    assert_eq!(show(16, true), ">10");
    assert_eq!(show(0xdeadbeef, true), ">deadbeef");
    for n in [1u64, 7, 99, 100, 255, 256, 1000, 65535, 123456789] {
        assert_eq!(show(n, false), format!(">{}", n));
        assert_eq!(show(n, true), format!(">{:x}", n));
    }
}

#[test]
fn signed_numbers_are_written_in_decimal() {
    let show = |v: i32| {
        let mut s = String::new();
        append_signed(&mut s, v);
        s
    };
    assert_eq!(show(0), "0");
    assert_eq!(show(-1), "-1");
    assert_eq!(show(42), "42");
    assert_eq!(show(i32::MAX), "2147483647");
    assert_eq!(show(i32::MIN), "-2147483648");
    for v in [-2048, -5, 7, 2047, 4096, -4096] {
        assert_eq!(show(v), format!("{}", v));
    }
}

#[test]
fn appending_characters() {
    let mut s = String::from("ab");
    append_chars(&mut s, &chars("cd\u{e9}"));
    assert_eq!(s, "abcd\u{e9}");
    append_chars(&mut s, &[]);
    assert_eq!(s, "abcd\u{e9}");
    let mut t = String::new();
    append_chars(&mut t, &chars("x"));
    assert_eq!(t, "x");
}
