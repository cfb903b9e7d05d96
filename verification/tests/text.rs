use rustvent2023::text::{chars_of, lines, parse_isize, parse_usize, replace, split_on, trim, words};

fn cs(s: &str) -> Vec<char> {
    s.chars().collect()
}

fn strs(v: Vec<Vec<char>>) -> Vec<String> {
    v.into_iter().map(|p| p.into_iter().collect()).collect()
}

#[test]
fn day01_test_parse() {
    assert_eq!(parse_isize(&chars_of("1701")).unwrap(), 1701);
}

#[test]
fn lines_follow_line_endings() {
    assert_eq!(strs(lines(&cs("a\r\nb\n\nc\r"))), vec!["a", "b", "", "c\r"]);
    assert_eq!(strs(lines(&cs("a\n"))), vec!["a"]);
    assert_eq!(strs(lines(&cs(""))), Vec::<String>::new());
    assert_eq!(strs(lines(&cs("\n"))), vec![""]);
}

#[test]
fn words_skip_white_space() {
    assert_eq!(strs(words(&cs("  7  15\t 30 \n"))), vec!["7", "15", "30"]);
    assert_eq!(strs(words(&cs("   "))), Vec::<String>::new());
}

#[test]
fn split_keeps_empty_pieces() {
    assert_eq!(strs(split_on(&cs("a;;b;"), &cs(";"))), vec!["a", "", "b", ""]);
    assert_eq!(strs(split_on(&cs("x\n\n\ny"), &cs("\n\n"))), vec!["x", "\ny"]);
    assert_eq!(strs(split_on(&cs(""), &cs(";"))), vec![""]);
}

#[test]
fn replace_takes_leftmost_matches() {
    let out: String = replace(&cs("aaa"), &cs("aa"), &cs("b")).into_iter().collect();
    assert_eq!(out, "ba");
    let out: String = replace(&cs("7 15 30"), &cs(" "), &cs("")).into_iter().collect();
    assert_eq!(out, "71530");
}

#[test]
fn trim_removes_outer_white_space() {
    let out: String = trim(&cs(" \t 41 48 \n")).into_iter().collect();
    assert_eq!(out, "41 48");
    let out: String = trim(&cs("   ")).into_iter().collect();
    assert_eq!(out, "");
}

#[test]
fn numerals() {
    assert_eq!(parse_usize(&cs("0")), Some(0));
    assert_eq!(parse_usize(&cs("+42")), Some(42));
    assert_eq!(parse_usize(&cs("")), None);
    assert_eq!(parse_usize(&cs("+")), None);
    assert_eq!(parse_usize(&cs("-1")), None);
    assert_eq!(parse_usize(&cs("1a")), None);
    assert_eq!(parse_usize(&cs("18446744073709551615")), Some(usize::MAX));
    assert_eq!(parse_usize(&cs("18446744073709551616")), None);
    assert_eq!(parse_isize(&cs("-9223372036854775808")), Some(isize::MIN));
    assert_eq!(parse_isize(&cs("9223372036854775807")), Some(isize::MAX));
    assert_eq!(parse_isize(&cs("9223372036854775808")), None);
    assert_eq!(parse_isize(&cs("-9223372036854775809")), None);
    assert_eq!(parse_isize(&cs("-")), None);
    assert_eq!(parse_isize(&cs("-12")), Some(-12));
}

#[test]
fn white_space_is_what_the_standard_library_takes_for_it() {
    for code in 0..=0x10ffffu32 {
        if let Some(c) = char::from_u32(code) {
            assert_eq!(rustvent2023::text::is_whitespace(c), c.is_whitespace(), "{:x}", code);
        }
    }
}

#[test]
fn words_and_trimming_know_all_white_space() {
    assert_eq!(
        strs(words(&cs("a\u{a0}b\u{2003}c\u{3000}d\u{85}e\u{200b}f"))),
        vec!["a", "b", "c", "d", "e\u{200b}f"]
    );
    let out: String = trim(&cs("\u{2028}\u{1680} x \u{205f}\u{202f}")).into_iter().collect();
    assert_eq!(out, "x");
}
