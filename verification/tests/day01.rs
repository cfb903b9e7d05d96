use rustvent2023::day01::{calibrate, checked_part_one, checked_part_two, part_one, part_two, spell_out};

const TEST: &str = "1abc2
pqr3stu8vwx
a1b2c3d4e5f
treb7uchet";

const TEST2: &str = "two1nine
eightwothree
abcone2threexyz
xtwone3four
4nineeightseven2
zoneight234
7pqrstsixteen";

fn cs(s: &str) -> Vec<char> {
    s.chars().collect()
}

#[test]
fn day01_test_part_one() {
    assert_eq!(part_one(TEST), 142);
}

#[test]
fn day01_test_part_two() {
    assert_eq!(part_two(TEST2), 281);
}

#[test]
fn a_single_digit_counts_twice() {
    assert_eq!(calibrate(&cs("treb7uchet")), Some(77));
    assert_eq!(calibrate(&cs("a1b2c3d4e5f")), Some(15));
    assert_eq!(calibrate(&cs("00")), Some(0));
}

#[test]
fn a_line_without_digit_has_no_number() {
    assert_eq!(calibrate(&cs("abc")), None);
    assert_eq!(calibrate(&cs("")), None);
    assert_eq!(checked_part_one("1\nabc"), None);
    assert_eq!(checked_part_one("1\n\n2"), None);
    assert_eq!(checked_part_one(""), Some(0));
}

#[test]
fn only_the_ten_decimal_digits_count() {
    assert_eq!(calibrate(&cs("\u{0663}4\u{0662}")), Some(44));
    assert_eq!(calibrate(&cs("\u{0663}")), None);
}

#[test]
fn spelled_out_digits_keep_their_letters() {
    let out: String = spell_out(&cs("eightwo")).into_iter().collect();
    assert_eq!(out, "eight8eightwo2two");
    let out: String = spell_out(&cs("xyz")).into_iter().collect();
    assert_eq!(out, "xyz");
    assert_eq!(checked_part_two("eightwothree"), Some(83));
    assert_eq!(checked_part_two("oneight"), Some(18));
    assert_eq!(checked_part_two("abc"), None);
}

#[test]
fn day01_solving_twice_gives_the_same() {
    assert_eq!(checked_part_one(TEST), checked_part_one(TEST));
    assert_eq!(checked_part_two(TEST2), checked_part_two(TEST2));
}
