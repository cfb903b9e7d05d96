use rustvent2023::day03::{
    checked_part_one, checked_part_two, find_numbers, issymb, look_around, part_one, part_two,
    sum_gear_ratios, sum_part_numbers, Number, Probe,
};

const TEST: &str = "467..114..
...*......
..35..633.
......#...
617*......
.....+.58.
..592.....
......755.
...$.*....
.664.598..";

fn grid(s: &str) -> Vec<Vec<char>> {
    s.lines().map(|l| l.chars().collect()).collect()
}

#[test]
fn day03_test_part_one() {
    assert_eq!(part_one(TEST), 4361);
}

#[test]
fn day03_test_part_two() {
    assert_eq!(part_two(&TEST), 467835);
}

#[test]
fn symbols_are_neither_dots_nor_digits() {
    assert!(issymb('*'));
    assert!(issymb('#'));
    assert!(issymb('a'));
    assert!(!issymb('.'));
    assert!(!issymb('0'));
    assert!(!issymb('9'));
}

#[test]
fn numbers_are_found_with_their_offsets() {
    let numbers = find_numbers(&grid("467..114..\n...*......")).unwrap();
    assert_eq!(
        numbers,
        vec![
            Number { row: 0, start: 0, end: 3, value: 467 },
            Number { row: 0, start: 5, end: 8, value: 114 },
        ]
    );
}

#[test]
fn a_number_too_large_is_not_read() {
    assert_eq!(find_numbers(&grid("99999999999999999999999")), None);
    assert_eq!(checked_part_one("99999999999999999999999*"), None);
}

#[test]
fn looking_around_stops_at_the_first_hit() {
    let text = grid("..*.\n.12*\n*...");
    let n = Number { row: 1, start: 1, end: 3, value: 12 };
    assert_eq!(look_around(&text, &n, true), Probe::Hit(2, 0));
    assert_eq!(look_around(&text, &n, false), Probe::Hit(2, 0));
    let text = grid("....\n.12.\n....");
    assert_eq!(look_around(&text, &n, false), Probe::Miss);
}

#[test]
fn the_cell_after_a_number_is_looked_at_up_to_the_last_column() {
    assert_eq!(checked_part_one("12*"), Some(12));
    assert_eq!(checked_part_one("12*."), Some(12));
    assert_eq!(checked_part_one("*12"), Some(12));
    assert_eq!(checked_part_one("...\n12.\n..*"), Some(12));
    assert_eq!(checked_part_one("..*\n12.\n..."), Some(12));
    assert_eq!(checked_part_one("12"), Some(0));
    assert_eq!(checked_part_two("2*3"), Some(6));
}

#[test]
fn a_short_neighbouring_line_is_out_of_range() {
    let text = grid("..\n...12.");
    let n = Number { row: 1, start: 3, end: 5, value: 12 };
    assert_eq!(look_around(&text, &n, false), Probe::OutOfRange);
    assert_eq!(sum_part_numbers(&text, &vec![n]), None);
    assert_eq!(sum_gear_ratios(&text, &vec![n]), None);
    assert_eq!(checked_part_one("..\n...12."), None);
    assert_eq!(checked_part_two("..\n...12."), None);
}

#[test]
fn a_third_number_multiplies_with_the_first() {
    assert_eq!(checked_part_two("2.3\n.*.\n.5."), Some(2 * 3 + 2 * 5));
}

#[test]
fn solving_twice_gives_the_same() {
    assert_eq!(checked_part_one(TEST), checked_part_one(TEST));
    assert_eq!(checked_part_two(TEST), checked_part_two(TEST));
}
