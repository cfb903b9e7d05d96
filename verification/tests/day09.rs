use rustvent2023::day09::{
    checked_parse, checked_total, continue_at, ends_of, parse, part_one, part_two,
};

const TEST: &str = "0 3 6 9 12 15
1 3 6 10 15 21
10 13 16 21 30 45
";

#[test]
fn day09_test_parse() {
    let nums = parse(TEST);
    assert_eq!(nums[1], vec![1, 3, 6, 10, 15, 21]);
}

#[test]
fn day09_test_part_one() {
    let nums = parse(TEST);
    assert_eq!(part_one(&nums), 114);
}

#[test]
fn day09_test_part_two() {
    let nums = parse(TEST);
    assert_eq!(part_two(&nums), 2);
}

#[test]
fn the_ends_of_the_repeated_differences() {
    assert_eq!(ends_of(&vec![10, 13, 16, 21, 30, 45], false), Some(vec![45, 15, 6, 2]));
    assert_eq!(ends_of(&vec![10, 13, 16, 21, 30, 45], true), Some(vec![10, 3, 0, 2]));
    assert_eq!(ends_of(&vec![0, 0, 0], false), Some(vec![]));
    assert_eq!(ends_of(&vec![], true), Some(vec![]));
    assert_eq!(ends_of(&vec![5], false), Some(vec![5]));
    assert_eq!(ends_of(&vec![isize::MIN, isize::MAX], false), None);
}

#[test]
fn continuing_at_either_end() {
    assert_eq!(continue_at(&vec![10, 13, 16, 21, 30, 45], false), Some(68));
    assert_eq!(continue_at(&vec![10, 13, 16, 21, 30, 45], true), Some(5));
    assert_eq!(continue_at(&vec![0, 3, 6, 9, 12, 15], true), Some(-3));
    assert_eq!(continue_at(&vec![7], false), Some(7));
    assert_eq!(continue_at(&vec![7], true), Some(7));
    assert_eq!(continue_at(&vec![], false), Some(0));
    assert_eq!(continue_at(&vec![isize::MAX - 1, isize::MAX], false), None);
    assert_eq!(checked_total(&vec![vec![isize::MAX], vec![1]], false), None);
}

#[test]
fn negative_numbers_are_read() {
    assert_eq!(checked_parse("-1 -2 +3\n\n4"), Some(vec![vec![-1, -2, 3], vec![], vec![4]]));
    assert_eq!(checked_parse("1 2 x"), None);
    assert_eq!(checked_parse(""), Some(vec![]));
}

#[test]
fn day09_solving_twice_gives_the_same() {
    assert_eq!(checked_parse(TEST), checked_parse(TEST));
    let nums = parse(TEST);
    assert_eq!(checked_total(&nums, false), checked_total(&nums, false));
    assert_eq!(checked_total(&nums, true), checked_total(&nums, true));
}
