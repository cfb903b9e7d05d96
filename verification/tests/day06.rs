use rustvent2023::day06::{
    checked_parse, checked_parse_part2, count_ways, parse, parse_part2, part_one, part_two,
};

const TEST: &str = "Time:      7  15   30
Distance:  9  40  200";

#[test]
fn day06_test_parse() {
    let (time, dist) = parse(TEST);
    assert_eq!(time, vec![7, 15, 30]);
    assert_eq!(dist, vec![9, 40, 200]);
}

#[test]
fn test_parse_part2() {
    let (time, dist) = parse_part2(TEST);
    assert_eq!(time, 71530);
    assert_eq!(dist, 940200);
}

#[test]
fn day06_test_part_one() {
    let (time, dist) = parse(TEST);
    assert_eq!(part_one(&time, &dist), 288);
}

#[test]
fn day06_test_part_two() {
    let (time, dist) = parse_part2(TEST);
    assert_eq!(part_two(time, dist), 71503);
}

#[test]
fn ways_to_win_one_race() {
    assert_eq!(count_ways(7, 9), 4);
    assert_eq!(count_ways(15, 40), 8);
    assert_eq!(count_ways(30, 200), 9);
    assert_eq!(count_ways(0, 0), 0);
    assert_eq!(count_ways(1, 0), 0);
    assert_eq!(count_ways(2, 0), 1);
    assert_eq!(count_ways(2, 1), 0);
    assert_eq!(count_ways(71530, 940200), 71503);
}

#[test]
fn races_are_paired_as_far_as_both_lists_go() {
    assert_eq!(part_one(&vec![7, 15, 30], &vec![9, 40]), 32);
    assert_eq!(part_one(&vec![7], &vec![9, 40, 200]), 4);
    assert_eq!(part_one(&vec![], &vec![]), 1);
    assert_eq!(part_one(&vec![7, 1], &vec![9, 0]), 0);
}

#[test]
fn day06_texts_that_are_not_read() {
    assert!(checked_parse("Time: 1 2").is_none());
    assert!(checked_parse("Times: 1 2\nDistance: 3 4").is_none());
    assert!(checked_parse("Time: 1 2\nDistance 3 4").is_none());
    assert!(checked_parse("Time: 1 x\nDistance: 3 4").is_none());
    assert_eq!(checked_parse("Time:\nDistance: 3 4\nmore"), Some((vec![], vec![3, 4])));
    assert!(checked_parse_part2("Time: 1 2").is_none());
    assert!(checked_parse_part2("Time:\nDistance: 3 4").is_none());
    assert!(checked_parse_part2("Time: 1\t2\nDistance: 3 4").is_none());
    assert_eq!(checked_parse_part2("Time: 1 2\nDistance: 3 4"), Some((12, 34)));
}

#[test]
fn day06_parsing_twice_gives_the_same() {
    assert_eq!(checked_parse(TEST), checked_parse(TEST));
    assert_eq!(checked_parse_part2(TEST), checked_parse_part2(TEST));
}

#[test]
fn day06_products_that_do_not_fit() {
    let time = vec![1 << 20; 4];
    let dist = vec![0; 4];
    assert_eq!(rustvent2023::day06::checked_part_one(&time, &dist), None);
    assert_eq!(rustvent2023::day06::checked_part_one(&vec![7, 15, 30], &vec![9, 40, 200]), Some(288));
}
