use rustvent2023::day11::{checked_part_n, expand_axis, parse, part_n, sum_distances};
use rustvent2023::Pos;

const TEST: &str = "...#......
.......#..
#.........
..........
......#...
.#........
.........#
..........
.......#..
#...#.....
";

#[test]
fn day11_test_parse() {
    let gals = parse(TEST);
    println!("{:?}", gals);
    assert!(gals.contains(&(3, 0).into()));
}

#[test]
fn day11_test_part_one() {
    let gals = parse(TEST);
    assert_eq!(374, part_n(&gals, 2));
}

#[test]
fn day11_test_part_two() {
    let gals = parse(TEST);
    assert_eq!(8410, part_n(&gals, 100));
}

#[test]
fn galaxies_are_read_row_by_row() {
    assert_eq!(
        parse("#.#\n...\n.#."),
        vec![Pos { x: 0, y: 0 }, Pos { x: 2, y: 0 }, Pos { x: 1, y: 2 }]
    );
    assert_eq!(parse(""), vec![]);
    assert_eq!(parse("...\n"), vec![]);
}

#[test]
fn empty_lines_before_a_coordinate_move_it() {
    // lines 1 and 3 are empty; the line of the greatest coordinate is not looked at
    assert_eq!(expand_axis(&vec![0, 2, 4], 2), Some(vec![0, 3, 6]));
    assert_eq!(expand_axis(&vec![0, 2, 4], 10), Some(vec![0, 11, 22]));
    assert_eq!(expand_axis(&vec![4, 0, 2], 1), Some(vec![4, 0, 2]));
    assert_eq!(expand_axis(&vec![3], 2), Some(vec![6]));
    assert_eq!(expand_axis(&vec![-3, -1], 2), Some(vec![-3, -1]));
    assert_eq!(expand_axis(&vec![0, 2], isize::MAX), None);
    assert_eq!(expand_axis(&vec![0, 2], isize::MIN), None);
}

#[test]
fn distances_add_up_over_all_pairs() {
    let pts = vec![Pos { x: 0, y: 0 }, Pos { x: 3, y: 4 }, Pos { x: -1, y: 1 }];
    assert_eq!(sum_distances(&pts), Some(7 + 2 + 7));
    assert_eq!(sum_distances(&vec![]), Some(0));
    assert_eq!(sum_distances(&vec![Pos { x: 5, y: 5 }]), Some(0));
    assert_eq!(
        sum_distances(&vec![Pos { x: isize::MIN, y: 0 }, Pos { x: 1, y: 0 }]),
        None
    );
}

#[test]
fn no_galaxy_gives_no_answer() {
    assert_eq!(checked_part_n(&vec![], 2), None);
    assert_eq!(checked_part_n(&vec![Pos { x: 1, y: 1 }], 2), Some(0));
}

#[test]
fn day11_solving_twice_gives_the_same() {
    let gals = parse(TEST);
    assert_eq!(parse(TEST), gals);
    assert_eq!(checked_part_n(&gals, 1000000), checked_part_n(&gals, 1000000));
    assert_eq!(checked_part_n(&gals, 10), Some(1030));
}
