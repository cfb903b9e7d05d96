use rustvent2023::day05::{containment, part_one, part_two, Game, Mapping, ParseError};
use std::ops::Range;

const TEST: &str = "seeds: 79 14 55 13

seed-to-soil map:
50 98 2
52 50 48

soil-to-fertilizer map:
0 15 37
37 52 2
39 0 15

fertilizer-to-water map:
49 53 8
0 11 42
42 0 7
57 7 4

water-to-light map:
88 18 7
18 25 70

light-to-temperature map:
45 77 23
81 45 19
68 64 13

temperature-to-humidity map:
0 69 1
1 0 69

humidity-to-location map:
60 56 37
56 93 4";

#[test]
fn day05_test_parse() {
    let game = Game::from_str(TEST).unwrap();
    assert_eq!(game.seeds, vec![79, 14, 55, 13]);
    assert_eq!(game.mappings[6].ranges[0].1, Range { start: 60, end: 97 });
}

#[test]
fn day05_test_part_one() {
    let game = Game::from_str(TEST).unwrap();
    assert_eq!(part_one(&game), 35);
}

#[test]
fn day05_test_part_two() {
    let game = Game::from_str(TEST).unwrap();
    assert_eq!(part_two(&game), 46);
}

#[test]
fn containment_splits_in_each_way() {
    let b = Range { start: 10usize, end: 20 };
    assert_eq!(
        containment(&(5..25), &b),
        (Some(10..20), vec![5..10, 20..25])
    );
    assert_eq!(containment(&(12..15), &b), (Some(12..15), vec![]));
    assert_eq!(containment(&(12..25), &b), (Some(12..20), vec![20..25]));
    assert_eq!(containment(&(5..15), &b), (Some(10..15), vec![5..10]));
    assert_eq!(containment(&(0..5), &b), (None, vec![0..5]));
    assert_eq!(containment(&(25..30), &b), (None, vec![25..30]));
}

#[test]
fn containment_gives_the_overlap() {
    let b = Range { start: 10usize, end: 20 };
    // ends exactly with the bounding range
    assert_eq!(containment(&(12..20), &b), (Some(12..20), vec![]));
    assert_eq!(containment(&(5..20), &b), (Some(10..20), vec![5..10]));
    assert_eq!(containment(&(0..10), &(5..10)), (Some(5..10), vec![0..5]));
    // ends exactly where it starts: nothing in common
    assert_eq!(containment(&(5..10), &b), (None, vec![5..10]));
    assert_eq!(containment(&(20..25), &b), (None, vec![20..25]));
    // starts exactly with it
    assert_eq!(containment(&(10..25), &b), (Some(10..20), vec![20..25]));
    assert_eq!(containment(&(10..20), &b), (Some(10..20), vec![]));
}

#[test]
fn ranges_that_hold_nothing() {
    let b = Range { start: 10usize, end: 20 };
    assert_eq!(containment(&(7..7), &b), (None, vec![]));
    assert_eq!(containment(&(15..15), &b), (None, vec![]));
    assert_eq!(containment(&(15..12), &b), (None, vec![]));
    assert_eq!(containment(&(10..20), &(15..15)), (None, vec![10..20]));
    assert_eq!(containment(&(10..20), &(18..12)), (None, vec![10..20]));
}

fn total(ranges: &[Range<usize>]) -> usize {
    ranges.iter().map(|r| r.end - r.start).sum()
}

#[test]
fn splitting_keeps_the_length() {
    let b = Range { start: 10usize, end: 20 };
    for inner in [5..25usize, 12..15, 12..25, 5..15, 0..5, 12..20, 5..20, 5..10, 7..7, 20..30] {
        for bounding in [b.clone(), 0..100, 15..15, 0..5, 19..21] {
            let (covered, rest) = containment(&inner, &bounding);
            let covered = covered.map(|r| r.end - r.start).unwrap_or(0);
            assert_eq!(covered + total(&rest), inner.end - inner.start);
            for piece in rest {
                assert!(inner.start <= piece.start && piece.start < piece.end);
                assert!(piece.end <= inner.end);
                assert!(bounding.is_empty() || piece.end <= bounding.start || bounding.end <= piece.start);
            }
        }
    }
}

#[test]
fn mapping_carries_numbers_and_ranges() {
    let m = Mapping { ranges: vec![(98..100, 50..52), (50..98, 52..100)] };
    assert_eq!(m.map(79), 81);
    assert_eq!(m.map(14), 14);
    assert_eq!(m.map(98), 50);
    assert_eq!(m.map(99), 51);
    assert_eq!(m.map(100), 100);
    let out = m.map_ranges(vec![40..60, 90..105]);
    assert_eq!(out, vec![50..52, 52..62, 92..100, 40..50, 100..105]);
    assert_eq!(total(&out), total(&[40..60, 90..105]));
}

#[test]
fn the_first_rule_that_holds_a_number_carries_it() {
    let m = Mapping { ranges: vec![(0..10, 100..110), (5..15, 200..210)] };
    assert_eq!(m.map(7), 107);
    assert_eq!(m.map(12), 207);
}

#[test]
fn mapping_from_str_skips_the_heading() {
    let m = Mapping::from_str("seed-to-soil map:\n50 98 2\n52 50 48").unwrap();
    assert_eq!(m, Mapping { ranges: vec![(98..100, 50..52), (50..98, 52..100)] });
    assert_eq!(Mapping::from_str("").unwrap(), Mapping { ranges: vec![] });
    assert_eq!(Mapping::from_str("1 2 3").unwrap(), Mapping { ranges: vec![] });
}

#[test]
fn day05_game_errors() {
    assert_eq!(Game::from_str("seed: 1 2"), Err(ParseError::NoSeeds));
    assert_eq!(Game::from_str("seeds: 1 x"), Err(ParseError::Number));
    assert_eq!(Game::from_str("seeds: 1 2\n\nmap:\n1 2"), Err(ParseError::Rule));
    assert_eq!(Game::from_str("seeds: 1 2\n\nmap:\n1 2 z"), Err(ParseError::Rule));
    assert_eq!(
        Game::from_str("seeds: 1 2\n\nmap:\n1 18446744073709551615 1"),
        Err(ParseError::Rule)
    );
    assert_eq!(ParseError::NoSeeds.message(), "Does not start with seed");
}

#[test]
fn a_seed_without_partner_is_not_read() {
    let game = Game::from_str("seeds: 10 2 3\n\nmap:\n100 0 50").unwrap();
    assert_eq!(part_two(&game), 110);
    assert_eq!(part_one(&game), 102);
}

#[test]
fn parsing_twice_gives_the_same() {
    assert_eq!(Game::from_str(TEST), Game::from_str(TEST));
}

#[test]
fn day05_puzzles_without_answer() {
    let game = Game::from_str("seeds: 7\n\nmap:\n100 0 50").unwrap();
    assert_eq!(rustvent2023::day05::checked_part_one(&game), Some(107));
    assert_eq!(rustvent2023::day05::checked_part_two(&game), None);
    let game = Game::from_str("seeds: \n\nmap:\n100 0 50").unwrap();
    assert_eq!(rustvent2023::day05::checked_part_one(&game), None);
    // a rule whose source holds no number carries nothing and always fits
    let game = Game { seeds: vec![1, 2], mappings: vec![Mapping { ranges: vec![(5..1, 0..0)] }] };
    assert!(game.fits());
    assert_eq!(rustvent2023::day05::checked_part_one(&game), Some(1));
    assert_eq!(rustvent2023::day05::checked_part_two(&game), Some(1));
    let far = Mapping { ranges: vec![(0..10, usize::MAX..usize::MAX)] };
    assert!(!far.fits());
    let game = Game { seeds: vec![1, 2], mappings: vec![far] };
    assert_eq!(rustvent2023::day05::checked_part_one(&game), None);
    assert_eq!(rustvent2023::day05::checked_part_two(&game), None);
    let game = Game { seeds: vec![usize::MAX, 2], mappings: vec![] };
    assert!(game.fits());
    assert!(!game.pairs_fit());
    assert_eq!(rustvent2023::day05::checked_part_two(&game), None);
    assert_eq!(rustvent2023::day05::checked_part_one(&game), Some(2));
    let game = Game::from_str(TEST).unwrap();
    assert_eq!(rustvent2023::day05::checked_part_two(&game), Some(46));
}

#[test]
fn a_range_of_no_seeds_is_not_counted() {
    let game = Game::from_str("seeds: 5 0 100 1").unwrap();
    assert!(game.has_seeds());
    assert_eq!(part_two(&game), 100);
    let game = Game::from_str("seeds: 5 0 100 0").unwrap();
    assert!(!game.has_seeds());
    assert_eq!(rustvent2023::day05::checked_part_two(&game), None);
}
