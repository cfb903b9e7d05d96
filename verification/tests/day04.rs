use rustvent2023::day04::{
    checked_parse, count_wins, list, parse, part_one, part_two, Card, ParseError,
};

const TEST: &str = "Card 1: 41 48 83 86 17 | 83 86  6 31 17  9 48 53
Card 2: 13 32 20 16 61 | 61 30 68 82 17 32 24 19
Card 3:  1 21 53 59 44 | 69 82 63 72 16 21 14  1
Card 4: 41 92 73 84 69 | 59 84 76 51 58  5 54 83
Card 5: 87 83 26 28 32 | 88 30 70 12 93 22 82 36
Card 6: 31 18 13 56 72 | 74 77 10 23 35 67 36 11";

fn cs(s: &str) -> Vec<char> {
    s.chars().collect()
}

fn card(winning: Vec<usize>, numbers: Vec<usize>) -> Card {
    Card { id: 1, winning, numbers }
}

#[test]
fn day04_test_parse() {
    assert_eq!(
        parse(TEST)[0],
        Card {
            id: 1,
            winning: vec![41, 48, 83, 86, 17],
            numbers: vec![83, 86, 6, 31, 17, 9, 48, 53]
        }
    );
}

#[test]
fn day04_test_part_one() {
    let input = parse(TEST);
    assert_eq!(part_one(&input), 13);
}

#[test]
fn day04_test_part_two() {
    let input = parse(TEST);
    assert_eq!(part_two(&input), 30);
}

#[test]
fn a_list_passes_over_what_is_no_number() {
    assert_eq!(list(&cs("  1 21   53 ")), vec![1, 21, 53]);
    assert_eq!(list(&cs("")), Vec::<usize>::new());
    assert_eq!(list(&cs("7 99999999999999999999999 8")), vec![7, 8]);
}

#[test]
fn card_errors() {
    assert_eq!(Card::from_str("Card x: 1 | 2"), Err(ParseError::NoCard));
    assert_eq!(Card::from_str(""), Err(ParseError::NoCard));
    assert_eq!(
        Card::from_str("Card 99999999999999999999999: 1 | 2"),
        Err(ParseError::Number)
    );
    assert_eq!(ParseError::NoCard.message(), "Not a valid card description.");
    assert!(checked_parse("Card 1: 1 | 2\nnothing").is_none());
    assert_eq!(checked_parse("").unwrap(), vec![]);
}

#[test]
fn points_double_with_each_win() {
    assert_eq!(part_one(&vec![card(vec![1, 2, 3], vec![9])]), 0);
    assert_eq!(part_one(&vec![card(vec![1, 2, 3], vec![1])]), 1);
    assert_eq!(part_one(&vec![card(vec![1, 2, 3], vec![1, 2])]), 2);
    assert_eq!(part_one(&vec![card(vec![1, 2, 3], vec![1, 2, 3])]), 4);
    assert_eq!(part_one(&vec![card(vec![1, 2, 3], vec![1, 1, 1, 1])]), 8);
    assert_eq!(part_one(&vec![]), 0);
}

#[test]
fn a_number_held_twice_wins_twice() {
    assert_eq!(count_wins(&card(vec![5], vec![5, 5, 6])), 2);
    assert_eq!(count_wins(&card(vec![], vec![5])), 0);
}

#[test]
fn copies_stop_at_the_last_card() {
    let all = vec![card(vec![1], vec![1, 1, 1, 1]), card(vec![1], vec![1]), card(vec![1], vec![2])];
    // card 1 reaches cards 2 and 3; card 2, with two instances, reaches card 3
    assert_eq!(part_two(&all), 1 + 2 + 4);
    assert_eq!(part_two(&vec![]), 0);
    assert_eq!(part_two(&vec![card(vec![1], vec![1])]), 1);
}

#[test]
fn day04_parsing_twice_gives_the_same() {
    assert_eq!(checked_parse(TEST), checked_parse(TEST));
    let cards = parse(TEST);
    assert_eq!(part_one(&cards), part_one(&cards));
    assert_eq!(part_two(&cards), part_two(&cards));
}

#[test]
fn day04_numbers_that_do_not_fit() {
    let many = card(vec![1], vec![1; 70]);
    assert_eq!(rustvent2023::day04::checked_part_one(&vec![many]), None);
    let all: Vec<Card> = (0..70).map(|_| card(vec![1], vec![1; 70])).collect();
    assert_eq!(rustvent2023::day04::checked_part_two(&all), None);
    assert_eq!(rustvent2023::day04::checked_part_one(&parse(TEST)), Some(13));
    assert_eq!(rustvent2023::day04::checked_part_two(&parse(TEST)), Some(30));
}
