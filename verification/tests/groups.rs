use rustvent2023::day02::{count, count_all, game_from, Outcome, ParseError};
use rustvent2023::day03::{number_from, numbers_of_line, Number};
use rustvent2023::day04::card_from;
use rustvent2023::day08::node_from;
use rustvent2023::day02::OUTCOME_PATTERN;
use rustvent2023::pattern::{Group, Pattern};

fn group(start: usize, text: &str) -> Option<Group> {
    Some(Group { start, end: start + text.len(), text: text.chars().collect() })
}

fn outcomes() -> Pattern {
    Pattern::new(OUTCOME_PATTERN).unwrap()
}

const NONE: Outcome = Outcome { nred: 0, ngreen: 0, nblue: 0 };

#[test]
fn counts_from_the_groups_of_a_match() {
    let m = vec![group(0, "3 blue"), group(0, "3"), group(2, "blue")];
    assert_eq!(count(NONE, &m), Ok(Outcome { nred: 0, ngreen: 0, nblue: 3 }));
    let m = vec![group(0, "3 red"), group(0, "3"), group(2, "red")];
    assert_eq!(
        count(Outcome { nred: 1, ngreen: 2, nblue: 3 }, &m),
        Ok(Outcome { nred: 4, ngreen: 2, nblue: 3 })
    );
    let m = vec![group(0, "3 green"), group(0, "3"), group(2, "green")];
    assert_eq!(count(NONE, &m), Ok(Outcome { nred: 0, ngreen: 3, nblue: 0 }));
}

#[test]
fn matches_that_lack_a_part() {
    assert_eq!(count(NONE, &vec![group(0, "x")]), Err(ParseError::NoNumber));
    assert_eq!(count(NONE, &vec![group(0, "x"), None, group(0, "red")]), Err(ParseError::NoNumber));
    assert_eq!(count(NONE, &vec![group(0, "x"), group(0, "y")]), Err(ParseError::Number));
    assert_eq!(count(NONE, &vec![group(0, "x"), group(0, "7")]), Err(ParseError::NoColor));
    assert_eq!(count(NONE, &vec![group(0, "x"), group(0, "7"), None]), Err(ParseError::NoColor));
    assert_eq!(
        count(NONE, &vec![group(0, "x"), group(0, "7"), group(2, "pink")]),
        Err(ParseError::UnknownColor)
    );
    assert_eq!(game_from(&outcomes(), &vec![group(0, "x")]), Err(ParseError::NoGameNumber));
    assert_eq!(game_from(&outcomes(), &vec![group(0, "x"), group(0, "7")]), Err(ParseError::NoResults));
    assert_eq!(game_from(&outcomes(), &vec![group(0, "x"), group(0, "7"), None]), Err(ParseError::NoResults));
    assert_eq!(
        game_from(&outcomes(), &vec![group(0, "x"), group(0, "q"), group(0, " 1 red")]),
        Err(ParseError::Number)
    );
    assert_eq!(ParseError::Pattern.message(), "Not a valid pattern");
}

#[test]
fn the_first_error_of_several_matches_counts() {
    let good = vec![group(0, "3 blue"), group(0, "3"), group(2, "blue")];
    let bad = vec![group(0, "x"), group(0, "7"), group(2, "pink")];
    let worse = vec![group(0, "x")];
    assert_eq!(
        count_all(&vec![good.clone(), bad, worse]),
        Err(ParseError::UnknownColor)
    );
    assert_eq!(count_all(&vec![]), Ok(NONE));
    assert_eq!(
        count_all(&vec![good.clone(), good]),
        Ok(Outcome { nred: 0, ngreen: 0, nblue: 6 })
    );
}

#[test]
fn numbers_from_the_groups_of_a_match() {
    assert_eq!(
        number_from(4, &vec![group(5, "114"), group(5, "114")]),
        Some(Number { row: 4, start: 5, end: 8, value: 114 })
    );
    assert_eq!(number_from(0, &vec![]), None);
    assert_eq!(number_from(0, &vec![None]), None);
    assert_eq!(number_from(0, &vec![group(0, "12a")]), None);
    assert_eq!(
        numbers_of_line(1, &vec![vec![group(0, "1")], vec![group(2, "22")]]),
        Some(vec![
            Number { row: 1, start: 0, end: 1, value: 1 },
            Number { row: 1, start: 2, end: 4, value: 22 }
        ])
    );
    assert_eq!(numbers_of_line(1, &vec![vec![group(0, "1")], vec![None]]), None);
}

#[test]
fn cards_and_nodes_from_the_groups_of_a_match() {
    let card = card_from(&vec![group(0, "x"), group(5, "3"), group(8, " 1 21 "), group(20, "21  7")])
        .unwrap();
    assert_eq!(card.id, 3);
    assert_eq!(card.winning, vec![1, 21]);
    assert_eq!(card.numbers, vec![21, 7]);
    assert_eq!(
        card_from(&vec![group(0, "x"), group(5, "3"), group(8, "1")]),
        Err(rustvent2023::day04::ParseError::Incomplete)
    );
    assert_eq!(
        card_from(&vec![group(0, "x"), group(5, "3"), None, group(8, "1")]),
        Err(rustvent2023::day04::ParseError::Incomplete)
    );
    assert_eq!(
        card_from(&vec![group(0, "x"), group(5, "z"), group(8, "1"), group(9, "1")]),
        Err(rustvent2023::day04::ParseError::Number)
    );
    assert_eq!(rustvent2023::day04::ParseError::Pattern.message(), "Not a valid pattern");
    let node = node_from(&vec![group(0, "x"), group(0, "AAA"), group(7, "BBB"), group(12, "CCC")])
        .unwrap();
    assert_eq!(node.name, vec!['A', 'A', 'A']);
    assert_eq!(node.left, vec!['B', 'B', 'B']);
    assert_eq!(node.right, vec!['C', 'C', 'C']);
    assert!(node_from(&vec![group(0, "x"), group(0, "AAA"), group(7, "BBB")]).is_none());
    assert!(node_from(&vec![group(0, "x"), None, group(7, "BBB"), group(7, "BBB")]).is_none());
}

#[test]
fn a_game_from_the_groups_of_a_match() {
    let game = game_from(
        &outcomes(),
        &vec![group(0, "x"), group(5, "12"), group(8, " 3 blue, 4 red; 2 green")],
    )
    .unwrap();
    assert_eq!(game.id, 12);
    assert_eq!(
        game.outcomes,
        vec![Outcome { nred: 4, ngreen: 0, nblue: 3 }, Outcome { nred: 0, ngreen: 2, nblue: 0 }]
    );
    assert_eq!(
        game_from(&outcomes(), &vec![group(0, "x"), group(5, "12"), group(8, " 3 blue;")]),
        Err(ParseError::NoOutcome)
    );
}

#[test]
fn patterns_are_compiled_or_refused() {
    assert!(Pattern::new(r"(\d+)").is_some());
    assert!(Pattern::new(r"(\d+").is_none());
    assert!(Pattern::new(OUTCOME_PATTERN).is_some());
    assert!(Pattern::new(rustvent2023::day02::GAME_PATTERN).is_some());
    assert!(Pattern::new(rustvent2023::day03::NUMBER_PATTERN).is_some());
    assert!(Pattern::new(rustvent2023::day04::CARD_PATTERN).is_some());
    assert!(Pattern::new(rustvent2023::day08::NODE_PATTERN).is_some());
}
