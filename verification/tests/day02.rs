use rustvent2023::day02::{
    checked_parse, parse, part_one, part_two, Game, Outcome, ParseError,
};

const TEST: &str = "Game 1: 3 blue, 4 red; 1 red, 2 green, 6 blue; 2 green
Game 2: 1 blue, 2 green; 3 green, 4 blue, 1 red; 1 green, 1 blue
Game 3: 8 green, 6 blue, 20 red; 5 blue, 4 red, 13 green; 5 green, 1 red
Game 4: 1 green, 3 red, 6 blue; 3 green, 6 red; 3 green, 15 blue, 14 red
Game 5: 6 red, 1 blue, 3 green; 2 blue, 1 red, 2 green";

#[test]
fn day02_test_parse() {
    assert_eq!(
        parse(TEST)[0],
        Game {
            id: 1,
            outcomes: vec![
                Outcome {
                    nred: 4,
                    ngreen: 0,
                    nblue: 3
                },
                Outcome {
                    nred: 1,
                    ngreen: 2,
                    nblue: 6
                },
                Outcome {
                    nred: 0,
                    ngreen: 2,
                    nblue: 0
                }
            ]
        }
    );
}

#[test]
fn day02_test_part_one() {
    let game = parse(TEST);
    assert_eq!(part_one(&game), 8);
}

#[test]
fn day02_test_part_two() {
    let game = parse(TEST);
    assert_eq!(part_two(&game), 2286);
}

#[test]
fn an_outcome_adds_up_each_colour() {
    assert_eq!(
        Outcome::from_str(" 3 blue, 4 red, 2 blue"),
        Ok(Outcome { nred: 4, ngreen: 0, nblue: 5 })
    );
    assert_eq!(Outcome::from_str("12 green"), Ok(Outcome { nred: 0, ngreen: 12, nblue: 0 }));
}

#[test]
fn outcome_errors() {
    assert_eq!(Outcome::from_str(""), Err(ParseError::NoOutcome));
    assert_eq!(Outcome::from_str("3 yellow"), Err(ParseError::NoOutcome));
    assert_eq!(
        Outcome::from_str("99999999999999999999999 red"),
        Err(ParseError::Number)
    );
    assert_eq!(
        Outcome::from_str("18446744073709551615 red, 1 red"),
        Err(ParseError::TooMany)
    );
    assert_eq!(ParseError::NoOutcome.message(), "Not a valid box description");
}

#[test]
fn day02_game_errors() {
    assert_eq!(Game::from_str("Game x: 3 blue"), Err(ParseError::NoGame));
    assert_eq!(Game::from_str(""), Err(ParseError::NoGame));
    assert_eq!(
        Game::from_str("Game 99999999999999999999999: 3 blue"),
        Err(ParseError::Number)
    );
    assert_eq!(Game::from_str("Game 1: 3 blue;"), Err(ParseError::NoOutcome));
    assert_eq!(ParseError::NoGame.message(), "Not a valid game description");
    assert!(checked_parse("Game 1: 3 blue\nnothing").is_none());
    assert_eq!(checked_parse("").unwrap(), vec![]);
}

#[test]
fn a_game_is_found_anywhere_in_its_line() {
    assert_eq!(
        Game::from_str("the Game 7: 1 red, 2 blue; 3 green and more"),
        Ok(Game {
            id: 7,
            outcomes: vec![
                Outcome { nred: 1, ngreen: 0, nblue: 2 },
                Outcome { nred: 0, ngreen: 3, nblue: 0 }
            ]
        })
    );
}

#[test]
fn limits_are_inclusive() {
    let ok = Game { id: 3, outcomes: vec![Outcome { nred: 12, ngreen: 13, nblue: 14 }] };
    let red = Game { id: 5, outcomes: vec![Outcome { nred: 13, ngreen: 0, nblue: 0 }] };
    let green = Game { id: 7, outcomes: vec![Outcome { nred: 0, ngreen: 14, nblue: 0 }] };
    let blue = Game { id: 11, outcomes: vec![Outcome { nred: 0, ngreen: 0, nblue: 15 }] };
    let none = Game { id: 13, outcomes: vec![] };
    assert_eq!(part_one(&vec![ok, red, green, blue, none]), 16);
}

#[test]
fn the_power_is_the_product_of_the_maxima() {
    let g = Game {
        id: 1,
        outcomes: vec![
            Outcome { nred: 4, ngreen: 0, nblue: 3 },
            Outcome { nred: 1, ngreen: 2, nblue: 6 },
            Outcome { nred: 0, ngreen: 2, nblue: 0 },
        ],
    };
    assert_eq!(part_two(&vec![g]), 48);
    assert_eq!(part_two(&vec![Game { id: 1, outcomes: vec![] }]), 0);
    assert_eq!(part_two(&vec![]), 0);
}

#[test]
fn day02_parsing_twice_gives_the_same() {
    assert_eq!(checked_parse(TEST), checked_parse(TEST));
    let games = parse(TEST);
    assert_eq!(part_one(&games), part_one(&games));
    assert_eq!(part_two(&games), part_two(&games));
}

#[test]
fn day02_sums_that_do_not_fit() {
    let big = Game { id: usize::MAX, outcomes: vec![] };
    let one = Game { id: 1, outcomes: vec![] };
    assert_eq!(rustvent2023::day02::checked_part_one(&vec![big, one]), None);
    let g = Game {
        id: 1,
        outcomes: vec![Outcome { nred: usize::MAX, ngreen: 2, nblue: 0 }],
    };
    assert_eq!(rustvent2023::day02::checked_part_two(&vec![g]), None);
    assert_eq!(rustvent2023::day02::checked_part_two(&parse(TEST)), Some(2286));
    assert_eq!(rustvent2023::day02::checked_part_one(&parse(TEST)), Some(8));
}
