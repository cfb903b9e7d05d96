//! Every parser and every solver of this crate is a function: called twice
//! on the same input it gives the same result. Each law below takes an input
//! and two results that the contract of the function in question allows for
//! it, and shows that the two are the same.
use crate::day02::games_view;
use crate::day04::cards_view;
use crate::day07::{hands_view, Card, Card2, Hand};
use crate::day08::{Dir, Network};
use crate::day09::rows;
use crate::day10::Field;
use crate::Pos;
use vstd::prelude::*;

verus! {

/// Day 1: the sum of the numbers of a text is the same each time.
pub proof fn lemma_day01_solves_alike(input: &str, a: usize, b: usize)
    requires
        call_ensures(crate::day01::part_one, (input,), a) && call_ensures(
            crate::day01::part_one,
            (input,),
            b,
        ) || call_ensures(crate::day01::part_two, (input,), a) && call_ensures(
            crate::day01::part_two,
            (input,),
            b,
        ),
    ensures
        a == b,
{
}

/// Day 2: reading a text twice gives the same outcome or the same error.
pub proof fn lemma_day02_outcome_reads_alike(
    input: &str,
    a: Result<crate::day02::Outcome, crate::day02::ParseError>,
    b: Result<crate::day02::Outcome, crate::day02::ParseError>,
)
    requires
        call_ensures(crate::day02::Outcome::from_str, (input,), a),
        call_ensures(crate::day02::Outcome::from_str, (input,), b),
    ensures
        a == b,
{
}

/// Day 2: reading a text twice gives the same game or the same error.
pub proof fn lemma_day02_game_reads_alike(
    input: &str,
    a: Result<crate::day02::Game, crate::day02::ParseError>,
    b: Result<crate::day02::Game, crate::day02::ParseError>,
)
    requires
        call_ensures(crate::day02::Game::from_str, (input,), a),
        call_ensures(crate::day02::Game::from_str, (input,), b),
    ensures
        a is Ok == b is Ok,
        a matches Ok(g) ==> b->Ok_0@ == g@,
        a matches Err(e) ==> b->Err_0 == e,
{
}

/// Day 2: reading a text twice gives the same games.
pub proof fn lemma_day02_reads_alike(
    input: &str,
    a: Vec<crate::day02::Game>,
    b: Vec<crate::day02::Game>,
)
    requires
        call_ensures(crate::day02::parse, (input,), a),
        call_ensures(crate::day02::parse, (input,), b),
    ensures
        games_view(a@) == games_view(b@),
{
}

/// Day 2: each answer is the same each time.
pub proof fn lemma_day02_solves_alike(games: &Vec<crate::day02::Game>, a: usize, b: usize)
    requires
        call_ensures(crate::day02::part_one, (games,), a) && call_ensures(
            crate::day02::part_one,
            (games,),
            b,
        ) || call_ensures(crate::day02::part_two, (games,), a) && call_ensures(
            crate::day02::part_two,
            (games,),
            b,
        ),
    ensures
        a == b,
{
}

/// Day 3: each answer is the same each time.
pub proof fn lemma_day03_solves_alike(input: &str, a: usize, b: usize)
    requires
        call_ensures(crate::day03::part_one, (input,), a) && call_ensures(
            crate::day03::part_one,
            (input,),
            b,
        ) || call_ensures(crate::day03::part_two, (input,), a) && call_ensures(
            crate::day03::part_two,
            (input,),
            b,
        ),
    ensures
        a == b,
{
}

/// Day 4: reading a text twice gives the same card or the same error.
pub proof fn lemma_day04_card_reads_alike(
    input: &str,
    a: Result<crate::day04::Card, crate::day04::ParseError>,
    b: Result<crate::day04::Card, crate::day04::ParseError>,
)
    requires
        call_ensures(crate::day04::Card::from_str, (input,), a),
        call_ensures(crate::day04::Card::from_str, (input,), b),
    ensures
        a is Ok == b is Ok,
        a matches Ok(c) ==> b->Ok_0@ == c@,
        a matches Err(e) ==> b->Err_0 == e,
{
}

/// Day 4: reading a text twice gives the same cards.
pub proof fn lemma_day04_reads_alike(
    input: &str,
    a: Vec<crate::day04::Card>,
    b: Vec<crate::day04::Card>,
)
    requires
        call_ensures(crate::day04::parse, (input,), a),
        call_ensures(crate::day04::parse, (input,), b),
    ensures
        cards_view(a@) == cards_view(b@),
{
}

/// Day 4: each answer is the same each time.
pub proof fn lemma_day04_solves_alike(cards: &Vec<crate::day04::Card>, a: usize, b: usize)
    requires
        call_ensures(crate::day04::part_one, (cards,), a) && call_ensures(
            crate::day04::part_one,
            (cards,),
            b,
        ) || call_ensures(crate::day04::part_two, (cards,), a) && call_ensures(
            crate::day04::part_two,
            (cards,),
            b,
        ),
    ensures
        a == b,
{
}

/// Day 5: reading a text twice gives the same table or the same error.
pub proof fn lemma_day05_mapping_reads_alike(
    input: &str,
    a: Result<crate::day05::Mapping, crate::day05::ParseError>,
    b: Result<crate::day05::Mapping, crate::day05::ParseError>,
)
    requires
        call_ensures(crate::day05::Mapping::from_str, (input,), a),
        call_ensures(crate::day05::Mapping::from_str, (input,), b),
    ensures
        a is Ok == b is Ok,
        a matches Ok(m) ==> b->Ok_0.ranges@ == m.ranges@,
        a matches Err(e) ==> b->Err_0 == e,
{
}

/// Day 5: reading a text twice gives the same puzzle or the same error.
pub proof fn lemma_day05_reads_alike(
    input: &str,
    a: Result<crate::day05::Game, crate::day05::ParseError>,
    b: Result<crate::day05::Game, crate::day05::ParseError>,
)
    requires
        call_ensures(crate::day05::Game::from_str, (input,), a),
        call_ensures(crate::day05::Game::from_str, (input,), b),
    ensures
        a is Ok == b is Ok,
        a matches Ok(g) ==> b->Ok_0@ == g@,
        a matches Err(e) ==> b->Err_0 == e,
{
}

/// Day 5: each answer is the same each time: a least value is the only one.
pub proof fn lemma_day05_solves_alike(game: &crate::day05::Game, a: usize, b: usize)
    requires
        call_ensures(crate::day05::part_one, (game,), a) && call_ensures(
            crate::day05::part_one,
            (game,),
            b,
        ) || call_ensures(crate::day05::part_two, (game,), a) && call_ensures(
            crate::day05::part_two,
            (game,),
            b,
        ),
    ensures
        a == b,
{
}

/// Day 6: reading a text twice gives the same times and distances.
pub proof fn lemma_day06_reads_alike(
    input: &str,
    a: (Vec<usize>, Vec<usize>),
    b: (Vec<usize>, Vec<usize>),
)
    requires
        call_ensures(crate::day06::parse, (input,), a),
        call_ensures(crate::day06::parse, (input,), b),
    ensures
        a.0@ == b.0@,
        a.1@ == b.1@,
{
}

/// Day 6: reading a text twice gives the same time and distance.
pub proof fn lemma_day06_reads_joined_alike(input: &str, a: (usize, usize), b: (usize, usize))
    requires
        call_ensures(crate::day06::parse_part2, (input,), a),
        call_ensures(crate::day06::parse_part2, (input,), b),
    ensures
        a == b,
{
}

/// Day 6: the answer is the same each time.
pub proof fn lemma_day06_solves_alike(time: &Vec<usize>, dist: &Vec<usize>, a: usize, b: usize)
    requires
        call_ensures(crate::day06::part_one, (time, dist), a),
        call_ensures(crate::day06::part_one, (time, dist), b),
    ensures
        a == b,
{
}

/// Day 7: reading a text twice gives the same hands.
pub proof fn lemma_day07_reads_alike(input: &str, a: Vec<Hand<Card>>, b: Vec<Hand<Card>>)
    requires
        call_ensures(crate::day07::parse, (input,), a),
        call_ensures(crate::day07::parse, (input,), b),
    ensures
        hands_view(a@) == hands_view(b@),
{
}

/// Day 7: reading a text twice gives the same hands with jokers.
pub proof fn lemma_day07_reads_jokers_alike(input: &str, a: Vec<Hand<Card2>>, b: Vec<Hand<Card2>>)
    requires
        call_ensures(crate::day07::parse2, (input,), a),
        call_ensures(crate::day07::parse2, (input,), b),
    ensures
        hands_view(a@) == hands_view(b@),
{
}

/// Day 7: the winnings of the first part are the same each time.
pub proof fn lemma_day07_solves_alike(hands: &Vec<Hand<Card>>, a: usize, b: usize)
    requires
        call_ensures(crate::day07::part_one, (hands,), a),
        call_ensures(crate::day07::part_one, (hands,), b),
    ensures
        a == b,
{
}

/// Day 7: the winnings of the second part are the same each time.
pub proof fn lemma_day07_solves_jokers_alike(hands: &Vec<Hand<Card2>>, a: usize, b: usize)
    requires
        call_ensures(crate::day07::part_two, (hands,), a),
        call_ensures(crate::day07::part_two, (hands,), b),
    ensures
        a == b,
{
}

/// Day 8: reading a text twice gives the same commands and network.
pub proof fn lemma_day08_reads_alike(
    input: &str,
    a: (Vec<Dir>, Network),
    b: (Vec<Dir>, Network),
)
    requires
        call_ensures(crate::day08::parse, (input,), a),
        call_ensures(crate::day08::parse, (input,), b),
    ensures
        a.0@ == b.0@,
        a.1@ == b.1@,
{
}

/// Day 8: each answer is the same each time.
pub proof fn lemma_day08_solves_alike(dirs: &Vec<Dir>, map: &Network, a: usize, b: usize)
    requires
        call_ensures(crate::day08::part_one, (dirs, map), a) && call_ensures(
            crate::day08::part_one,
            (dirs, map),
            b,
        ) || call_ensures(crate::day08::part_two_way2, (dirs, map), a) && call_ensures(
            crate::day08::part_two_way2,
            (dirs, map),
            b,
        ),
    ensures
        a == b,
{
}

/// Day 9: reading a text twice gives the same sequences.
pub proof fn lemma_day09_reads_alike(input: &str, a: Vec<Vec<isize>>, b: Vec<Vec<isize>>)
    requires
        call_ensures(crate::day09::parse, (input,), a),
        call_ensures(crate::day09::parse, (input,), b),
    ensures
        rows(a@) == rows(b@),
{
}

/// Day 9: each answer is the same each time.
pub proof fn lemma_day09_solves_alike(nums: &Vec<Vec<isize>>, a: isize, b: isize)
    requires
        call_ensures(crate::day09::part_one, (nums,), a) && call_ensures(
            crate::day09::part_one,
            (nums,),
            b,
        ) || call_ensures(crate::day09::part_two, (nums,), a) && call_ensures(
            crate::day09::part_two,
            (nums,),
            b,
        ),
    ensures
        a == b,
{
}

/// Day 10: reading a text twice gives the same field.
pub proof fn lemma_day10_reads_alike(input: &str, a: Field, b: Field)
    requires
        call_ensures(Field::from_str, (input,), a),
        call_ensures(Field::from_str, (input,), b),
    ensures
        a.tiles@ == b.tiles@,
        a.width == b.width,
        a.height == b.height,
        a.start == b.start,
{
}

/// Day 10: each answer is the same each time.
pub proof fn lemma_day10_solves_alike(field: &Field, a: usize, b: usize)
    requires
        call_ensures(crate::day10::part_one, (field,), a) && call_ensures(
            crate::day10::part_one,
            (field,),
            b,
        ) || call_ensures(crate::day10::part_two, (field,), a) && call_ensures(
            crate::day10::part_two,
            (field,),
            b,
        ),
    ensures
        a == b,
{
}

/// Day 11: reading a text twice gives the same galaxies.
pub proof fn lemma_day11_reads_alike(input: &str, a: Vec<Pos>, b: Vec<Pos>)
    requires
        call_ensures(crate::day11::parse, (input,), a),
        call_ensures(crate::day11::parse, (input,), b),
    ensures
        a@ == b@,
{
}

/// Day 11: the answer is the same each time.
pub proof fn lemma_day11_solves_alike(gals: &Vec<Pos>, expand: isize, a: usize, b: usize)
    requires
        call_ensures(crate::day11::part_n, (gals, expand), a),
        call_ensures(crate::day11::part_n, (gals, expand), b),
    ensures
        a == b,
{
}

} // verus!
