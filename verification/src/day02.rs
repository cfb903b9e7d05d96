//! Day 2: games of cubes drawn from a bag, each game a list of outcomes
//! that count the red, green and blue cubes shown.
use crate::pattern::{
    captures, captures_iter, groups_view, matches_view, regex_accepts, regex_captures,
    regex_captures_iter, string_of, Found, Group, Pattern,
};
use crate::text::{chars_of, lines, lines_of, parse_usize, split, split_on, usize_of, views};
use vstd::prelude::*;

verus! {

/// The pattern of one count of cubes: a number and a colour.
pub const OUTCOME_PATTERN: &'static str = r"(?<number>\d+) (?<color>red|blue|green)";

/// The pattern of a game: its number, then its outcomes.
pub const GAME_PATTERN: &'static str =
    r"Game (?<gn>\d+):(?<results>(( \d+ (red|blue|green),?)+;?)+)";

/// Why a text could not be read.
#[derive(Debug, Clone, Copy, PartialEq, Eq)]
pub enum ParseError {
    /// A pattern was not accepted.
    Pattern,
    /// No count of cubes was found.
    NoOutcome,
    /// A match holds no number.
    NoNumber,
    /// A number does not fit `usize`.
    Number,
    /// A match holds no colour.
    NoColor,
    /// A colour is none of red, green and blue.
    UnknownColor,
    /// The cubes of one colour add up beyond `usize`.
    TooMany,
    /// No game was found.
    NoGame,
    /// A game holds no number.
    NoGameNumber,
    /// A game holds no outcomes.
    NoResults,
}

impl ParseError {
    /// The description of the error.
    pub open spec fn description(&self) -> Seq<char> {
        match self {
            ParseError::Pattern => "Not a valid pattern"@,
            ParseError::NoOutcome => "Not a valid box description"@,
            ParseError::NoNumber => "no number match"@,
            ParseError::Number => "number too large to fit in target type"@,
            ParseError::NoColor => "no color match"@,
            ParseError::UnknownColor => "Nooo"@,
            ParseError::TooMany => "too many cubes"@,
            ParseError::NoGame => "Not a valid game description"@,
            ParseError::NoGameNumber => "No game number found"@,
            ParseError::NoResults => "Wrong formatting"@,
        }
    }

    /// A description of the error.
    pub fn message(&self) -> (s: &'static str)
        ensures
            s@ == self.description(),
    {
        match self {
            ParseError::Pattern => "Not a valid pattern",
            ParseError::NoOutcome => "Not a valid box description",
            ParseError::NoNumber => "no number match",
            ParseError::Number => "number too large to fit in target type",
            ParseError::NoColor => "no color match",
            ParseError::UnknownColor => "Nooo",
            ParseError::TooMany => "too many cubes",
            ParseError::NoGame => "Not a valid game description",
            ParseError::NoGameNumber => "No game number found",
            ParseError::NoResults => "Wrong formatting",
        }
    }
}

/// What one draw from the bag showed: the numbers of red, green and blue
/// cubes.
#[derive(Debug, Clone, Copy, PartialEq, Eq)]
pub struct Outcome {
    pub nred: usize,
    pub ngreen: usize,
    pub nblue: usize,
}

/// A game: its number and its outcomes in order.
#[derive(Debug, PartialEq, Eq)]
pub struct Game {
    pub id: usize,
    pub outcomes: Vec<Outcome>,
}

/// The mathematical content of a [`Game`].
pub struct GameView {
    pub id: usize,
    pub outcomes: Seq<Outcome>,
}

impl View for Game {
    type V = GameView;

    open spec fn view(&self) -> GameView {
        GameView { id: self.id, outcomes: self.outcomes@ }
    }
}

/// The text of group `i` of a match, if the group took part in it.
pub open spec fn group_text(groups: Seq<Option<Found>>, i: int) -> Option<Seq<char>> {
    if 0 <= i < groups.len() && groups[i] is Some {
        Some(groups[i]->0.text)
    } else {
        None
    }
}

/// `acc` with the count of one match added: group 1 is the number, group 2
/// the colour.
pub open spec fn counted(acc: Outcome, groups: Seq<Option<Found>>) -> Result<Outcome, ParseError> {
    match group_text(groups, 1) {
        None => Err(ParseError::NoNumber),
        Some(number) => match usize_of(number) {
            None => Err(ParseError::Number),
            Some(n) => match group_text(groups, 2) {
                None => Err(ParseError::NoColor),
                Some(color) => if color == "red"@ {
                    if acc.nred + n <= usize::MAX {
                        Ok(Outcome { nred: (acc.nred + n) as usize, ..acc })
                    } else {
                        Err(ParseError::TooMany)
                    }
                } else if color == "blue"@ {
                    if acc.nblue + n <= usize::MAX {
                        Ok(Outcome { nblue: (acc.nblue + n) as usize, ..acc })
                    } else {
                        Err(ParseError::TooMany)
                    }
                } else if color == "green"@ {
                    if acc.ngreen + n <= usize::MAX {
                        Ok(Outcome { ngreen: (acc.ngreen + n) as usize, ..acc })
                    } else {
                        Err(ParseError::TooMany)
                    }
                } else {
                    Err(ParseError::UnknownColor)
                },
            },
        },
    }
}

/// The counts of the first `k` matches added up, or the first error met.
pub open spec fn counted_upto(found: Seq<Seq<Option<Found>>>, k: int) -> Result<
    Outcome,
    ParseError,
>
    decreases k,
{
    if k <= 0 {
        Ok(Outcome { nred: 0, ngreen: 0, nblue: 0 })
    } else {
        match counted_upto(found, k - 1) {
            Ok(acc) => counted(acc, found[k - 1]),
            Err(e) => Err(e),
        }
    }
}

/// The outcome that a text writes, as the accepted outcome pattern finds
/// it: the counts of all its matches added up by colour. A text without a
/// match is an error.
pub open spec fn outcome_in(s: Seq<char>) -> Result<Outcome, ParseError> {
    match regex_captures(OUTCOME_PATTERN@, s) {
        Some(_) => {
            let found = regex_captures_iter(OUTCOME_PATTERN@, s);
            counted_upto(found, found.len() as int)
        },
        None => Err(ParseError::NoOutcome),
    }
}

/// The outcome that a text writes; an error also where the outcome pattern
/// is not accepted.
pub open spec fn outcome_of(s: Seq<char>) -> Result<Outcome, ParseError> {
    if regex_accepts(OUTCOME_PATTERN@) {
        outcome_in(s)
    } else {
        Err(ParseError::Pattern)
    }
}

/// The outcomes that the first `k` of `pieces` write, or the first error.
pub open spec fn outcomes_upto(pieces: Seq<Seq<char>>, k: int) -> Result<Seq<Outcome>, ParseError>
    decreases k,
{
    if k <= 0 {
        Ok(Seq::empty())
    } else {
        match outcomes_upto(pieces, k - 1) {
            Ok(before) => match outcome_in(pieces[k - 1]) {
                Ok(o) => Ok(before.push(o)),
                Err(e) => Err(e),
            },
            Err(e) => Err(e),
        }
    }
}

/// The game that the groups of a match of the game pattern write: group 1
/// is its number, group 2 its outcomes, separated by `;`.
pub open spec fn game_from_groups(groups: Seq<Option<Found>>) -> Result<GameView, ParseError> {
    match group_text(groups, 1) {
        None => Err(ParseError::NoGameNumber),
        Some(number) => match usize_of(number) {
            None => Err(ParseError::Number),
            Some(id) => match group_text(groups, 2) {
                None => Err(ParseError::NoResults),
                Some(results) => {
                    let pieces = split(results, ";"@);
                    match outcomes_upto(pieces, pieces.len() as int) {
                        Ok(outcomes) => Ok(GameView { id, outcomes }),
                        Err(e) => Err(e),
                    }
                },
            },
        },
    }
}

/// The game that a text writes, as the accepted patterns find it: that of
/// the first match of the game pattern.
pub open spec fn game_in(s: Seq<char>) -> Result<GameView, ParseError> {
    match regex_captures(GAME_PATTERN@, s) {
        Some(groups) => game_from_groups(groups),
        None => Err(ParseError::NoGame),
    }
}

/// Whether both patterns are accepted.
pub open spec fn patterns_accepted() -> bool {
    regex_accepts(GAME_PATTERN@) && regex_accepts(OUTCOME_PATTERN@)
}

/// The game that a text writes; an error also where a pattern is not
/// accepted.
pub open spec fn game_of(s: Seq<char>) -> Result<GameView, ParseError> {
    if patterns_accepted() {
        game_in(s)
    } else {
        Err(ParseError::Pattern)
    }
}

fn text_of(groups: &Vec<Option<Group>>, i: usize) -> (r: Option<&Vec<char>>)
    ensures
        match r {
            Some(t) => group_text(groups_view(groups@), i as int) == Some(t@),
            None => group_text(groups_view(groups@), i as int) is None,
        },
{
    if i >= groups.len() {
        return None;
    }
    assert(groups_view(groups@)[i as int] == match groups@[i as int] {
        Some(g) => Some(g@),
        None => None,
    });
    match &groups[i] {
        Some(g) => Some(&g.text),
        None => None,
    }
}

/// Adds the count of one match to `acc`.
pub fn count(acc: Outcome, groups: &Vec<Option<Group>>) -> (r: Result<Outcome, ParseError>)
    ensures
        r == counted(acc, groups_view(groups@)),
{
    let number = match text_of(groups, 1) {
        Some(t) => t,
        None => {
            return Err(ParseError::NoNumber);
        },
    };
    let n = match parse_usize(number) {
        Some(n) => n,
        None => {
            return Err(ParseError::Number);
        },
    };
    let color = match text_of(groups, 2) {
        Some(t) => t,
        None => {
            return Err(ParseError::NoColor);
        },
    };
    if crate::text::same(color, &chars_of("red")) {
        match acc.nred.checked_add(n) {
            Some(nred) => Ok(Outcome { nred, ngreen: acc.ngreen, nblue: acc.nblue }),
            None => Err(ParseError::TooMany),
        }
    } else if crate::text::same(color, &chars_of("blue")) {
        match acc.nblue.checked_add(n) {
            Some(nblue) => Ok(Outcome { nred: acc.nred, ngreen: acc.ngreen, nblue }),
            None => Err(ParseError::TooMany),
        }
    } else if crate::text::same(color, &chars_of("green")) {
        match acc.ngreen.checked_add(n) {
            Some(ngreen) => Ok(Outcome { nred: acc.nred, ngreen, nblue: acc.nblue }),
            None => Err(ParseError::TooMany),
        }
    } else {
        Err(ParseError::UnknownColor)
    }
}

/// Adds up the counts of the matches `found`.
pub fn count_all(found: &Vec<Vec<Option<Group>>>) -> (r: Result<Outcome, ParseError>)
    ensures
        r == counted_upto(matches_view(found@), found.len() as int),
{
    let mut acc: Result<Outcome, ParseError> = Ok(Outcome { nred: 0, ngreen: 0, nblue: 0 });
    let mut k: usize = 0;
    while k < found.len()
        invariant
            k <= found.len(),
            acc == counted_upto(matches_view(found@), k as int),
        decreases found.len() - k,
    {
        assert(matches_view(found@)[k as int] == groups_view(found@[k as int]@));
        acc =
        match acc {
            Ok(o) => count(o, &found[k]),
            Err(e) => Err(e),
        };
        k += 1;
    }
    acc
}

fn outcome_with(pattern: &Pattern, s: &Vec<char>) -> (r: Result<Outcome, ParseError>)
    requires
        pattern@ == OUTCOME_PATTERN@,
    ensures
        r == outcome_in(s@),
{
    let text = string_of(s);
    match captures(pattern, text.as_str()) {
        Some(_) => count_all(&captures_iter(pattern, text.as_str())),
        None => Err(ParseError::NoOutcome),
    }
}

impl Outcome {
    /// Reads an outcome: the counts found in `s`, added up by colour.
    pub fn from_str(s: &str) -> (r: Result<Outcome, ParseError>)
        ensures
            r == outcome_of(s@),
    {
        match Pattern::new(OUTCOME_PATTERN) {
            Some(pattern) => outcome_with(&pattern, &chars_of(s)),
            None => Err(ParseError::Pattern),
        }
    }
}

/// Reads a game from the groups of a match of the game pattern; `outcome`
/// is the compiled outcome pattern.
#[verifier::loop_isolation(false)]
pub fn game_from(outcome: &Pattern, groups: &Vec<Option<Group>>) -> (r: Result<Game, ParseError>)
    requires
        outcome@ == OUTCOME_PATTERN@,
    ensures
        match r {
            Ok(g) => game_from_groups(groups_view(groups@)) == Ok::<GameView, ParseError>(g@),
            Err(e) => game_from_groups(groups_view(groups@)) == Err::<GameView, ParseError>(e),
        },
{
    let number = match text_of(groups, 1) {
        Some(t) => t,
        None => {
            return Err(ParseError::NoGameNumber);
        },
    };
    let id = match parse_usize(number) {
        Some(n) => n,
        None => {
            return Err(ParseError::Number);
        },
    };
    let results = match text_of(groups, 2) {
        Some(t) => t,
        None => {
            return Err(ParseError::NoResults);
        },
    };
    proof {
        reveal_strlit(";");
    }
    let pieces = split_on(results, &chars_of(";"));
    let mut outcomes: Vec<Outcome> = Vec::new();
    let mut k: usize = 0;
    while k < pieces.len()
        invariant
            k <= pieces.len(),
            outcomes_upto(views(pieces@), k as int) == Ok::<Seq<Outcome>, ParseError>(outcomes@),
        decreases pieces.len() - k,
    {
        assert(views(pieces@)[k as int] == pieces@[k as int]@);
        match outcome_with(outcome, &pieces[k]) {
            Ok(o) => {
                outcomes.push(o);
            },
            Err(e) => {
                proof {
                    lemma_outcomes_error_stays(views(pieces@), k + 1, pieces.len() as int);
                }
                return Err(e);
            },
        }
        k += 1;
    }
    Ok(Game { id, outcomes })
}

/// Once an error is met it stays the result.
pub proof fn lemma_outcomes_error_stays(pieces: Seq<Seq<char>>, k: int, n: int)
    requires
        0 <= k <= n,
        outcomes_upto(pieces, k) is Err,
    ensures
        outcomes_upto(pieces, n) == outcomes_upto(pieces, k),
    decreases n - k,
{
    if k < n {
        lemma_outcomes_error_stays(pieces, k, n - 1);
    }
}

fn game_with(game: &Pattern, outcome: &Pattern, s: &str) -> (r: Result<Game, ParseError>)
    requires
        game@ == GAME_PATTERN@,
        outcome@ == OUTCOME_PATTERN@,
    ensures
        match r {
            Ok(g) => game_in(s@) == Ok::<GameView, ParseError>(g@),
            Err(e) => game_in(s@) == Err::<GameView, ParseError>(e),
        },
{
    match captures(game, s) {
        Some(groups) => game_from(outcome, &groups),
        None => Err(ParseError::NoGame),
    }
}

impl Game {
    /// Reads a game.
    pub fn from_str(s: &str) -> (r: Result<Game, ParseError>)
        ensures
            match r {
                Ok(g) => game_of(s@) == Ok::<GameView, ParseError>(g@),
                Err(e) => game_of(s@) == Err::<GameView, ParseError>(e),
            },
    {
        match (Pattern::new(GAME_PATTERN), Pattern::new(OUTCOME_PATTERN)) {
            (Some(game), Some(outcome)) => game_with(&game, &outcome, s),
            _ => Err(ParseError::Pattern),
        }
    }
}

/// The views of the games of a vector.
pub open spec fn games_view(games: Seq<Game>) -> Seq<GameView> {
    games.map_values(|g: Game| g@)
}

/// The games that a text writes, one per line; `None` where a pattern is
/// not accepted or a line writes no game.
pub open spec fn parse_of(input: Seq<char>) -> Option<Seq<GameView>> {
    let ls = lines_of(input);
    if patterns_accepted() && forall|i: int|
        0 <= i < ls.len() ==> game_in(#[trigger] ls[i]) is Ok {
        Some(Seq::new(ls.len(), |i: int| game_in(ls[i])->Ok_0))
    } else {
        None
    }
}

fn try_parse(input: &str) -> (r: Option<Vec<Game>>)
    ensures
        match r {
            Some(games) => parse_of(input@) == Some(games_view(games@)),
            None => parse_of(input@) is None,
        },
{
    let (game, outcome) = match (Pattern::new(GAME_PATTERN), Pattern::new(OUTCOME_PATTERN)) {
        (Some(game), Some(outcome)) => (game, outcome),
        _ => {
            return None;
        },
    };
    let ls = lines(&chars_of(input));
    let mut games: Vec<Game> = Vec::new();
    let mut i: usize = 0;
    while i < ls.len()
        invariant
            i <= ls.len(),
            game@ == GAME_PATTERN@,
            outcome@ == OUTCOME_PATTERN@,
            patterns_accepted(),
            views(ls@) == lines_of(input@),
            games.len() == i,
            forall|j: int|
                0 <= j < i ==> game_in(#[trigger] views(ls@)[j]) == Ok::<GameView, ParseError>(
                    games@[j]@,
                ),
        decreases ls.len() - i,
    {
        assert(views(ls@)[i as int] == ls@[i as int]@);
        let line = string_of(&ls[i]);
        match game_with(&game, &outcome, line.as_str()) {
            Ok(g) => {
                games.push(g);
            },
            Err(_) => {
                assert(game_in(lines_of(input@)[i as int]) is Err);
                return None;
            },
        }
        i += 1;
    }
    proof {
        let all = lines_of(input@);
        assert forall|j: int| 0 <= j < all.len() implies game_in(#[trigger] all[j]) is Ok by {
            assert(game_in(views(ls@)[j]) is Ok);
        }
        assert forall|j: int| 0 <= j < games@.len() implies games_view(games@)[j] == game_in(
            all[j],
        )->Ok_0 by {
            assert(game_in(views(ls@)[j]) == Ok::<GameView, ParseError>(games@[j]@));
        }
        assert(games_view(games@) =~= Seq::new(all.len(), |i: int| game_in(all[i])->Ok_0));
    }
    Some(games)
}

/// Reads the games of a text.
pub fn parse(input: &str) -> (games: Vec<Game>)
    requires
        parse_of(input@) is Some,
    ensures
        parse_of(input@) == Some(games_view(games@)),
{
    try_parse(input).unwrap()
}

/// Reads the games of a text, where it writes games. What the patterns find
/// can only be learnt by searching, so the searches are made and looked at
/// first, and [`parse`] is called only where every line writes a game.
/// `None` where a pattern is not accepted or a line cannot be read as a
/// game.
pub fn checked_parse(input: &str) -> (r: Option<Vec<Game>>)
    ensures
        match r {
            Some(games) => parse_of(input@) == Some(games_view(games@)),
            None => parse_of(input@) is None,
        },
{
    if try_parse(input).is_some() {
        Some(parse(input))
    } else {
        None
    }
}

/// Whether a game is possible with 12 red, 13 green and 14 blue cubes in
/// the bag: whether no outcome shows more of a colour.
pub open spec fn possible(g: GameView) -> bool {
    forall|i: int|
        0 <= i < g.outcomes.len() ==> (#[trigger] g.outcomes[i]).nred <= 12
            && g.outcomes[i].ngreen <= 13 && g.outcomes[i].nblue <= 14
}

/// The sum of the numbers of the possible games among the first `k`.
pub open spec fn possible_sum(games: Seq<GameView>, k: int) -> nat
    decreases k,
{
    if k <= 0 {
        0
    } else {
        possible_sum(games, k - 1) + if possible(games[k - 1]) {
            games[k - 1].id as nat
        } else {
            0
        }
    }
}

/// The sum over fewer games is no greater than the sum over more.
pub proof fn lemma_possible_sum_grows(games: Seq<GameView>, k: int, n: int)
    requires
        k <= n,
    ensures
        possible_sum(games, k) <= possible_sum(games, n),
    decreases n - k,
{
    if k < n {
        lemma_possible_sum_grows(games, k, n - 1);
    }
}

fn is_possible(game: &Game) -> (r: bool)
    ensures
        r == possible(game@),
{
    let mut i: usize = 0;
    while i < game.outcomes.len()
        invariant
            i <= game.outcomes.len(),
            forall|j: int|
                0 <= j < i ==> (#[trigger] game@.outcomes[j]).nred <= 12
                    && game@.outcomes[j].ngreen <= 13 && game@.outcomes[j].nblue <= 14,
        decreases game.outcomes.len() - i,
    {
        let o = &game.outcomes[i];
        if o.nred > 12 || o.ngreen > 13 || o.nblue > 14 {
            assert(game@.outcomes[i as int] == *o);
            return false;
        }
        i += 1;
    }
    true
}

/// The sum of the numbers of the games that are possible with 12 red, 13
/// green and 14 blue cubes: `None` where it does not fit `usize`.
pub fn checked_part_one(input: &Vec<Game>) -> (r: Option<usize>)
    ensures
        r == if possible_sum(games_view(input@), input.len() as int) <= usize::MAX {
            Some(possible_sum(games_view(input@), input.len() as int) as usize)
        } else {
            None
        },
{
    let mut n: usize = 0;
    let mut k: usize = 0;
    while k < input.len()
        invariant
            k <= input.len(),
            n == possible_sum(games_view(input@), k as int),
        decreases input.len() - k,
    {
        proof {
            assert(games_view(input@)[k as int] == input@[k as int]@);
            lemma_possible_sum_grows(games_view(input@), k + 1, input.len() as int);
        }
        if is_possible(&input[k]) {
            match n.checked_add(input[k].id) {
                Some(sum) => {
                    n = sum;
                },
                None => {
                    return None;
                },
            }
        }
        k += 1;
    }
    Some(n)
}

/// The sum of the numbers of the games that are possible with 12 red, 13
/// green and 14 blue cubes.
pub fn part_one(input: &Vec<Game>) -> (n: usize)
    requires
        possible_sum(games_view(input@), input.len() as int) <= usize::MAX,
    ensures
        n == possible_sum(games_view(input@), input.len() as int),
{
    checked_part_one(input).unwrap()
}

/// The colours.
#[derive(Debug, Clone, Copy, PartialEq, Eq)]
pub enum Color {
    Red,
    Green,
    Blue,
}

/// The number of cubes of `color` that an outcome shows.
pub open spec fn shown(o: Outcome, color: Color) -> usize {
    match color {
        Color::Red => o.nred,
        Color::Green => o.ngreen,
        Color::Blue => o.nblue,
    }
}

/// The most cubes of `color` that one of the first `k` outcomes shows; 0
/// for none.
pub open spec fn most(outcomes: Seq<Outcome>, color: Color, k: int) -> usize
    decreases k,
{
    if k <= 0 {
        0
    } else {
        let before = most(outcomes, color, k - 1);
        if shown(outcomes[k - 1], color) > before {
            shown(outcomes[k - 1], color)
        } else {
            before
        }
    }
}

/// The fewest cubes of `color` that make the game possible.
pub open spec fn needed(g: GameView, color: Color) -> usize {
    most(g.outcomes, color, g.outcomes.len() as int)
}

/// The power of a game: the product of the fewest cubes needed of each
/// colour.
pub open spec fn power(g: GameView) -> nat {
    (needed(g, Color::Red) * needed(g, Color::Green) * needed(g, Color::Blue)) as nat
}

/// Whether the power of a game can be worked out within `usize`, red times
/// green first.
pub open spec fn power_fits(g: GameView) -> bool {
    needed(g, Color::Red) * needed(g, Color::Green) <= usize::MAX && power(g) <= usize::MAX
}

/// The sum of the powers of the first `k` games.
pub open spec fn power_sum(games: Seq<GameView>, k: int) -> nat
    decreases k,
{
    if k <= 0 {
        0
    } else {
        power_sum(games, k - 1) + power(games[k - 1])
    }
}

/// The sum of the powers of fewer games is no greater than that of more.
pub proof fn lemma_power_sum_grows(games: Seq<GameView>, k: int, n: int)
    requires
        k <= n,
    ensures
        power_sum(games, k) <= power_sum(games, n),
    decreases n - k,
{
    if k < n {
        lemma_power_sum_grows(games, k, n - 1);
    }
}

/// Whether the powers of all games and their sum can be worked out within
/// `usize`.
pub open spec fn powers_fit(games: Seq<GameView>) -> bool {
    (forall|i: int| 0 <= i < games.len() ==> power_fits(#[trigger] games[i])) && power_sum(
        games,
        games.len() as int,
    ) <= usize::MAX
}

/// The sum of the powers of all games: `None` where a power or the sum
/// does not fit `usize`.
pub fn checked_part_two(input: &Vec<Game>) -> (r: Option<usize>)
    ensures
        r == if powers_fit(games_view(input@)) {
            Some(power_sum(games_view(input@), input.len() as int) as usize)
        } else {
            None
        },
{
    let mut n: usize = 0;
    let mut k: usize = 0;
    while k < input.len()
        invariant
            k <= input.len(),
            n == power_sum(games_view(input@), k as int),
            forall|i: int| 0 <= i < k ==> power_fits(#[trigger] games_view(input@)[i]),
        decreases input.len() - k,
    {
        let game = &input[k];
        let mut nred: usize = 0;
        let mut ngreen: usize = 0;
        let mut nblue: usize = 0;
        let mut i: usize = 0;
        while i < game.outcomes.len()
            invariant
                i <= game.outcomes.len(),
                nred == most(game@.outcomes, Color::Red, i as int),
                ngreen == most(game@.outcomes, Color::Green, i as int),
                nblue == most(game@.outcomes, Color::Blue, i as int),
            decreases game.outcomes.len() - i,
        {
            let o = &game.outcomes[i];
            if o.nred > nred {
                nred = o.nred;
            }
            if o.ngreen > ngreen {
                ngreen = o.ngreen;
            }
            if o.nblue > nblue {
                nblue = o.nblue;
            }
            i += 1;
        }
        proof {
            assert(games_view(input@)[k as int] == game@);
            lemma_power_sum_grows(games_view(input@), k + 1, input.len() as int);
        }
        let power = match nred.checked_mul(ngreen) {
            Some(two) => two.checked_mul(nblue),
            None => None,
        };
        let sum = match power {
            Some(p) => n.checked_add(p),
            None => {
                assert(!power_fits(games_view(input@)[k as int]));
                None
            },
        };
        match sum {
            Some(sum) => {
                n = sum;
            },
            None => {
                return None;
            },
        }
        k += 1;
    }
    Some(n)
}

/// The sum of the powers of all games.
pub fn part_two(input: &Vec<Game>) -> (n: usize)
    requires
        powers_fit(games_view(input@)),
    ensures
        n == power_sum(games_view(input@), input.len() as int),
{
    checked_part_two(input).unwrap()
}

} // verus!
