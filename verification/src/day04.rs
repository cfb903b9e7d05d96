//! Day 4: scratch cards, each with winning numbers and the numbers held;
//! the points of the cards, and the number of cards once every win hands out
//! copies of the cards that follow.
use crate::pattern::{
    captures, groups_view, regex_accepts, regex_captures, string_of, Found, Group, Pattern,
};
use crate::text::{
    chars_of, lines, lines_of, parse_usize, split, split_on, trim, trimmed, usize_of, views,
};
use vstd::prelude::*;

verus! {

/// The pattern of a card: its number, the winning numbers, and the numbers
/// held.
pub const CARD_PATTERN: &'static str =
    r"Card +(?<id>\d+): (?<winning>[\d ]+) \| (?<numbers>[\d ]+)";

/// Why a text could not be read as a card.
#[derive(Debug, Clone, Copy, PartialEq, Eq)]
pub enum ParseError {
    /// The pattern was not accepted.
    Pattern,
    /// No card was found.
    NoCard,
    /// The match lacks a part of the card.
    Incomplete,
    /// The card's number does not fit `usize`.
    Number,
}

impl ParseError {
    /// The description of the error.
    pub open spec fn description(&self) -> Seq<char> {
        match self {
            ParseError::Pattern => "Not a valid pattern"@,
            ParseError::NoCard => "Not a valid card description."@,
            ParseError::Incomplete => "Not a complete card description."@,
            ParseError::Number => "number too large to fit in target type"@,
        }
    }

    /// A description of the error.
    pub fn message(&self) -> (s: &'static str)
        ensures
            s@ == self.description(),
    {
        match self {
            ParseError::Pattern => "Not a valid pattern",
            ParseError::NoCard => "Not a valid card description.",
            ParseError::Incomplete => "Not a complete card description.",
            ParseError::Number => "number too large to fit in target type",
        }
    }
}

/// A scratch card.
#[derive(Debug, PartialEq, Clone)]
pub struct Card {
    pub id: usize,
    pub winning: Vec<usize>,
    pub numbers: Vec<usize>,
}

/// The mathematical content of a [`Card`].
pub struct CardView {
    pub id: usize,
    pub winning: Seq<usize>,
    pub numbers: Seq<usize>,
}

impl View for Card {
    type V = CardView;

    open spec fn view(&self) -> CardView {
        CardView { id: self.id, winning: self.winning@, numbers: self.numbers@ }
    }
}

/// The numbers among the first `k` of `pieces`, in order; a piece that is
/// no `usize` is passed over.
pub open spec fn numbers_among(pieces: Seq<Seq<char>>, k: int) -> Seq<usize>
    decreases k,
{
    if k <= 0 {
        Seq::empty()
    } else {
        match usize_of(pieces[k - 1]) {
            Some(n) => numbers_among(pieces, k - 1).push(n),
            None => numbers_among(pieces, k - 1),
        }
    }
}

/// The numbers that a list writes: the list is trimmed and split at every
/// single space, and the pieces that are numbers are kept.
pub open spec fn listed(text: Seq<char>) -> Seq<usize> {
    let pieces = split(trimmed(text), " "@);
    numbers_among(pieces, pieces.len() as int)
}

/// The card that the groups of a match write: group 1 is its number, group
/// 2 the winning numbers, group 3 the numbers held.
pub open spec fn card_from_groups(groups: Seq<Option<Found>>) -> Result<CardView, ParseError> {
    if groups.len() > 3 && groups[1] is Some && groups[2] is Some && groups[3] is Some {
        match usize_of(groups[1]->0.text) {
            Some(id) => Ok(
                CardView {
                    id,
                    winning: listed(groups[2]->0.text),
                    numbers: listed(groups[3]->0.text),
                },
            ),
            None => Err(ParseError::Number),
        }
    } else {
        Err(ParseError::Incomplete)
    }
}

/// The card that a text writes, as the accepted pattern finds it: that of
/// its first match.
pub open spec fn card_in(s: Seq<char>) -> Result<CardView, ParseError> {
    match regex_captures(CARD_PATTERN@, s) {
        Some(groups) => card_from_groups(groups),
        None => Err(ParseError::NoCard),
    }
}

/// The card that a text writes; an error also where the pattern is not
/// accepted.
pub open spec fn card_of(s: Seq<char>) -> Result<CardView, ParseError> {
    if regex_accepts(CARD_PATTERN@) {
        card_in(s)
    } else {
        Err(ParseError::Pattern)
    }
}

/// Reads the numbers of a list.
pub fn list(text: &Vec<char>) -> (r: Vec<usize>)
    ensures
        r@ == listed(text@),
{
    proof {
        reveal_strlit(" ");
    }
    let pieces = split_on(&trim(text), &chars_of(" "));
    let mut out: Vec<usize> = Vec::new();
    let mut k: usize = 0;
    while k < pieces.len()
        invariant
            k <= pieces.len(),
            out@ == numbers_among(views(pieces@), k as int),
        decreases pieces.len() - k,
    {
        assert(views(pieces@)[k as int] == pieces@[k as int]@);
        match parse_usize(&pieces[k]) {
            Some(n) => {
                out.push(n);
            },
            None => {},
        }
        k += 1;
    }
    out
}

/// Reads a card from the groups of a match of the pattern.
pub fn card_from(groups: &Vec<Option<Group>>) -> (r: Result<Card, ParseError>)
    ensures
        match r {
            Ok(c) => card_from_groups(groups_view(groups@)) == Ok::<CardView, ParseError>(c@),
            Err(e) => card_from_groups(groups_view(groups@)) == Err::<CardView, ParseError>(e),
        },
{
    if groups.len() <= 3 {
        return Err(ParseError::Incomplete);
    }
    proof {
        assert(groups_view(groups@)[1] == match groups@[1] {
            Some(g) => Some(g@),
            None => None,
        });
        assert(groups_view(groups@)[2] == match groups@[2] {
            Some(g) => Some(g@),
            None => None,
        });
        assert(groups_view(groups@)[3] == match groups@[3] {
            Some(g) => Some(g@),
            None => None,
        });
    }
    match (&groups[1], &groups[2], &groups[3]) {
        (Some(id), Some(winning), Some(numbers)) => match parse_usize(&id.text) {
            Some(id) => Ok(Card { id, winning: list(&winning.text), numbers: list(&numbers.text) }),
            None => Err(ParseError::Number),
        },
        _ => Err(ParseError::Incomplete),
    }
}

fn card_with(pattern: &Pattern, s: &str) -> (r: Result<Card, ParseError>)
    requires
        pattern@ == CARD_PATTERN@,
    ensures
        match r {
            Ok(c) => card_in(s@) == Ok::<CardView, ParseError>(c@),
            Err(e) => card_in(s@) == Err::<CardView, ParseError>(e),
        },
{
    match captures(pattern, s) {
        Some(groups) => card_from(&groups),
        None => Err(ParseError::NoCard),
    }
}

impl Card {
    /// Reads a card.
    pub fn from_str(s: &str) -> (r: Result<Card, ParseError>)
        ensures
            match r {
                Ok(c) => card_of(s@) == Ok::<CardView, ParseError>(c@),
                Err(e) => card_of(s@) == Err::<CardView, ParseError>(e),
            },
    {
        match Pattern::new(CARD_PATTERN) {
            Some(pattern) => card_with(&pattern, s),
            None => Err(ParseError::Pattern),
        }
    }
}

/// The views of the cards of a vector.
pub open spec fn cards_view(cards: Seq<Card>) -> Seq<CardView> {
    cards.map_values(|c: Card| c@)
}

/// The cards that a text writes, one per line; `None` where the pattern is
/// not accepted or a line writes no card.
pub open spec fn parse_of(input: Seq<char>) -> Option<Seq<CardView>> {
    let ls = lines_of(input);
    if regex_accepts(CARD_PATTERN@) && forall|i: int|
        0 <= i < ls.len() ==> card_in(#[trigger] ls[i]) is Ok {
        Some(Seq::new(ls.len(), |i: int| card_in(ls[i])->Ok_0))
    } else {
        None
    }
}

fn try_parse(input: &str) -> (r: Option<Vec<Card>>)
    ensures
        match r {
            Some(cards) => parse_of(input@) == Some(cards_view(cards@)),
            None => parse_of(input@) is None,
        },
{
    let pattern = match Pattern::new(CARD_PATTERN) {
        Some(p) => p,
        None => {
            return None;
        },
    };
    let ls = lines(&chars_of(input));
    let mut cards: Vec<Card> = Vec::new();
    let mut i: usize = 0;
    while i < ls.len()
        invariant
            i <= ls.len(),
            pattern@ == CARD_PATTERN@,
            regex_accepts(CARD_PATTERN@),
            views(ls@) == lines_of(input@),
            cards.len() == i,
            forall|j: int|
                0 <= j < i ==> card_in(#[trigger] views(ls@)[j]) == Ok::<CardView, ParseError>(
                    cards@[j]@,
                ),
        decreases ls.len() - i,
    {
        assert(views(ls@)[i as int] == ls@[i as int]@);
        let line = string_of(&ls[i]);
        match card_with(&pattern, line.as_str()) {
            Ok(c) => {
                cards.push(c);
            },
            Err(_) => {
                assert(card_in(lines_of(input@)[i as int]) is Err);
                return None;
            },
        }
        i += 1;
    }
    proof {
        let all = lines_of(input@);
        assert forall|j: int| 0 <= j < all.len() implies card_in(#[trigger] all[j]) is Ok by {
            assert(card_in(views(ls@)[j]) is Ok);
        }
        assert forall|j: int| 0 <= j < cards@.len() implies cards_view(cards@)[j] == card_in(
            all[j],
        )->Ok_0 by {
            assert(card_in(views(ls@)[j]) == Ok::<CardView, ParseError>(cards@[j]@));
        }
        assert(cards_view(cards@) =~= Seq::new(all.len(), |i: int| card_in(all[i])->Ok_0));
    }
    Some(cards)
}

/// Reads the cards of a text.
pub fn parse(input: &str) -> (cards: Vec<Card>)
    requires
        parse_of(input@) is Some,
    ensures
        parse_of(input@) == Some(cards_view(cards@)),
{
    try_parse(input).unwrap()
}

/// Reads the cards of a text, where it writes cards. What the pattern finds
/// can only be learnt by searching, so the searches are made and looked at
/// first, and [`parse`] is called only where every line writes a card.
/// `None` where the pattern is not accepted or a line cannot be read as a
/// card.
pub fn checked_parse(input: &str) -> (r: Option<Vec<Card>>)
    ensures
        match r {
            Some(cards) => parse_of(input@) == Some(cards_view(cards@)),
            None => parse_of(input@) is None,
        },
{
    if try_parse(input).is_some() {
        Some(parse(input))
    } else {
        None
    }
}

/// How many of the first `k` numbers held are winning numbers. A number
/// held twice counts twice.
pub open spec fn wins_upto(c: CardView, k: int) -> nat
    decreases k,
{
    if k <= 0 {
        0
    } else {
        wins_upto(c, k - 1) + if c.winning.contains(c.numbers[k - 1]) {
            1nat
        } else {
            0nat
        }
    }
}

/// How many of the numbers held are winning numbers.
pub open spec fn wins(c: CardView) -> nat {
    wins_upto(c, c.numbers.len() as int)
}

/// The wins among fewer numbers are no more than among more, and no more than
/// the numbers looked at.
pub proof fn lemma_wins_bounds(c: CardView, k: int, n: int)
    requires
        0 <= k <= n,
    ensures
        wins_upto(c, k) <= wins_upto(c, n),
        wins_upto(c, k) <= k,
    decreases n - k,
{
    if k < n {
        lemma_wins_bounds(c, k, n - 1);
    }
    lemma_wins_count(c, k);
}

/// There are no more wins than numbers looked at.
pub proof fn lemma_wins_count(c: CardView, k: int)
    requires
        0 <= k,
    ensures
        wins_upto(c, k) <= k,
    decreases k,
{
    if k > 0 {
        lemma_wins_count(c, k - 1);
    }
}

/// 2 to the power `n`.
pub open spec fn two_to(n: nat) -> nat
    decreases n,
{
    if n == 0 {
        1
    } else {
        2 * two_to((n - 1) as nat)
    }
}

/// Powers of 2 are positive and grow with the exponent.
pub proof fn lemma_two_to_grows(a: nat, b: nat)
    requires
        a <= b,
    ensures
        0 < two_to(a) <= two_to(b),
    decreases b,
{
    if a < b {
        lemma_two_to_grows(a, (b - 1) as nat);
    } else if a > 0 {
        lemma_two_to_grows((a - 1) as nat, (a - 1) as nat);
    }
}

/// The points of a card: 1 for the first win, doubled by each further one;
/// worked out as half of 2 to the number of wins.
pub open spec fn points(c: CardView) -> nat {
    two_to(wins(c)) / 2
}

/// The sum of the points of the first `k` cards.
pub open spec fn points_upto(cards: Seq<CardView>, k: int) -> nat
    decreases k,
{
    if k <= 0 {
        0
    } else {
        points_upto(cards, k - 1) + points(cards[k - 1])
    }
}

/// The points of fewer cards are no more than those of more.
pub proof fn lemma_points_grow(cards: Seq<CardView>, k: int, n: int)
    requires
        k <= n,
    ensures
        points_upto(cards, k) <= points_upto(cards, n),
    decreases n - k,
{
    if k < n {
        lemma_points_grow(cards, k, n - 1);
    }
}

fn is_winning(card: &Card, n: usize) -> (r: bool)
    ensures
        r == card@.winning.contains(n),
{
    let mut i: usize = 0;
    while i < card.winning.len()
        invariant
            i <= card.winning.len(),
            forall|j: int| 0 <= j < i ==> card.winning@[j] != n,
        decreases card.winning.len() - i,
    {
        if card.winning[i] == n {
            return true;
        }
        i += 1;
    }
    false
}

/// The number of wins of a card.
pub fn count_wins(card: &Card) -> (w: usize)
    ensures
        w == wins(card@),
        w <= card.numbers.len(),
{
    let mut w: usize = 0;
    let mut k: usize = 0;
    while k < card.numbers.len()
        invariant
            k <= card.numbers.len(),
            w == wins_upto(card@, k as int),
            w <= k,
        decreases card.numbers.len() - k,
    {
        if is_winning(card, card.numbers[k]) {
            w += 1;
        }
        k += 1;
    }
    w
}

/// Whether the points of all cards and their sum can be worked out within
/// `usize`.
pub open spec fn points_fit(cards: Seq<CardView>) -> bool {
    (forall|i: int| 0 <= i < cards.len() ==> two_to(wins(#[trigger] cards[i])) <= usize::MAX)
        && points_upto(cards, cards.len() as int) <= usize::MAX
}

/// The sum of the points of all cards: `None` where 2 to the number of
/// wins of a card, or the sum, does not fit `usize`.
pub fn checked_part_one(input: &Vec<Card>) -> (r: Option<usize>)
    ensures
        r == if points_fit(cards_view(input@)) {
            Some(points_upto(cards_view(input@), input.len() as int) as usize)
        } else {
            None
        },
{
    let mut n: usize = 0;
    let mut i: usize = 0;
    while i < input.len()
        invariant
            i <= input.len(),
            n == points_upto(cards_view(input@), i as int),
            forall|j: int|
                0 <= j < i ==> two_to(wins(#[trigger] cards_view(input@)[j])) <= usize::MAX,
        decreases input.len() - i,
    {
        let card = &input[i];
        proof {
            assert(cards_view(input@)[i as int] == card@);
        }
        let mut acc: usize = 1;
        let mut k: usize = 0;
        while k < card.numbers.len()
            invariant
                k <= card.numbers.len(),
                i < input.len(),
                cards_view(input@)[i as int] == card@,
                acc == two_to(wins_upto(card@, k as int)),
            decreases card.numbers.len() - k,
        {
            if is_winning(card, card.numbers[k]) {
                proof {
                    lemma_wins_bounds(card@, k + 1, card.numbers.len() as int);
                    lemma_two_to_grows(wins_upto(card@, k + 1), wins(card@));
                }
                match acc.checked_mul(2) {
                    Some(double) => {
                        acc = double;
                    },
                    None => {
                        assert(two_to(wins(cards_view(input@)[i as int])) > usize::MAX);
                        return None;
                    },
                }
            }
            k += 1;
        }
        proof {
            lemma_points_grow(cards_view(input@), i + 1, input.len() as int);
        }
        match n.checked_add(acc / 2) {
            Some(sum) => {
                n = sum;
            },
            None => {
                return None;
            },
        }
        i += 1;
    }
    Some(n)
}

/// The sum of the points of all cards.
pub fn part_one(input: &Vec<Card>) -> (n: usize)
    requires
        points_fit(cards_view(input@)),
    ensures
        n == points_upto(cards_view(input@), input.len() as int),
{
    checked_part_one(input).unwrap()
}

/// The number of instances of card `j` once the first `i` cards have handed
/// out their copies: the card itself, and for each of those cards that reaches
/// card `j` as many copies as that card has instances. A card with `w` wins
/// reaches the `w` cards that follow it.
pub open spec fn copies(wins: Seq<nat>, j: int, i: int) -> nat
    decreases j, i,
{
    if i <= 0 {
        1
    } else if i - 1 < j && j <= i - 1 + wins[i - 1] {
        copies(wins, j, i - 1) + copies(wins, i - 1, i - 1)
    } else {
        copies(wins, j, i - 1)
    }
}

/// The number of instances that the first `k` of `n` cards have in the end.
pub open spec fn copies_sum(wins: Seq<nat>, n: int, k: int) -> nat
    decreases k,
{
    if k <= 0 {
        0
    } else {
        copies_sum(wins, n, k - 1) + copies(wins, k - 1, n)
    }
}

/// The numbers of wins of the cards.
pub open spec fn wins_of(cards: Seq<CardView>) -> Seq<nat> {
    Seq::new(cards.len(), |i: int| wins(cards[i]))
}

/// The number of cards in the end, copies included.
pub open spec fn part_two_of(cards: Seq<CardView>) -> nat {
    copies_sum(wins_of(cards), cards.len() as int, cards.len() as int)
}

/// A card has no fewer instances once more cards have handed out copies.
pub proof fn lemma_copies_grow(wins: Seq<nat>, j: int, i: int, n: int)
    requires
        i <= n,
    ensures
        copies(wins, j, i) <= copies(wins, j, n),
    decreases n - i,
{
    if i < n {
        lemma_copies_grow(wins, j, i, n - 1);
    }
}

/// Neither one card nor the first few cards have more instances than the
/// first `k` together.
pub proof fn lemma_copies_sum_bounds(wins: Seq<nat>, n: int, k: int, j: int)
    requires
        0 <= j < k,
    ensures
        copies(wins, j, n) <= copies_sum(wins, n, k),
        copies_sum(wins, n, j) <= copies_sum(wins, n, k),
    decreases k,
{
    if j < k - 1 {
        lemma_copies_sum_bounds(wins, n, k - 1, j);
    }
}

/// The number of cards in the end, when every card hands out, for each of
/// its instances, one copy of each of the cards that follow it, as many as
/// it has wins: `None` where the number does not fit `usize`.
pub fn checked_part_two(input: &Vec<Card>) -> (r: Option<usize>)
    ensures
        r == if part_two_of(cards_view(input@)) <= usize::MAX {
            Some(part_two_of(cards_view(input@)) as usize)
        } else {
            None
        },
{
    let len = input.len();
    let ghost w = wins_of(cards_view(input@));
    let mut instances: Vec<usize> = Vec::new();
    let mut k: usize = 0;
    while k < len
        invariant
            k <= len,
            instances.len() == k,
            forall|j: int| 0 <= j < k ==> instances@[j] == 1,
        decreases len - k,
    {
        instances.push(1);
        k += 1;
    }
    let mut i: usize = 0;
    while i < len
        invariant
            i <= len,
            len == input.len(),
            instances.len() == len,
            w == wins_of(cards_view(input@)),
            forall|j: int| 0 <= j < len ==> instances@[j] == copies(w, j, i as int),
        decreases len - i,
    {
        let won = count_wins(&input[i]);
        proof {
            assert(cards_view(input@)[i as int] == input@[i as int]@);
            assert(w[i as int] == won);
        }
        let end = if won >= len - i - 1 {
            len
        } else {
            i + won + 1
        };
        let own = instances[i];
        let mut j: usize = i + 1;
        while j < end
            invariant
                i < j <= end || (j == i + 1 && end <= j),
                end <= len,
                i < len,
                len == input.len(),
                instances.len() == len,
                own == copies(w, i as int, i as int),
                w[i as int] == won,
                w == wins_of(cards_view(input@)),
                end == if won >= len - i - 1 {
                    len as int
                } else {
                    i + won + 1
                },
                forall|a: int| 0 <= a < len && !(i < a < j) ==> instances@[a] == copies(w, a, i as int),
                forall|a: int| i < a < j ==> instances@[a] == copies(w, a, i + 1),
            decreases end - j,
        {
            proof {
                lemma_copies_grow(w, j as int, i + 1, len as int);
                lemma_copies_sum_bounds(w, len as int, len as int, j as int);
            }
            match instances[j].checked_add(own) {
                Some(sum) => {
                    instances.set(j, sum);
                },
                None => {
                    return None;
                },
            }
            j += 1;
        }
        i += 1;
    }
    let mut n: usize = 0;
    let mut k: usize = 0;
    while k < len
        invariant
            k <= len,
            len == input.len(),
            instances.len() == len,
            w == wins_of(cards_view(input@)),
            n == copies_sum(w, len as int, k as int),
            forall|j: int| 0 <= j < len ==> instances@[j] == copies(w, j, len as int),
        decreases len - k,
    {
        proof {
            if k + 1 < len {
                lemma_copies_sum_bounds(w, len as int, len as int, k + 1);
            }
        }
        match n.checked_add(instances[k]) {
            Some(sum) => {
                n = sum;
            },
            None => {
                return None;
            },
        }
        k += 1;
    }
    Some(n)
}

/// The number of cards in the end, copies included.
pub fn part_two(input: &Vec<Card>) -> (n: usize)
    requires
        part_two_of(cards_view(input@)) <= usize::MAX,
    ensures
        n == part_two_of(cards_view(input@)),
{
    checked_part_two(input).unwrap()
}

} // verus!
