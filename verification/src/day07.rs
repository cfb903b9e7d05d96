//! Day 7: hands of cards ranked by kind and then card by card; in the
//! second part the jack is a joker that stands for any other card.
use crate::text::{chars_of, lines, lines_of, parse_usize, usize_of, views, words, words_of};
use std::cmp::Ordering;
use vstd::prelude::*;

verus! {

/// A card of the first part, from the weakest to the strongest.
#[derive(Debug, Clone, Copy, PartialEq, Eq, PartialOrd, Ord, Structural)]
pub enum Card {
    N2,
    N3,
    N4,
    N5,
    N6,
    N7,
    N8,
    N9,
    T,
    J,
    Q,
    K,
    A,
}

/// A card of the second part, from the weakest to the strongest: the joker
/// `J` is the weakest.
#[derive(Debug, Clone, Copy, PartialEq, Eq, PartialOrd, Ord, Structural)]
pub enum Card2 {
    J,
    N2,
    N3,
    N4,
    N5,
    N6,
    N7,
    N8,
    N9,
    T,
    Q,
    K,
    A,
}

/// The card that a character writes, if it writes one.
pub open spec fn card_of(c: char) -> Option<Card> {
    if c == '2' {
        Some(Card::N2)
    } else if c == '3' {
        Some(Card::N3)
    } else if c == '4' {
        Some(Card::N4)
    } else if c == '5' {
        Some(Card::N5)
    } else if c == '6' {
        Some(Card::N6)
    } else if c == '7' {
        Some(Card::N7)
    } else if c == '8' {
        Some(Card::N8)
    } else if c == '9' {
        Some(Card::N9)
    } else if c == 'T' {
        Some(Card::T)
    } else if c == 'J' {
        Some(Card::J)
    } else if c == 'Q' {
        Some(Card::Q)
    } else if c == 'K' {
        Some(Card::K)
    } else if c == 'A' {
        Some(Card::A)
    } else {
        None
    }
}

/// The card of the second part that a character writes, if it writes one.
pub open spec fn card2_of(c: char) -> Option<Card2> {
    if c == '2' {
        Some(Card2::N2)
    } else if c == '3' {
        Some(Card2::N3)
    } else if c == '4' {
        Some(Card2::N4)
    } else if c == '5' {
        Some(Card2::N5)
    } else if c == '6' {
        Some(Card2::N6)
    } else if c == '7' {
        Some(Card2::N7)
    } else if c == '8' {
        Some(Card2::N8)
    } else if c == '9' {
        Some(Card2::N9)
    } else if c == 'T' {
        Some(Card2::T)
    } else if c == 'J' {
        Some(Card2::J)
    } else if c == 'Q' {
        Some(Card2::Q)
    } else if c == 'K' {
        Some(Card2::K)
    } else if c == 'A' {
        Some(Card2::A)
    } else {
        None
    }
}

impl Card {
    /// The card that `c` writes.
    pub fn from_char(c: char) -> (r: Option<Card>)
        ensures
            r == card_of(c),
    {
        match c {
            '2' => Some(Card::N2),
            '3' => Some(Card::N3),
            '4' => Some(Card::N4),
            '5' => Some(Card::N5),
            '6' => Some(Card::N6),
            '7' => Some(Card::N7),
            '8' => Some(Card::N8),
            '9' => Some(Card::N9),
            'T' => Some(Card::T),
            'J' => Some(Card::J),
            'Q' => Some(Card::Q),
            'K' => Some(Card::K),
            'A' => Some(Card::A),
            _ => None,
        }
    }
}

impl Card2 {
    /// The card that `c` writes.
    pub fn from_char(c: char) -> (r: Option<Card2>)
        ensures
            r == card2_of(c),
    {
        match c {
            '2' => Some(Card2::N2),
            '3' => Some(Card2::N3),
            '4' => Some(Card2::N4),
            '5' => Some(Card2::N5),
            '6' => Some(Card2::N6),
            '7' => Some(Card2::N7),
            '8' => Some(Card2::N8),
            '9' => Some(Card2::N9),
            'T' => Some(Card2::T),
            'J' => Some(Card2::J),
            'Q' => Some(Card2::Q),
            'K' => Some(Card2::K),
            'A' => Some(Card2::A),
            _ => None,
        }
    }
}

/// A kind of card with a rank: a card with the greater rank is the
/// stronger one, and cards of the same rank count as the same card.
pub trait Ranked: Copy {
    /// The rank of the card.
    spec fn rank_of(&self) -> nat;

    /// The rank of the card.
    fn rank(&self) -> (r: u8)
        ensures
            r == self.rank_of(),
    ;
}

impl Ranked for Card {
    open spec fn rank_of(&self) -> nat {
        match self {
            Card::N2 => 0,
            Card::N3 => 1,
            Card::N4 => 2,
            Card::N5 => 3,
            Card::N6 => 4,
            Card::N7 => 5,
            Card::N8 => 6,
            Card::N9 => 7,
            Card::T => 8,
            Card::J => 9,
            Card::Q => 10,
            Card::K => 11,
            Card::A => 12,
        }
    }

    fn rank(&self) -> (r: u8) {
        match self {
            Card::N2 => 0,
            Card::N3 => 1,
            Card::N4 => 2,
            Card::N5 => 3,
            Card::N6 => 4,
            Card::N7 => 5,
            Card::N8 => 6,
            Card::N9 => 7,
            Card::T => 8,
            Card::J => 9,
            Card::Q => 10,
            Card::K => 11,
            Card::A => 12,
        }
    }
}

impl Ranked for Card2 {
    open spec fn rank_of(&self) -> nat {
        match self {
            Card2::J => 0,
            Card2::N2 => 1,
            Card2::N3 => 2,
            Card2::N4 => 3,
            Card2::N5 => 4,
            Card2::N6 => 5,
            Card2::N7 => 6,
            Card2::N8 => 7,
            Card2::N9 => 8,
            Card2::T => 9,
            Card2::Q => 10,
            Card2::K => 11,
            Card2::A => 12,
        }
    }

    fn rank(&self) -> (r: u8) {
        match self {
            Card2::J => 0,
            Card2::N2 => 1,
            Card2::N3 => 2,
            Card2::N4 => 3,
            Card2::N5 => 4,
            Card2::N6 => 5,
            Card2::N7 => 6,
            Card2::N8 => 7,
            Card2::N9 => 8,
            Card2::T => 9,
            Card2::Q => 10,
            Card2::K => 11,
            Card2::A => 12,
        }
    }
}

/// A value that takes no part in comparisons: any two count as equal.
#[derive(Debug, Clone, Copy)]
pub struct AllwaysEqual<T>(pub T);

impl<T> From<T> for AllwaysEqual<T> {
    fn from(value: T) -> (r: AllwaysEqual<T>) {
        AllwaysEqual(value)
    }
}

impl<T> vstd::std_specs::convert::FromSpecImpl<T> for AllwaysEqual<T> {
    open spec fn obeys_from_spec() -> bool {
        true
    }

    open spec fn from_spec(value: T) -> AllwaysEqual<T> {
        AllwaysEqual(value)
    }
}

impl<T> PartialEq for AllwaysEqual<T> {
    fn eq(&self, other: &AllwaysEqual<T>) -> (r: bool) {
        true
    }
}

impl<T> vstd::std_specs::cmp::PartialEqSpecImpl for AllwaysEqual<T> {
    open spec fn obeys_eq_spec() -> bool {
        true
    }

    open spec fn eq_spec(&self, other: &AllwaysEqual<T>) -> bool {
        true
    }
}

impl<T> Eq for AllwaysEqual<T> {

}

impl<T> PartialOrd for AllwaysEqual<T> {
    fn partial_cmp(&self, other: &AllwaysEqual<T>) -> (r: Option<Ordering>) {
        Some(Ordering::Equal)
    }
}

impl<T> vstd::std_specs::cmp::PartialOrdSpecImpl for AllwaysEqual<T> {
    open spec fn obeys_partial_cmp_spec() -> bool {
        true
    }

    open spec fn partial_cmp_spec(&self, other: &AllwaysEqual<T>) -> Option<Ordering> {
        Some(Ordering::Equal)
    }
}

/// The kind of a hand, from the weakest to the strongest, with the card or
/// cards that make it up. Kinds compare by their strength alone.
#[derive(Debug, Clone, PartialEq, Eq)]
pub enum HandKind<T> {
    High(AllwaysEqual<T>),
    OnePair(AllwaysEqual<T>),
    TwoPair(AllwaysEqual<(T, T)>),
    ThreeOAK(AllwaysEqual<T>),
    FullHouse(AllwaysEqual<(T, T)>),
    FourOAK(AllwaysEqual<T>),
    FiveOAK(AllwaysEqual<T>),
}

impl<T> HandKind<T> {
    /// The strength of the kind: 0 for the weakest, 6 for the strongest.
    pub open spec fn strength(&self) -> nat {
        match self {
            HandKind::High(_) => 0,
            HandKind::OnePair(_) => 1,
            HandKind::TwoPair(_) => 2,
            HandKind::ThreeOAK(_) => 3,
            HandKind::FullHouse(_) => 4,
            HandKind::FourOAK(_) => 5,
            HandKind::FiveOAK(_) => 6,
        }
    }

    /// The strength of the kind.
    pub fn level(&self) -> (r: u8)
        ensures
            r == self.strength(),
    {
        match self {
            HandKind::High(_) => 0,
            HandKind::OnePair(_) => 1,
            HandKind::TwoPair(_) => 2,
            HandKind::ThreeOAK(_) => 3,
            HandKind::FullHouse(_) => 4,
            HandKind::FourOAK(_) => 5,
            HandKind::FiveOAK(_) => 6,
        }
    }
}

/// How many of the first `k` cards have the rank `r`.
pub open spec fn count_rank<T: Ranked>(cards: Seq<T>, r: nat, k: int) -> nat
    decreases k,
{
    if k <= 0 {
        0
    } else {
        count_rank(cards, r, k - 1) + if cards[k - 1].rank_of() == r {
            1nat
        } else {
            0nat
        }
    }
}

/// How many cards have the rank `r`.
pub open spec fn count_of<T: Ranked>(cards: Seq<T>, r: nat) -> nat {
    count_rank(cards, r, cards.len() as int)
}

/// The least index at or after `from` of a card of rank `r`; the length of
/// `cards` if there is none.
pub open spec fn first_of<T: Ranked>(cards: Seq<T>, r: nat, from: int) -> int
    decreases cards.len() - from,
{
    if from < 0 || from >= cards.len() {
        cards.len() as int
    } else if cards[from].rank_of() == r {
        from
    } else {
        first_of(cards, r, from + 1)
    }
}

/// The least rank at or after `from`, and below 256, that exactly `c`
/// cards have.
pub open spec fn rank_with<T: Ranked>(cards: Seq<T>, c: nat, from: int) -> Option<nat>
    decreases 256 - from,
{
    if from < 0 || from >= 256 {
        None
    } else if count_of(cards, from as nat) == c {
        Some(from as nat)
    } else {
        rank_with(cards, c, from + 1)
    }
}

/// The first card of `cards` that has the rank `r`.
pub open spec fn card_with<T: Ranked>(cards: Seq<T>, r: nat) -> T {
    cards[first_of(cards, r, 0)]
}

/// The greatest rank among the first `k` cards; 0 for none.
pub open spec fn top_rank<T: Ranked>(cards: Seq<T>, k: int) -> nat
    decreases k,
{
    if k <= 0 {
        0
    } else if cards[k - 1].rank_of() >= top_rank(cards, k - 1) {
        cards[k - 1].rank_of()
    } else {
        top_rank(cards, k - 1)
    }
}

/// The greatest index below `k` of a card of rank `r`; -1 if there is
/// none.
pub open spec fn last_of<T: Ranked>(cards: Seq<T>, r: nat, k: int) -> int
    decreases k,
{
    if k <= 0 {
        -1
    } else if cards[k - 1].rank_of() == r {
        k - 1
    } else {
        last_of(cards, r, k - 1)
    }
}

/// The kind of the hand `cards`. Cards of the same rank are counted
/// together. The kind is five of a kind if some rank has exactly five
/// cards, else four of a kind if one has exactly four; with a rank of
/// exactly three cards it is a full house if another has exactly two, else
/// three of a kind. Otherwise it goes by the ranks of exactly two cards: two
/// pair for exactly two such ranks, one pair for any other number of them
/// but 0, and high card for none. The kind carries the first card of the
/// least rank that makes it up (for two pair and full house, of both
/// ranks), a high card the last of the strongest cards. `None` for a hand
/// without cards.
pub open spec fn kind_of<T: Ranked>(cards: Seq<T>) -> Option<HandKind<T>> {
    let five = rank_with(cards, 5, 0);
    let four = rank_with(cards, 4, 0);
    let three = rank_with(cards, 3, 0);
    let two = rank_with(cards, 2, 0);
    if five is Some {
        Some(HandKind::FiveOAK(AllwaysEqual(card_with(cards, five->0))))
    } else if four is Some {
        Some(HandKind::FourOAK(AllwaysEqual(card_with(cards, four->0))))
    } else if three is Some {
        if two is Some {
            Some(
                HandKind::FullHouse(
                    AllwaysEqual((card_with(cards, three->0), card_with(cards, two->0))),
                ),
            )
        } else {
            Some(HandKind::ThreeOAK(AllwaysEqual(card_with(cards, three->0))))
        }
    } else if two is Some {
        let second = rank_with(cards, 2, two->0 as int + 1);
        if second is Some && rank_with(cards, 2, second->0 as int + 1) is None {
            Some(
                HandKind::TwoPair(
                    AllwaysEqual((card_with(cards, two->0), card_with(cards, second->0))),
                ),
            )
        } else {
            Some(HandKind::OnePair(AllwaysEqual(card_with(cards, two->0))))
        }
    } else if cards.len() > 0 {
        Some(
            HandKind::High(
                AllwaysEqual(
                    cards[last_of(cards, top_rank(cards, cards.len() as int), cards.len() as int)],
                ),
            ),
        )
    } else {
        None
    }
}

/// The first card of a rank, where there is one, has that rank, and no card
/// before it has.
pub proof fn lemma_first_of_bounds<T: Ranked>(cards: Seq<T>, r: nat, from: int)
    requires
        0 <= from <= cards.len(),
    ensures
        from <= first_of(cards, r, from) <= cards.len(),
        first_of(cards, r, from) < cards.len() ==> cards[first_of(cards, r, from)].rank_of() == r,
        forall|i: int| from <= i < first_of(cards, r, from) ==> (#[trigger] cards[i]).rank_of() != r,
    decreases cards.len() - from,
{
    if from < cards.len() && cards[from].rank_of() != r {
        lemma_first_of_bounds(cards, r, from + 1);
    }
}

/// A rank that no card has is counted 0 times.
pub proof fn lemma_count_without<T: Ranked>(cards: Seq<T>, r: nat, k: int)
    requires
        0 <= k <= cards.len(),
        forall|i: int| 0 <= i < k ==> (#[trigger] cards[i]).rank_of() != r,
    ensures
        count_rank(cards, r, k) == 0,
    decreases k,
{
    if k > 0 {
        lemma_count_without(cards, r, k - 1);
    }
}

/// A rank that is counted has a first card.
pub proof fn lemma_counted_has_first<T: Ranked>(cards: Seq<T>, r: nat)
    requires
        count_of(cards, r) > 0,
    ensures
        0 <= first_of(cards, r, 0) < cards.len(),
        card_with(cards, r).rank_of() == r,
{
    lemma_first_of_bounds(cards, r, 0);
    if first_of(cards, r, 0) == cards.len() {
        lemma_count_without(cards, r, cards.len() as int);
    }
}

fn tally<T: Ranked>(cards: &Vec<T>) -> (counts: Vec<usize>)
    ensures
        counts.len() == 256,
        forall|r: int| 0 <= r < 256 ==> counts@[r] == count_of(cards@, r as nat),
{
    let mut counts: Vec<usize> = Vec::new();
    let mut r: usize = 0;
    while r < 256
        invariant
            r <= 256,
            counts.len() == r,
            forall|i: int| 0 <= i < r ==> counts@[i] == 0,
        decreases 256 - r,
    {
        counts.push(0);
        r += 1;
    }
    let mut k: usize = 0;
    while k < cards.len()
        invariant
            k <= cards.len(),
            counts.len() == 256,
            forall|r: int| 0 <= r < 256 ==> counts@[r] == count_rank(cards@, r as nat, k as int),
            forall|r: int| 0 <= r < 256 ==> counts@[r] <= k,
        decreases cards.len() - k,
    {
        let r = cards[k].rank() as usize;
        counts.set(r, counts[r] + 1);
        k += 1;
    }
    counts
}

fn find_rank<T: Ranked>(
    counts: &Vec<usize>,
    Ghost(cards): Ghost<Seq<T>>,
    c: usize,
    from: usize,
) -> (r: Option<usize>)
    requires
        counts.len() == 256,
        forall|r: int| 0 <= r < 256 ==> counts@[r] == count_of(cards, r as nat),
    ensures
        match r {
            Some(x) => rank_with(cards, c as nat, from as int) == Some(x as nat) && from <= x < 256
                && count_of(cards, x as nat) == c,
            None => rank_with(cards, c as nat, from as int) is None,
        },
{
    let mut r: usize = from;
    while r < 256
        invariant
            from <= r,
            counts.len() == 256,
            forall|r: int| 0 <= r < 256 ==> counts@[r] == count_of(cards, r as nat),
            rank_with(cards, c as nat, from as int) == rank_with(cards, c as nat, r as int),
        decreases 256 - r,
    {
        if counts[r] == c {
            return Some(r);
        }
        r += 1;
    }
    None
}

fn first_card<T: Ranked>(cards: &Vec<T>, r: usize) -> (card: T)
    requires
        r < 256,
        count_of(cards@, r as nat) > 0,
    ensures
        card == card_with(cards@, r as nat),
{
    proof {
        lemma_counted_has_first(cards@, r as nat);
    }
    let mut i: usize = 0;
    while i < cards.len()
        invariant
            i <= cards.len(),
            first_of(cards@, r as nat, 0) == first_of(cards@, r as nat, i as int),
            0 <= first_of(cards@, r as nat, 0) < cards.len(),
        decreases cards.len() - i,
    {
        if cards[i].rank() as usize == r {
            return cards[i];
        }
        i += 1;
    }
    cards[0]
}

fn strongest<T: Ranked>(cards: &Vec<T>) -> (card: T)
    requires
        cards.len() > 0,
    ensures
        card == cards@[last_of(
            cards@,
            top_rank(cards@, cards.len() as int),
            cards.len() as int,
        )],
{
    let mut best: usize = 0;
    let mut k: usize = 1;
    proof {
        reveal_with_fuel(top_rank, 2);
        reveal_with_fuel(last_of, 2);
    }
    while k < cards.len()
        invariant
            1 <= k <= cards.len(),
            best < k,
            cards@[best as int].rank_of() == top_rank(cards@, k as int),
            best == last_of(cards@, top_rank(cards@, k as int), k as int),
        decreases cards.len() - k,
    {
        if cards[k].rank() >= cards[best].rank() {
            best = k;
        }
        k += 1;
    }
    cards[best]
}

impl<T: Ranked> HandKind<T> {
    /// The kind of the hand `cards`: `None` for a hand without cards.
    pub fn checked_from_cards(cards: &Vec<T>) -> (r: Option<HandKind<T>>)
        ensures
            r == kind_of(cards@),
    {
        let counts = tally(cards);
        if let Some(r) = find_rank::<T>(&counts, Ghost(cards@), 5, 0) {
            return Some(HandKind::FiveOAK(AllwaysEqual(first_card(cards, r))));
        }
        if let Some(r) = find_rank::<T>(&counts, Ghost(cards@), 4, 0) {
            return Some(HandKind::FourOAK(AllwaysEqual(first_card(cards, r))));
        }
        let two = find_rank::<T>(&counts, Ghost(cards@), 2, 0);
        if let Some(r3) = find_rank::<T>(&counts, Ghost(cards@), 3, 0) {
            return Some(
                match two {
                    Some(r2) => HandKind::FullHouse(
                        AllwaysEqual((first_card(cards, r3), first_card(cards, r2))),
                    ),
                    None => HandKind::ThreeOAK(AllwaysEqual(first_card(cards, r3))),
                },
            );
        }
        if let Some(r) = two {
            if let Some(s) = find_rank::<T>(&counts, Ghost(cards@), 2, r + 1) {
                if find_rank::<T>(&counts, Ghost(cards@), 2, s + 1).is_none() {
                    return Some(
                        HandKind::TwoPair(
                            AllwaysEqual((first_card(cards, r), first_card(cards, s))),
                        ),
                    );
                }
            }
            return Some(HandKind::OnePair(AllwaysEqual(first_card(cards, r))));
        }
        if cards.len() > 0 {
            Some(HandKind::High(AllwaysEqual(strongest(cards))))
        } else {
            None
        }
    }

    /// The kind of the hand `cards`, which holds at least one card.
    pub fn from_cards(cards: &Vec<T>) -> (r: HandKind<T>)
        requires
            cards.len() > 0,
        ensures
            kind_of(cards@) == Some(r),
    {
        proof {
            lemma_kind_defined(cards@);
        }
        Self::checked_from_cards(cards).unwrap()
    }
}

/// A hand with a card has a kind.
pub proof fn lemma_kind_defined<T: Ranked>(cards: Seq<T>)
    requires
        cards.len() > 0,
    ensures
        kind_of(cards) is Some,
{
}

/// A hand: its cards in order, its bid, and its kind.
#[derive(Debug, Clone)]
pub struct Hand<T> {
    pub cards: Vec<T>,
    pub bid: usize,
    pub set: HandKind<T>,
}

/// The mathematical content of a [`Hand`].
pub struct HandView<T> {
    pub cards: Seq<T>,
    pub bid: usize,
    pub set: HandKind<T>,
}

impl<T> View for Hand<T> {
    type V = HandView<T>;

    open spec fn view(&self) -> HandView<T> {
        HandView { cards: self.cards@, bid: self.bid, set: self.set }
    }
}

/// The least index at or after `from` at which both hands hold a card and
/// the two cards differ in rank.
pub open spec fn first_difference<T: Ranked>(a: Seq<T>, b: Seq<T>, from: int) -> Option<int>
    decreases a.len() - from,
{
    if from < 0 || from >= a.len() || from >= b.len() {
        None
    } else if a[from].rank_of() != b[from].rank_of() {
        Some(from)
    } else {
        first_difference(a, b, from + 1)
    }
}

/// Whether the hand `a` is weaker than the hand `b`: its kind is, or the
/// kinds are equally strong and at the first place where the cards differ
/// the card of `a` is the weaker one. `None` where neither the kinds nor
/// any pair of cards differ: such hands have no order.
pub open spec fn weaker<T: Ranked>(a: HandView<T>, b: HandView<T>) -> Option<bool> {
    if a.set.strength() != b.set.strength() {
        Some(a.set.strength() < b.set.strength())
    } else {
        match first_difference(a.cards, b.cards, 0) {
            Some(i) => Some(a.cards[i].rank_of() < b.cards[i].rank_of()),
            None => None,
        }
    }
}

/// Whether `a` is weaker than `b`, where the two have an order.
#[verifier::loop_isolation(false)]
pub fn is_weaker<T: Ranked>(a: &Hand<T>, b: &Hand<T>) -> (r: Option<bool>)
    ensures
        r == weaker(a@, b@),
{
    let sa = a.set.level();
    let sb = b.set.level();
    if sa != sb {
        return Some(sa < sb);
    }
    let mut i: usize = 0;
    while i < a.cards.len() && i < b.cards.len()
        invariant
            first_difference(a@.cards, b@.cards, 0) == first_difference(
                a@.cards,
                b@.cards,
                i as int,
            ),
        decreases a.cards.len() - i,
    {
        let ra = a.cards[i].rank();
        let rb = b.cards[i].rank();
        if ra != rb {
            return Some(ra < rb);
        }
        i += 1;
    }
    None
}

/// The views of the hands of a vector.
pub open spec fn hands_view<T>(hands: Seq<Hand<T>>) -> Seq<HandView<T>> {
    hands.map_values(|h: Hand<T>| h@)
}

/// Whether any two hands at different places have an order.
pub open spec fn all_ordered<T: Ranked>(hands: Seq<HandView<T>>) -> bool {
    forall|i: int, j: int|
        0 <= i < hands.len() && 0 <= j < hands.len() && i != j ==> (#[trigger] weaker(
            hands[i],
            hands[j],
        )) is Some
}

/// How many of the first `k` hands are weaker than the hand of index `i`.
pub open spec fn weaker_count<T: Ranked>(hands: Seq<HandView<T>>, i: int, k: int) -> nat
    decreases k,
{
    if k <= 0 {
        0
    } else {
        weaker_count(hands, i, k - 1) + if weaker(hands[k - 1], hands[i]) == Some(true) {
            1nat
        } else {
            0nat
        }
    }
}

/// The place of the hand of index `i` when the hands are put in order from
/// the weakest: one more than the number of hands weaker than it.
pub open spec fn place<T: Ranked>(hands: Seq<HandView<T>>, i: int) -> nat {
    1 + weaker_count(hands, i, hands.len() as int)
}

/// The sum, over the first `k` hands, of the hand's place times its bid.
pub open spec fn winnings<T: Ranked>(hands: Seq<HandView<T>>, k: int) -> nat
    decreases k,
{
    if k <= 0 {
        0
    } else {
        winnings(hands, k - 1) + place(hands, k - 1) * (hands[k - 1].bid as nat)
    }
}

/// The winnings of fewer hands are no more than those of more.
pub proof fn lemma_winnings_grow<T: Ranked>(hands: Seq<HandView<T>>, k: int, n: int)
    requires
        k <= n,
    ensures
        winnings(hands, k) <= winnings(hands, n),
    decreases n - k,
{
    if k < n {
        lemma_winnings_grow(hands, k, n - 1);
        assert(place(hands, n - 1) * hands[n - 1].bid >= 0) by (nonlinear_arith)
            requires
                place(hands, n - 1) >= 0,
                hands[n - 1].bid >= 0,
        ;
    }
}

/// The total winnings: every hand wins its bid times its place among the
/// hands, the weakest hand taking the first place. `None` where two hands
/// have no order or the winnings do not fit `usize`.
pub fn total_winnings<T: Ranked>(hands: &Vec<Hand<T>>) -> (r: Option<usize>)
    ensures
        r == if solvable(hands_view(hands@)) {
            Some(winnings(hands_view(hands@), hands.len() as int) as usize)
        } else {
            None
        },
{
    let n = hands.len();
    let ghost hs = hands_view(hands@);
    let mut total: usize = 0;
    let mut fits = true;
    let mut i: usize = 0;
    while i < n
        invariant
            i <= n,
            n == hands.len(),
            hs == hands_view(hands@),
            fits ==> total == winnings(hs, i as int),
            !fits ==> winnings(hs, n as int) > usize::MAX,
            forall|a: int, b: int|
                0 <= a < i && 0 <= b < n && a != b ==> (#[trigger] weaker(hs[b], hs[a])) is Some,
        decreases n - i,
    {
        let mut count: usize = 0;
        let mut j: usize = 0;
        while j < n
            invariant
                j <= n,
                i < n,
                n == hands.len(),
                hs == hands_view(hands@),
                count == weaker_count(hs, i as int, j as int),
                count <= j,
                j > i ==> count < j,
                forall|b: int| 0 <= b < j && b != i ==> (#[trigger] weaker(hs[b], hs[i as int])) is Some,
            decreases n - j,
        {
            assert(hs[j as int] == hands@[j as int]@);
            assert(hs[i as int] == hands@[i as int]@);
            match is_weaker(&hands[j], &hands[i]) {
                Some(true) => {
                    count += 1;
                },
                Some(false) => {},
                None => {
                    if i != j {
                        assert(weaker(hs[j as int], hs[i as int]) is None);
                        return None;
                    }
                },
            }
            j += 1;
        }
        proof {
            lemma_winnings_grow(hs, i + 1, n as int);
            assert(place(hs, i as int) * hs[i as int].bid >= 0) by (nonlinear_arith)
                requires
                    place(hs, i as int) >= 0,
                    hs[i as int].bid >= 0,
            ;
            assert(hs[i as int] == hands@[i as int]@);
            assert(place(hs, i as int) == count + 1);
            assert(winnings(hs, i + 1) == winnings(hs, i as int) + (count + 1) * hands@[i as int].bid);
        }
        if fits {
            let sum = match (count + 1).checked_mul(hands[i].bid) {
                Some(won) => total.checked_add(won),
                None => None,
            };
            match sum {
                Some(sum) => {
                    total = sum;
                },
                None => {
                    fits = false;
                },
            }
        }
        i += 1;
    }
    assert forall|a: int, b: int| 0 <= a < hs.len() && 0 <= b < hs.len() && a != b implies (
    #[trigger] weaker(hs[a], hs[b])) is Some by {
        assert(weaker(hs[a], hs[b]) is Some);
    }
    if fits {
        Some(total)
    } else {
        None
    }
}

/// Whether the total winnings of `hands` can be worked out: any two hands
/// have an order, and the sum fits `usize`.
pub open spec fn solvable<T: Ranked>(hands: Seq<HandView<T>>) -> bool {
    all_ordered(hands) && winnings(hands, hands.len() as int) <= usize::MAX
}

/// The total winnings of the hands of the first part.
pub fn part_one(hands: &Vec<Hand<Card>>) -> (n: usize)
    requires
        solvable(hands_view(hands@)),
    ensures
        n == winnings(hands_view(hands@), hands.len() as int),
{
    total_winnings(hands).unwrap()
}

/// The total winnings of the hands of the second part.
pub fn part_two(hands: &Vec<Hand<Card2>>) -> (n: usize)
    requires
        solvable(hands_view(hands@)),
    ensures
        n == winnings(hands_view(hands@), hands.len() as int),
{
    total_winnings(hands).unwrap()
}

/// The cards that the first `k` characters write, in order; a character
/// that writes no card is passed over.
pub open spec fn cards_among(chars: Seq<char>, k: int) -> Seq<Card>
    decreases k,
{
    if k <= 0 {
        Seq::empty()
    } else {
        match card_of(chars[k - 1]) {
            Some(c) => cards_among(chars, k - 1).push(c),
            None => cards_among(chars, k - 1),
        }
    }
}

/// The cards of the second part that the first `k` characters write.
pub open spec fn cards2_among(chars: Seq<char>, k: int) -> Seq<Card2>
    decreases k,
{
    if k <= 0 {
        Seq::empty()
    } else {
        match card2_of(chars[k - 1]) {
            Some(c) => cards2_among(chars, k - 1).push(c),
            None => cards2_among(chars, k - 1),
        }
    }
}

/// The hand that a line writes: its first word holds the cards, its second
/// the bid. `None` where the line has fewer than two words, the bid is no
/// `usize`, or the hand has no card.
pub open spec fn hand_of(line: Seq<char>) -> Option<HandView<Card>> {
    let ws = words_of(line);
    if ws.len() >= 2 {
        let cards = cards_among(ws[0], ws[0].len() as int);
        match (usize_of(ws[1]), kind_of(cards)) {
            (Some(bid), Some(set)) => Some(HandView { cards, bid, set }),
            _ => None,
        }
    } else {
        None
    }
}

/// The card that takes the place of a joker as number `k` of twelve: every
/// card but the joker, from the weakest on.
pub open spec fn valid_card(k: int) -> Card2 {
    if k == 0 {
        Card2::N2
    } else if k == 1 {
        Card2::N3
    } else if k == 2 {
        Card2::N4
    } else if k == 3 {
        Card2::N5
    } else if k == 4 {
        Card2::N6
    } else if k == 5 {
        Card2::N7
    } else if k == 6 {
        Card2::N8
    } else if k == 7 {
        Card2::N9
    } else if k == 8 {
        Card2::T
    } else if k == 9 {
        Card2::Q
    } else if k == 10 {
        Card2::K
    } else {
        Card2::A
    }
}

/// Every hand of `list` with each of the twelve cards at the place `i`:
/// the hands in order, and for each hand the cards in order.
pub open spec fn replaced_each(list: Seq<Seq<Card2>>, i: int) -> Seq<Seq<Card2>> {
    Seq::new(list.len() * 12, |n: int| list[n / 12].update(i, valid_card(n % 12)))
}

/// The hands that `cards` can stand for once the jokers among its first `p`
/// cards have been replaced, each by every card but the joker.
pub open spec fn candidates(cards: Seq<Card2>, p: int) -> Seq<Seq<Card2>>
    decreases p,
{
    if p <= 0 {
        seq![cards]
    } else if cards[p - 1] == Card2::J {
        replaced_each(candidates(cards, p - 1), p - 1)
    } else {
        candidates(cards, p - 1)
    }
}

/// The strongest kind among the first `k` hands of `list`, the last of them
/// where several are equally strong. `None` for no hands, or where one of
/// them has no kind.
pub open spec fn best_upto(list: Seq<Seq<Card2>>, k: int) -> Option<HandKind<Card2>>
    decreases k,
{
    if k <= 0 {
        None
    } else if k == 1 {
        kind_of(list[0])
    } else {
        match (best_upto(list, k - 1), kind_of(list[k - 1])) {
            (Some(b), Some(c)) => if c.strength() >= b.strength() {
                Some(c)
            } else {
                Some(b)
            },
            _ => None,
        }
    }
}

/// The kind of a hand with jokers: the strongest kind of the hands that it
/// can stand for. `None` where these are more than `usize` can count, or
/// the hand has no card.
pub open spec fn best_kind(cards: Seq<Card2>) -> Option<HandKind<Card2>> {
    let all = candidates(cards, cards.len() as int);
    if forall|p: int| 0 <= p <= cards.len() ==> (#[trigger] candidates(cards, p)).len()
        <= usize::MAX {
        best_upto(all, all.len() as int)
    } else {
        None
    }
}

/// The hand of the second part that a line writes; its kind is the best
/// that its jokers allow.
pub open spec fn hand2_of(line: Seq<char>) -> Option<HandView<Card2>> {
    let ws = words_of(line);
    if ws.len() >= 2 {
        let cards = cards2_among(ws[0], ws[0].len() as int);
        match (usize_of(ws[1]), best_kind(cards)) {
            (Some(bid), Some(set)) => Some(HandView { cards, bid, set }),
            _ => None,
        }
    } else {
        None
    }
}

fn read_cards(word: &Vec<char>) -> (cards: Vec<Card>)
    ensures
        cards@ == cards_among(word@, word.len() as int),
{
    let mut cards: Vec<Card> = Vec::new();
    let mut k: usize = 0;
    while k < word.len()
        invariant
            k <= word.len(),
            cards@ == cards_among(word@, k as int),
        decreases word.len() - k,
    {
        match Card::from_char(word[k]) {
            Some(c) => {
                cards.push(c);
            },
            None => {},
        }
        k += 1;
    }
    cards
}

fn read_cards2(word: &Vec<char>) -> (cards: Vec<Card2>)
    ensures
        cards@ == cards2_among(word@, word.len() as int),
{
    let mut cards: Vec<Card2> = Vec::new();
    let mut k: usize = 0;
    while k < word.len()
        invariant
            k <= word.len(),
            cards@ == cards2_among(word@, k as int),
        decreases word.len() - k,
    {
        match Card2::from_char(word[k]) {
            Some(c) => {
                cards.push(c);
            },
            None => {},
        }
        k += 1;
    }
    cards
}

fn nth_valid(k: usize) -> (c: Card2)
    requires
        k < 12,
    ensures
        c == valid_card(k as int),
{
    if k == 0 {
        Card2::N2
    } else if k == 1 {
        Card2::N3
    } else if k == 2 {
        Card2::N4
    } else if k == 3 {
        Card2::N5
    } else if k == 4 {
        Card2::N6
    } else if k == 5 {
        Card2::N7
    } else if k == 6 {
        Card2::N8
    } else if k == 7 {
        Card2::N9
    } else if k == 8 {
        Card2::T
    } else if k == 9 {
        Card2::Q
    } else if k == 10 {
        Card2::K
    } else {
        Card2::A
    }
}

fn with_card(hand: &Vec<Card2>, i: usize, c: Card2) -> (out: Vec<Card2>)
    requires
        i < hand.len(),
    ensures
        out@ == hand@.update(i as int, c),
{
    let mut out: Vec<Card2> = Vec::new();
    let mut k: usize = 0;
    while k < hand.len()
        invariant
            k <= hand.len(),
            i < hand.len(),
            out.len() == k,
            forall|j: int| 0 <= j < k ==> out@[j] == hand@.update(i as int, c)[j],
        decreases hand.len() - k,
    {
        out.push(
            if k == i {
                c
            } else {
                hand[k]
            },
        );
        k += 1;
    }
    assert(out@ =~= hand@.update(i as int, c));
    out
}

/// The views of the hands of a vector of card vectors.
pub open spec fn hands_of(list: Seq<Vec<Card2>>) -> Seq<Seq<Card2>> {
    list.map_values(|h: Vec<Card2>| h@)
}

fn replace_each(list: &Vec<Vec<Card2>>, i: usize) -> (out: Option<Vec<Vec<Card2>>>)
    requires
        forall|a: int| 0 <= a < list.len() ==> i < (#[trigger] list@[a]).len(),
    ensures
        match out {
            Some(v) => hands_of(v@) == replaced_each(hands_of(list@), i as int),
            None => replaced_each(hands_of(list@), i as int).len() > usize::MAX,
        },
{
    if list.len().checked_mul(12).is_none() {
        return None;
    }
    let mut out: Vec<Vec<Card2>> = Vec::new();
    let mut a: usize = 0;
    while a < list.len()
        invariant
            a <= list.len(),
            list.len() * 12 <= usize::MAX,
            out.len() == a * 12,
            forall|a: int| 0 <= a < list.len() ==> i < (#[trigger] list@[a]).len(),
            forall|n: int|
                0 <= n < a * 12 ==> (#[trigger] out@[n])@ == list@[n / 12]@.update(
                    i as int,
                    valid_card(n % 12),
                ),
        decreases list.len() - a,
    {
        let mut c: usize = 0;
        while c < 12
            invariant
                c <= 12,
                a < list.len(),
                list.len() * 12 <= usize::MAX,
                out.len() == a * 12 + c,
                i < list@[a as int].len(),
                forall|n: int|
                    0 <= n < a * 12 + c ==> (#[trigger] out@[n])@ == list@[n / 12]@.update(
                        i as int,
                        valid_card(n % 12),
                    ),
            decreases 12 - c,
        {
            let hand = with_card(&list[a], i, nth_valid(c));
            out.push(hand);
            c += 1;
        }
        a += 1;
    }
    proof {
        let want = replaced_each(hands_of(list@), i as int);
        assert forall|n: int| 0 <= n < want.len() implies hands_of(out@)[n] == want[n] by {
            assert(hands_of(list@)[n / 12] == list@[n / 12]@);
        }
        assert(hands_of(out@) =~= want);
    }
    Some(out)
}

/// The kind of a hand with jokers: the strongest kind of the hands that it
/// can stand for.
pub fn find_best_kind(cards: &Vec<Card2>) -> (r: Option<HandKind<Card2>>)
    ensures
        r == best_kind(cards@),
{
    let mut all: Vec<Vec<Card2>> = Vec::new();
    all.push(with_copy(cards));
    assert(hands_of(all@) =~= seq![cards@]);
    let mut p: usize = 0;
    while p < cards.len()
        invariant
            p <= cards.len(),
            hands_of(all@) == candidates(cards@, p as int),
            forall|q: int| 0 <= q <= p ==> (#[trigger] candidates(cards@, q)).len() <= usize::MAX,
            forall|a: int| 0 <= a < all.len() ==> (#[trigger] all@[a]).len() == cards.len(),
        decreases cards.len() - p,
    {
        if cards[p] == Card2::J {
            match replace_each(&all, p) {
                Some(next) => {
                    proof {
                        assert(hands_of(next@).len() == next.len());
                        assert(hands_of(all@).len() == all.len());
                        assert(replaced_each(hands_of(all@), p as int).len() == all.len() * 12);
                        assert forall|a: int| 0 <= a < next.len() implies (#[trigger] next@[a]).len()
                            == cards.len() by {
                            assert(0 <= a / 12 < all.len());
                            assert(hands_of(next@)[a] == next@[a]@);
                            assert(hands_of(all@)[a / 12] == all@[a / 12]@);
                        }
                    }
                    all = next;
                },
                None => {
                    assert(candidates(cards@, p + 1).len() > usize::MAX);
                    return None;
                },
            }
        }
        p += 1;
    }
    let mut best: Option<HandKind<Card2>> = None;
    let mut k: usize = 0;
    while k < all.len()
        invariant
            k <= all.len(),
            best == best_upto(hands_of(all@), k as int),
            k > 1 && best is None ==> best_upto(hands_of(all@), all.len() as int) is None,
        decreases all.len() - k,
    {
        assert(hands_of(all@)[k as int] == all@[k as int]@);
        let kind = HandKind::checked_from_cards(&all[k]);
        best =
        if k == 0 {
            kind
        } else {
            match (best, kind) {
                (Some(b), Some(c)) => if c.level() >= b.level() {
                    Some(c)
                } else {
                    Some(b)
                },
                _ => None,
            }
        };
        proof {
            if best is None && k >= 1 {
                lemma_best_stays_none(hands_of(all@), k + 1, all.len() as int);
            }
        }
        k += 1;
    }
    best
}

/// Once a hand without kind is met, there is no best kind.
pub proof fn lemma_best_stays_none(list: Seq<Seq<Card2>>, k: int, n: int)
    requires
        2 <= k <= n,
        best_upto(list, k) is None,
    ensures
        best_upto(list, n) is None,
    decreases n - k,
{
    if k < n {
        lemma_best_stays_none(list, k, n - 1);
    }
}

fn with_copy(hand: &Vec<Card2>) -> (out: Vec<Card2>)
    ensures
        out@ == hand@,
{
    let mut out: Vec<Card2> = Vec::new();
    let mut k: usize = 0;
    while k < hand.len()
        invariant
            k <= hand.len(),
            out@ == hand@.take(k as int),
        decreases hand.len() - k,
    {
        out.push(hand[k]);
        k += 1;
    }
    assert(hand@.take(k as int) =~= hand@);
    out
}

/// The hands that the lines of a text write: `None` where a line writes
/// none.
pub open spec fn parse_of(input: Seq<char>) -> Option<Seq<HandView<Card>>> {
    let ls = lines_of(input);
    if forall|i: int| 0 <= i < ls.len() ==> hand_of(#[trigger] ls[i]) is Some {
        Some(Seq::new(ls.len(), |i: int| hand_of(ls[i])->0))
    } else {
        None
    }
}

/// The hands of the second part that the lines of a text write.
pub open spec fn parse2_of(input: Seq<char>) -> Option<Seq<HandView<Card2>>> {
    let ls = lines_of(input);
    if forall|i: int| 0 <= i < ls.len() ==> hand2_of(#[trigger] ls[i]) is Some {
        Some(Seq::new(ls.len(), |i: int| hand2_of(ls[i])->0))
    } else {
        None
    }
}

fn read_hand(line: &Vec<char>) -> (r: Option<Hand<Card>>)
    ensures
        match r {
            Some(h) => hand_of(line@) == Some(h@),
            None => hand_of(line@) is None,
        },
{
    let ws = words(line);
    if ws.len() < 2 {
        return None;
    }
    assert(views(ws@)[0] == ws@[0]@);
    assert(views(ws@)[1] == ws@[1]@);
    let cards = read_cards(&ws[0]);
    match (parse_usize(&ws[1]), HandKind::checked_from_cards(&cards)) {
        (Some(bid), Some(set)) => Some(Hand { cards, bid, set }),
        _ => None,
    }
}

fn read_hand2(line: &Vec<char>) -> (r: Option<Hand<Card2>>)
    ensures
        match r {
            Some(h) => hand2_of(line@) == Some(h@),
            None => hand2_of(line@) is None,
        },
{
    let ws = words(line);
    if ws.len() < 2 {
        return None;
    }
    assert(views(ws@)[0] == ws@[0]@);
    assert(views(ws@)[1] == ws@[1]@);
    let cards = read_cards2(&ws[0]);
    match (parse_usize(&ws[1]), find_best_kind(&cards)) {
        (Some(bid), Some(set)) => Some(Hand { cards, bid, set }),
        _ => None,
    }
}

/// Reads the hands of a text: `None` where a line writes no hand.
pub fn checked_parse(input: &str) -> (r: Option<Vec<Hand<Card>>>)
    ensures
        match r {
            Some(hands) => parse_of(input@) == Some(hands_view(hands@)),
            None => parse_of(input@) is None,
        },
{
    let ls = lines(&chars_of(input));
    let mut hands: Vec<Hand<Card>> = Vec::new();
    let mut i: usize = 0;
    while i < ls.len()
        invariant
            i <= ls.len(),
            views(ls@) == lines_of(input@),
            hands.len() == i,
            forall|j: int| 0 <= j < i ==> hand_of(#[trigger] views(ls@)[j]) == Some(hands@[j]@),
        decreases ls.len() - i,
    {
        assert(views(ls@)[i as int] == ls@[i as int]@);
        match read_hand(&ls[i]) {
            Some(h) => {
                hands.push(h);
            },
            None => {
                assert(hand_of(lines_of(input@)[i as int]) is None);
                return None;
            },
        }
        i += 1;
    }
    proof {
        let all = lines_of(input@);
        assert forall|j: int| 0 <= j < all.len() implies hand_of(#[trigger] all[j]) is Some by {
            assert(hand_of(views(ls@)[j]) is Some);
        }
        assert forall|j: int| 0 <= j < hands@.len() implies hands_view(hands@)[j] == hand_of(
            all[j],
        )->0 by {
            assert(hand_of(views(ls@)[j]) == Some(hands@[j]@));
        }
        assert(hands_view(hands@) =~= Seq::new(all.len(), |i: int| hand_of(all[i])->0));
    }
    Some(hands)
}

/// Reads the hands of the second part: `None` where a line writes no hand.
pub fn checked_parse2(input: &str) -> (r: Option<Vec<Hand<Card2>>>)
    ensures
        match r {
            Some(hands) => parse2_of(input@) == Some(hands_view(hands@)),
            None => parse2_of(input@) is None,
        },
{
    let ls = lines(&chars_of(input));
    let mut hands: Vec<Hand<Card2>> = Vec::new();
    let mut i: usize = 0;
    while i < ls.len()
        invariant
            i <= ls.len(),
            views(ls@) == lines_of(input@),
            hands.len() == i,
            forall|j: int| 0 <= j < i ==> hand2_of(#[trigger] views(ls@)[j]) == Some(hands@[j]@),
        decreases ls.len() - i,
    {
        assert(views(ls@)[i as int] == ls@[i as int]@);
        match read_hand2(&ls[i]) {
            Some(h) => {
                hands.push(h);
            },
            None => {
                assert(hand2_of(lines_of(input@)[i as int]) is None);
                return None;
            },
        }
        i += 1;
    }
    proof {
        let all = lines_of(input@);
        assert forall|j: int| 0 <= j < all.len() implies hand2_of(#[trigger] all[j]) is Some by {
            assert(hand2_of(views(ls@)[j]) is Some);
        }
        assert forall|j: int| 0 <= j < hands@.len() implies hands_view(hands@)[j] == hand2_of(
            all[j],
        )->0 by {
            assert(hand2_of(views(ls@)[j]) == Some(hands@[j]@));
        }
        assert(hands_view(hands@) =~= Seq::new(all.len(), |i: int| hand2_of(all[i])->0));
    }
    Some(hands)
}

/// Reads the hands of a text.
pub fn parse(input: &str) -> (hands: Vec<Hand<Card>>)
    requires
        parse_of(input@) is Some,
    ensures
        parse_of(input@) == Some(hands_view(hands@)),
{
    checked_parse(input).unwrap()
}

/// Reads the hands of the second part of a text.
pub fn parse2(input: &str) -> (hands: Vec<Hand<Card2>>)
    requires
        parse2_of(input@) is Some,
    ensures
        parse2_of(input@) == Some(hands_view(hands@)),
{
    checked_parse2(input).unwrap()
}

/// How a kind of the first strength compares with one of the second.
pub open spec fn strength_order(a: nat, b: nat) -> Ordering {
    if a < b {
        Ordering::Less
    } else if a == b {
        Ordering::Equal
    } else {
        Ordering::Greater
    }
}

/// How the hand `a` compares with the hand `b`: hands without an order
/// count as equal.
pub open spec fn hand_order<T: Ranked>(a: HandView<T>, b: HandView<T>) -> Ordering {
    match weaker(a, b) {
        Some(true) => Ordering::Less,
        Some(false) => Ordering::Greater,
        None => Ordering::Equal,
    }
}

impl<T> HandKind<T> {
    /// Compares two kinds by their strength; the cards that make them up
    /// take no part.
    pub fn cmp(&self, other: &HandKind<T>) -> (o: Ordering)
        ensures
            o == strength_order(self.strength(), other.strength()),
    {
        let a = self.level();
        let b = other.level();
        if a < b {
            Ordering::Less
        } else if a == b {
            Ordering::Equal
        } else {
            Ordering::Greater
        }
    }
}

impl<T: Ranked> Hand<T> {
    /// Compares two hands that have an order: by kind, then by the first
    /// cards that differ.
    pub fn cmp(&self, other: &Hand<T>) -> (o: Ordering)
        requires
            weaker(self@, other@) is Some,
        ensures
            o == hand_order(self@, other@),
            o != Ordering::Equal,
    {
        match is_weaker(self, other) {
            Some(true) => Ordering::Less,
            _ => Ordering::Greater,
        }
    }
}

impl<T: Ranked> PartialEq for Hand<T> {
    fn eq(&self, other: &Hand<T>) -> (r: bool) {
        is_weaker(self, other).is_none()
    }
}

impl<T: Ranked> vstd::std_specs::cmp::PartialEqSpecImpl for Hand<T> {
    open spec fn obeys_eq_spec() -> bool {
        true
    }

    open spec fn eq_spec(&self, other: &Hand<T>) -> bool {
        weaker(self@, other@) is None
    }
}

impl<T: Ranked> Eq for Hand<T> {

}

impl<T: Ranked> PartialOrd for Hand<T> {
    fn partial_cmp(&self, other: &Hand<T>) -> (r: Option<Ordering>) {
        match is_weaker(self, other) {
            Some(true) => Some(Ordering::Less),
            Some(false) => Some(Ordering::Greater),
            None => Some(Ordering::Equal),
        }
    }
}

impl<T: Ranked> vstd::std_specs::cmp::PartialOrdSpecImpl for Hand<T> {
    open spec fn obeys_partial_cmp_spec() -> bool {
        true
    }

    open spec fn partial_cmp_spec(&self, other: &Hand<T>) -> Option<Ordering> {
        Some(hand_order(self@, other@))
    }
}

} // verus!
