use rustvent2023::day07::{
    checked_parse, checked_parse2, find_best_kind, is_weaker, parse, parse2, part_one, part_two,
    total_winnings, AllwaysEqual, Card, Card2, Hand, HandKind,
};
use std::cmp::Ordering;

const TEST: &str = "32T3K 765
T55J5 684
KK677 28
KTJJT 220
QQQJA 483
";

fn hand(s: &str) -> Hand<Card> {
    let cards: Vec<Card> = s.chars().filter_map(Card::from_char).collect();
    let set = HandKind::from_cards(&cards);
    Hand { cards, bid: 1, set }
}

fn kind(s: &str) -> HandKind<Card> {
    let cards: Vec<Card> = s.chars().filter_map(Card::from_char).collect();
    HandKind::from_cards(&cards)
}

fn payload<T: Copy>(k: &HandKind<T>) -> Vec<T> {
    match k {
        HandKind::High(AllwaysEqual(a))
        | HandKind::OnePair(AllwaysEqual(a))
        | HandKind::ThreeOAK(AllwaysEqual(a))
        | HandKind::FourOAK(AllwaysEqual(a))
        | HandKind::FiveOAK(AllwaysEqual(a)) => vec![*a],
        HandKind::TwoPair(AllwaysEqual((a, b))) | HandKind::FullHouse(AllwaysEqual((a, b))) => {
            vec![*a, *b]
        }
    }
}

#[test]
fn day07_test_parse() {
    let hands = parse(TEST);

    let m1 = HandKind::OnePair(Card::N2.into());
    let m2 = HandKind::OnePair(Card::N3.into());

    assert_eq!(m1.cmp(&m2), Ordering::Equal);

    assert_eq!(hands[0].bid, 765);
    assert_eq!(hands[1].set, HandKind::ThreeOAK(Card::N5.into()));
    assert!(hands[2] > hands[3]);
    assert_eq!(hands[2].cards, vec![Card::K, Card::K, Card::N6, Card::N7, Card::N7]);
}

#[test]
fn day07_test_part_one() {
    let hands = parse(TEST);
    assert_eq!(part_one(&hands), 6440);
}

#[test]
fn day07_test_part_two() {
    let hands = parse2(TEST);
    assert_eq!(part_two(&hands), 5905);
}

#[test]
fn cards_are_read_from_their_characters() {
    assert_eq!(Card::from_char('2'), Some(Card::N2));
    assert_eq!(Card::from_char('T'), Some(Card::T));
    assert_eq!(Card::from_char('J'), Some(Card::J));
    assert_eq!(Card::from_char('A'), Some(Card::A));
    assert_eq!(Card::from_char('1'), None);
    assert_eq!(Card::from_char('a'), None);
    assert_eq!(Card2::from_char('J'), Some(Card2::J));
    assert_eq!(Card2::from_char('9'), Some(Card2::N9));
    assert_eq!(Card2::from_char('x'), None);
    assert!(Card::J > Card::T);
    assert!(Card2::J < Card2::N2);
}

#[test]
fn every_kind_with_its_cards() {
    assert_eq!(payload(&kind("AAAAA")), vec![Card::A]);
    assert!(matches!(kind("AAAAA"), HandKind::FiveOAK(_)));
    assert!(matches!(kind("AA8AA"), HandKind::FourOAK(_)));
    assert!(matches!(kind("23332"), HandKind::FullHouse(_)));
    assert_eq!(payload(&kind("23332")), vec![Card::N3, Card::N2]);
    assert!(matches!(kind("TTT98"), HandKind::ThreeOAK(_)));
    assert!(matches!(kind("K3K32"), HandKind::TwoPair(_)));
    assert_eq!(payload(&kind("K3K32")), vec![Card::N3, Card::K]);
    assert!(matches!(kind("A23A4"), HandKind::OnePair(_)));
    assert_eq!(payload(&kind("A23A4")), vec![Card::A]);
    assert!(matches!(kind("23456"), HandKind::High(_)));
    assert_eq!(payload(&kind("23456")), vec![Card::N6]);
    assert_eq!(HandKind::<Card>::checked_from_cards(&vec![]), None);
}

#[test]
fn hands_of_other_lengths() {
    // three pairs count as one pair, six of a card as a high card
    assert!(matches!(kind("223344"), HandKind::OnePair(_)));
    assert_eq!(payload(&kind("223344")), vec![Card::N2]);
    assert!(matches!(kind("222222"), HandKind::High(_)));
    assert!(matches!(kind("2"), HandKind::High(_)));
    assert!(matches!(kind("22"), HandKind::OnePair(_)));
}

#[test]
fn kinds_compare_by_strength_alone() {
    assert_eq!(kind("AAAAA").cmp(&kind("22222")), Ordering::Equal);
    assert_eq!(kind("AAAA2").cmp(&kind("22222")), Ordering::Less);
    assert_eq!(kind("22233").cmp(&kind("AAAKQ")), Ordering::Greater);
    assert_eq!(kind("AAAAA"), kind("22222"));
    assert_ne!(kind("AAAA2"), kind("22222"));
}

#[test]
fn hands_compare_by_kind_then_card_by_card() {
    assert_eq!(is_weaker(&hand("2AAAA"), &hand("33332")), Some(true));
    assert_eq!(is_weaker(&hand("33332"), &hand("2AAAA")), Some(false));
    assert_eq!(is_weaker(&hand("77788"), &hand("77888")), Some(true));
    assert_eq!(is_weaker(&hand("AAAAK"), &hand("22222")), Some(true));
    assert_eq!(is_weaker(&hand("23456"), &hand("23456")), None);
    assert_eq!(hand("2AAAA").cmp(&hand("33332")), Ordering::Less);
    assert!(hand("33332") > hand("2AAAA"));
    assert!(hand("23456") == hand("23456"));
    assert!(hand("23456") != hand("23457"));
}

#[test]
fn jokers_stand_for_the_best_card() {
    let cards = |s: &str| -> Vec<Card2> { s.chars().filter_map(Card2::from_char).collect() };
    assert!(matches!(find_best_kind(&cards("T55J5")), Some(HandKind::FourOAK(_))));
    assert!(matches!(find_best_kind(&cards("KTJJT")), Some(HandKind::FourOAK(_))));
    assert!(matches!(find_best_kind(&cards("JJJJJ")), Some(HandKind::FiveOAK(_))));
    assert!(matches!(find_best_kind(&cards("2345J")), Some(HandKind::OnePair(_))));
    assert!(matches!(find_best_kind(&cards("2233J")), Some(HandKind::FullHouse(_))));
    assert!(matches!(find_best_kind(&cards("32T3K")), Some(HandKind::OnePair(_))));
    assert_eq!(find_best_kind(&vec![]), None);
    // the last of the strongest hands gives the cards
    assert_eq!(payload(&find_best_kind(&cards("JJJJJ")).unwrap()), vec![Card2::A]);
    assert_eq!(payload(&find_best_kind(&cards("2345J")).unwrap()), vec![Card2::N5]);
}

#[test]
fn the_best_kind_is_at_least_the_kind_with_jokers_left() {
    let all = [
        Card2::J, Card2::N2, Card2::N3, Card2::N4, Card2::N5, Card2::N6, Card2::N7, Card2::N8,
        Card2::N9, Card2::T, Card2::Q, Card2::K, Card2::A,
    ];
    for a in [Card2::J, Card2::N2, Card2::A] {
        for b in [Card2::J, Card2::N2, Card2::K] {
            for c in all {
                for d in [Card2::J, Card2::N3, Card2::K] {
                    for e in [Card2::J, Card2::N2, Card2::N3] {
                        let cards = vec![a, b, c, d, e];
                        let plain = HandKind::from_cards(&cards);
                        let best = find_best_kind(&cards).unwrap();
                        assert_ne!(best.cmp(&plain), Ordering::Less);
                    }
                }
            }
        }
    }
}

#[test]
fn winnings_go_by_place() {
    let mut a = hand("23456");
    a.bid = 10;
    let mut b = hand("22345");
    b.bid = 100;
    let mut c = hand("22234");
    c.bid = 1000;
    assert_eq!(total_winnings(&vec![c.clone(), a.clone(), b.clone()]), Some(10 + 200 + 3000));
    assert_eq!(total_winnings(&vec![a.clone(), a.clone()]), None);
    assert_eq!(total_winnings::<Card>(&vec![]), Some(0));
    assert_eq!(total_winnings(&vec![a]), Some(10));
}

#[test]
fn lines_that_write_no_hand() {
    assert!(checked_parse("32T3K").is_none());
    assert!(checked_parse("32T3K x").is_none());
    assert!(checked_parse("xyz 5").is_none());
    assert!(checked_parse("32T3K 765\n\nT55J5 684").is_none());
    assert!(checked_parse2("xyz 5").is_none());
    assert_eq!(checked_parse("").unwrap().len(), 0);
    let hands = checked_parse("3x2T-3K 7 rest").unwrap();
    assert_eq!(hands[0].cards, vec![Card::N3, Card::N2, Card::T, Card::N3, Card::K]);
    assert_eq!(hands[0].bid, 7);
}

#[test]
fn day07_parsing_twice_gives_the_same() {
    let a = checked_parse(TEST).unwrap();
    let b = checked_parse(TEST).unwrap();
    assert_eq!(a.len(), b.len());
    for (x, y) in a.iter().zip(b.iter()) {
        assert_eq!(x.cards, y.cards);
        assert_eq!(x.bid, y.bid);
        assert_eq!(x.set, y.set);
    }
    let c = checked_parse2(TEST).unwrap();
    assert_eq!(total_winnings(&c), total_winnings(&c));
}

#[test]
fn cards_of_a_kind_take_no_part_in_comparisons() {
    let a: AllwaysEqual<Card> = Card::N2.into();
    let b: AllwaysEqual<Card> = Card::A.into();
    assert!(a == b);
    assert_eq!(a.partial_cmp(&b), Some(Ordering::Equal));
    assert!(!(a < b) && !(a > b));
}
