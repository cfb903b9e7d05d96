//! What jokers can do for a hand: the best kind that a hand of up to five
//! cards reaches with its jokers replaced is never weaker than the kind of
//! the hand with its jokers left as they are.
use crate::day07::{
    best_kind, best_upto, candidates, count_of, count_rank, kind_of, rank_with, replaced_each,
    valid_card, Card2, Ranked,
};
use vstd::prelude::*;

verus! {

/// `cards` with each joker among its first `p` cards replaced by `x`.
pub open spec fn filled(cards: Seq<Card2>, p: int, x: Card2) -> Seq<Card2> {
    Seq::new(
        cards.len(),
        |i: int|
            if i < p && cards[i] == Card2::J {
                x
            } else {
                cards[i]
            },
    )
}

/// 12 to the power `n`.
pub open spec fn twelve_to(n: nat) -> nat
    decreases n,
{
    if n == 0 {
        1
    } else {
        12 * twelve_to((n - 1) as nat)
    }
}

/// Every hand that a hand can stand for is as long as the hand, there are
/// at most 12 to the power `p` of them, and the hand filled with the card
/// of number `c` is the one of index `i`.
pub proof fn lemma_filled_is_candidate(cards: Seq<Card2>, p: int, c: int) -> (i: int)
    requires
        0 <= p <= cards.len(),
        0 <= c < 12,
    ensures
        0 <= i < candidates(cards, p).len(),
        candidates(cards, p)[i] == filled(cards, p, valid_card(c)),
        candidates(cards, p).len() <= twelve_to(p as nat),
        forall|k: int|
            0 <= k < candidates(cards, p).len() ==> (#[trigger] candidates(cards, p)[k]).len()
                == cards.len(),
    decreases p,
{
    if p == 0 {
        assert(filled(cards, 0, valid_card(c)) =~= cards);
        0
    } else {
        let before = candidates(cards, p - 1);
        let i0 = lemma_filled_is_candidate(cards, p - 1, c);
        if cards[p - 1] == Card2::J {
            let i = i0 * 12 + c;
            let all = replaced_each(before, p - 1);
            assert(all[i] == before[i / 12].update(p - 1, valid_card(i % 12)));
            assert(all[i] =~= filled(cards, p, valid_card(c)));
            assert forall|k: int| 0 <= k < all.len() implies (#[trigger] all[k]).len()
                == cards.len() by {
                assert(before[k / 12].len() == cards.len());
            }
            i
        } else {
            assert(filled(cards, p, valid_card(c)) =~= filled(cards, p - 1, valid_card(c)));
            i0
        }
    }
}

/// The best kind among hands that all hold a card is at least as strong as
/// the kind of each of them.
pub proof fn lemma_best_dominates(list: Seq<Seq<Card2>>, n: int, i: int)
    requires
        0 <= i < n <= list.len(),
        forall|k: int| 0 <= k < n ==> (#[trigger] list[k]).len() > 0,
    ensures
        best_upto(list, n) is Some,
        kind_of(list[i]) is Some,
        best_upto(list, n)->0.strength() >= kind_of(list[i])->0.strength(),
    decreases n,
{
    assert(list[n - 1].len() > 0);
    assert(list[i].len() > 0);
    assert(list[0].len() > 0);
    if n > 1 {
        if i < n - 1 {
            lemma_best_dominates(list, n - 1, i);
        } else {
            lemma_best_dominates(list, n - 1, 0);
        }
    }
}

/// The number of ranks at or after `from`, and below 256, that exactly two
/// cards have.
pub open spec fn pairs_from(cards: Seq<Card2>, from: int) -> nat
    decreases 256 - from,
{
    if from < 0 || from >= 256 {
        0
    } else {
        pairs_from(cards, from + 1) + if count_of(cards, from as nat) == 2 {
            1nat
        } else {
            0nat
        }
    }
}

/// The first rank of two cards is there exactly when some rank has two
/// cards, and the pairs after it are one fewer.
pub proof fn lemma_first_pair(cards: Seq<Card2>, from: int)
    requires
        0 <= from,
    ensures
        rank_with(cards, 2, from) is Some <==> pairs_from(cards, from) >= 1,
        rank_with(cards, 2, from) matches Some(r) ==> from <= r < 256 && pairs_from(cards, from)
            == 1 + pairs_from(cards, r as int + 1),
    decreases 256 - from,
{
    if from < 256 && count_of(cards, from as nat) != 2 {
        lemma_first_pair(cards, from + 1);
    }
}

/// No card has a rank of 13 or more.
pub proof fn lemma_ranks_end(cards: Seq<Card2>, r: nat, k: int)
    requires
        r >= 13,
    ensures
        count_rank(cards, r, k) == 0,
    decreases k,
{
    if k > 0 {
        lemma_ranks_end(cards, r, k - 1);
    }
}

/// From rank 13 on no rank has cards.
pub proof fn lemma_tail_empty(cards: Seq<Card2>, c: nat, from: int)
    requires
        from >= 13,
        c > 0,
    ensures
        rank_with(cards, c, from) is None,
        pairs_from(cards, from) == 0,
    decreases 256 - from,
{
    if from < 256 {
        lemma_ranks_end(cards, from as nat, cards.len() as int);
        lemma_tail_empty(cards, c, from + 1);
    }
}

/// The counts of the thirteen ranks among the first `k` cards add up to
/// `k`.
pub proof fn lemma_counts_add_up(cards: Seq<Card2>, k: int)
    requires
        0 <= k <= cards.len(),
    ensures
        count_rank(cards, 0, k) + count_rank(cards, 1, k) + count_rank(cards, 2, k) + count_rank(
            cards,
            3,
            k,
        ) + count_rank(cards, 4, k) + count_rank(cards, 5, k) + count_rank(cards, 6, k)
            + count_rank(cards, 7, k) + count_rank(cards, 8, k) + count_rank(cards, 9, k)
            + count_rank(cards, 10, k) + count_rank(cards, 11, k) + count_rank(cards, 12, k) == k,
    decreases k,
{
    if k > 0 {
        lemma_counts_add_up(cards, k - 1);
    }
}

/// Filling the jokers with a card of rank `x` moves the count of the jokers
/// to that rank.
pub proof fn lemma_filled_counts(cards: Seq<Card2>, c: int, r: nat, k: int)
    requires
        0 <= c < 12,
        0 <= k <= cards.len(),
    ensures
        count_rank(filled(cards, cards.len() as int, valid_card(c)), r, k) == if r == 0 {
            0
        } else if r == c + 1 {
            count_rank(cards, r, k) + count_rank(cards, 0, k)
        } else {
            count_rank(cards, r, k)
        },
    decreases k,
{
    if k > 0 {
        lemma_filled_counts(cards, c, r, k - 1);
        assert(valid_card(c).rank_of() == c + 1);
    }
}

/// The number, from 0 to `k - 1`, of the card other than the joker that
/// the most cards of the hand have; the least such number.
pub open spec fn busiest(cards: Seq<Card2>, k: int) -> int
    decreases k,
{
    if k <= 1 {
        0
    } else {
        let b = busiest(cards, k - 1);
        if count_of(cards, k as nat) > count_of(cards, (b + 1) as nat) {
            k - 1
        } else {
            b
        }
    }
}

/// The busiest card is one of the first `k`, and no other of them has more
/// cards in the hand.
pub proof fn lemma_busiest(cards: Seq<Card2>, k: int)
    requires
        1 <= k <= 12,
    ensures
        0 <= busiest(cards, k) < k,
        forall|r: nat|
            1 <= r <= k ==> count_of(cards, (busiest(cards, k) + 1) as nat) >= #[trigger] count_of(
                cards,
                r,
            ),
    decreases k,
{
    if k > 1 {
        lemma_busiest(cards, k - 1);
    }
}

/// The strength of the kind of a hand of at most five cards, from the
/// counts of its ranks.
pub open spec fn strength_of(cards: Seq<Card2>) -> nat {
    if rank_with(cards, 5, 0) is Some {
        6
    } else if rank_with(cards, 4, 0) is Some {
        5
    } else if rank_with(cards, 3, 0) is Some {
        if rank_with(cards, 2, 0) is Some {
            4
        } else {
            3
        }
    } else if pairs_from(cards, 0) == 2 {
        2
    } else if pairs_from(cards, 0) >= 1 {
        1
    } else {
        0
    }
}

/// The kind of a hand has the strength that the counts of its ranks give.
pub proof fn lemma_strength(cards: Seq<Card2>)
    requires
        cards.len() > 0,
    ensures
        kind_of(cards) is Some,
        kind_of(cards)->0.strength() == strength_of(cards),
{
    lemma_first_pair(cards, 0);
    let two = rank_with(cards, 2, 0);
    if two is Some {
        lemma_first_pair(cards, two->0 as int + 1);
        let second = rank_with(cards, 2, two->0 as int + 1);
        if second is Some {
            lemma_first_pair(cards, second->0 as int + 1);
        }
    }
}

/// With its jokers filled by the card that most of its other cards are, a
/// hand of at most five cards is of a kind at least as strong as before.
#[verifier::rlimit(100)]
#[verifier::spinoff_prover]
pub proof fn lemma_filling_helps(cards: Seq<Card2>)
    requires
        0 < cards.len() <= 5,
    ensures
        strength_of(filled(cards, cards.len() as int, valid_card(busiest(cards, 12))))
            >= strength_of(cards),
{
    let n = cards.len() as int;
    let c = busiest(cards, 12);
    let full = filled(cards, n, valid_card(c));
    lemma_busiest(cards, 12);
    lemma_counts_add_up(cards, n);
    lemma_tail_empty(cards, 5, 13);
    lemma_tail_empty(cards, 4, 13);
    lemma_tail_empty(cards, 3, 13);
    lemma_tail_empty(cards, 2, 13);
    lemma_tail_empty(full, 5, 13);
    lemma_tail_empty(full, 4, 13);
    lemma_tail_empty(full, 3, 13);
    lemma_tail_empty(full, 2, 13);
    lemma_filled_counts(cards, c, 0, n);
    lemma_filled_counts(cards, c, 1, n);
    lemma_filled_counts(cards, c, 2, n);
    lemma_filled_counts(cards, c, 3, n);
    lemma_filled_counts(cards, c, 4, n);
    lemma_filled_counts(cards, c, 5, n);
    lemma_filled_counts(cards, c, 6, n);
    lemma_filled_counts(cards, c, 7, n);
    lemma_filled_counts(cards, c, 8, n);
    lemma_filled_counts(cards, c, 9, n);
    lemma_filled_counts(cards, c, 10, n);
    lemma_filled_counts(cards, c, 11, n);
    lemma_filled_counts(cards, c, 12, n);
    assert(full.len() == n);
    reveal_with_fuel(rank_with, 14);
    reveal_with_fuel(pairs_from, 14);
}

/// The best kind that a hand of one to five cards reaches with its jokers
/// replaced is at least as strong as the kind of the hand with its jokers
/// left as they are.
pub proof fn lemma_jokers_never_hurt(cards: Seq<Card2>)
    requires
        0 < cards.len() <= 5,
    ensures
        best_kind(cards) is Some,
        kind_of(cards) is Some,
        best_kind(cards)->0.strength() >= kind_of(cards)->0.strength(),
{
    let n = cards.len() as int;
    let c = busiest(cards, 12);
    lemma_busiest(cards, 12);
    let all = candidates(cards, n);
    let i = lemma_filled_is_candidate(cards, n, c);
    assert forall|p: int| 0 <= p <= cards.len() implies (#[trigger] candidates(cards, p)).len()
        <= usize::MAX by {
        lemma_filled_is_candidate(cards, p, c);
        reveal_with_fuel(twelve_to, 6);
    }
    lemma_best_dominates(all, all.len() as int, i);
    lemma_strength(cards);
    lemma_strength(all[i]);
    lemma_filling_helps(cards);
}

} // verus!
