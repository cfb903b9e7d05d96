//! Day 6: in how many ways a race can be won, where holding a button for
//! `h` of the `t` time units makes the boat travel `h * (t - h)`.
use crate::text::{
    after_prefix, all_usize, chars_of, lines, lines_of, parse_all_usize, parse_usize, replace,
    replaced, strip_prefix, usize_of, views, words, words_of,
};
use vstd::prelude::*;

verus! {

/// Whether holding for `h` in a race of time `t` travels farther than `d`.
pub open spec fn beats(t: usize, d: usize, h: int) -> bool {
    h * (t - h) > d
}

/// The number of holds from 1 up to, not including, `k` that beat `d`.
pub open spec fn ways_upto(t: usize, d: usize, k: int) -> nat
    decreases k,
{
    if k <= 1 {
        0
    } else {
        ways_upto(t, d, k - 1) + if beats(t, d, k - 1) {
            1nat
        } else {
            0nat
        }
    }
}

/// The number of holds from 1 to `t - 1` that beat `d`.
pub open spec fn ways(t: usize, d: usize) -> nat {
    ways_upto(t, d, t as int)
}

/// The product of the numbers of ways of the first `k` races.
pub open spec fn product_upto(time: Seq<usize>, dist: Seq<usize>, k: int) -> nat
    decreases k,
{
    if k <= 0 {
        1
    } else {
        product_upto(time, dist, k - 1) * ways(time[k - 1], dist[k - 1])
    }
}

/// The number of races: times and distances are paired as far as both go.
pub open spec fn races(time: Seq<usize>, dist: Seq<usize>) -> int {
    if time.len() <= dist.len() {
        time.len() as int
    } else {
        dist.len() as int
    }
}

/// The number of ways to win one race.
pub fn count_ways(t: usize, d: usize) -> (n: usize)
    ensures
        n == ways(t, d),
{
    let mut n: usize = 0;
    let mut h: usize = 1;
    while h < t
        invariant
            1 <= h,
            h <= t || (t == 0 && h == 1),
            n == ways_upto(t, d, h as int),
            n < h,
        decreases t - h,
    {
        assert(h * (t - h) <= 0xffff_ffff_ffff_ffff * 0xffff_ffff_ffff_ffff) by (nonlinear_arith)
            requires
                0 <= h <= 0xffff_ffff_ffff_ffff,
                0 <= t - h <= 0xffff_ffff_ffff_ffff,
        ;
        let travelled: u128 = (h as u128) * ((t - h) as u128);
        if travelled > d as u128 {
            n += 1;
        }
        h += 1;
    }
    n
}

/// Whether the product of the numbers of ways can be worked out within
/// `usize`, race by race.
pub open spec fn products_fit(time: Seq<usize>, dist: Seq<usize>) -> bool {
    forall|k: int|
        0 <= k <= races(time, dist) ==> #[trigger] product_upto(time, dist, k) <= usize::MAX
}

/// The product of the numbers of ways to win each race: `None` where the
/// product of the first races, or of all, does not fit `usize`.
pub fn checked_part_one(time: &Vec<usize>, dist: &Vec<usize>) -> (r: Option<usize>)
    ensures
        r == if products_fit(time@, dist@) {
            Some(product_upto(time@, dist@, races(time@, dist@)) as usize)
        } else {
            None
        },
{
    let count = if time.len() <= dist.len() {
        time.len()
    } else {
        dist.len()
    };
    let mut n: usize = 1;
    let mut k: usize = 0;
    while k < count
        invariant
            k <= count,
            count == races(time@, dist@),
            n == product_upto(time@, dist@, k as int),
            forall|j: int| 0 <= j <= k ==> #[trigger] product_upto(time@, dist@, j) <= usize::MAX,
        decreases count - k,
    {
        let w = count_ways(time[k], dist[k]);
        match n.checked_mul(w) {
            Some(product) => {
                n = product;
            },
            None => {
                assert(product_upto(time@, dist@, k + 1) > usize::MAX);
                return None;
            },
        }
        k += 1;
    }
    Some(n)
}

/// The product of the numbers of ways to win each race.
pub fn part_one(time: &Vec<usize>, dist: &Vec<usize>) -> (n: usize)
    requires
        products_fit(time@, dist@),
    ensures
        n == product_upto(time@, dist@, races(time@, dist@)),
{
    checked_part_one(time, dist).unwrap()
}

/// The number of ways to win the one long race: the number of holds from 1
/// to `time - 1` that beat `dist`.
pub fn part_two(time: usize, dist: usize) -> (n: usize)
    ensures
        n == ways(time, dist),
{
    count_ways(time, dist)
}

/// The numbers that follow `prefix` on `line`, separated by white space.
pub open spec fn numbers_after(line: Seq<char>, prefix: Seq<char>) -> Option<Seq<usize>> {
    match after_prefix(line, prefix) {
        Some(rest) => all_usize(words_of(rest)),
        None => None,
    }
}

/// The times and distances that a text writes: the numbers after `Time:` on
/// its first line and after `Distance:` on its second.
pub open spec fn parse_of(input: Seq<char>) -> Option<(Seq<usize>, Seq<usize>)> {
    let ls = lines_of(input);
    if ls.len() >= 2 {
        match (numbers_after(ls[0], "Time:"@), numbers_after(ls[1], "Distance:"@)) {
            (Some(t), Some(d)) => Some((t, d)),
            _ => None,
        }
    } else {
        None
    }
}

/// The one number that follows `prefix` on `line` once its spaces are taken
/// out.
pub open spec fn joined_after(line: Seq<char>, prefix: Seq<char>) -> Option<usize> {
    match after_prefix(line, prefix) {
        Some(rest) => usize_of(replaced(rest, " "@, ""@)),
        None => None,
    }
}

/// The time and the distance that a text writes where the spaces between
/// the digits of a line do not count.
pub open spec fn parse_part2_of(input: Seq<char>) -> Option<(usize, usize)> {
    let ls = lines_of(input);
    if ls.len() >= 2 {
        match (joined_after(ls[0], "Time:"@), joined_after(ls[1], "Distance:"@)) {
            (Some(t), Some(d)) => Some((t, d)),
            _ => None,
        }
    } else {
        None
    }
}

fn read_numbers(line: &Vec<char>, prefix: &str) -> (r: Option<Vec<usize>>)
    ensures
        match r {
            Some(v) => numbers_after(line@, prefix@) == Some(v@),
            None => numbers_after(line@, prefix@) is None,
        },
{
    match strip_prefix(line, &chars_of(prefix)) {
        Some(rest) => parse_all_usize(&words(&rest)),
        None => None,
    }
}

fn read_joined(line: &Vec<char>, prefix: &str) -> (r: Option<usize>)
    ensures
        r == joined_after(line@, prefix@),
{
    proof {
        reveal_strlit(" ");
    }
    match strip_prefix(line, &chars_of(prefix)) {
        Some(rest) => parse_usize(&replace(&rest, &chars_of(" "), &chars_of(""))),
        None => None,
    }
}

/// Reads times and distances: `None` where the text has fewer than two
/// lines, a line does not start as expected, or a word is no `usize`.
pub fn checked_parse(input: &str) -> (r: Option<(Vec<usize>, Vec<usize>)>)
    ensures
        match r {
            Some((t, d)) => parse_of(input@) == Some((t@, d@)),
            None => parse_of(input@) is None,
        },
{
    let ls = lines(&chars_of(input));
    if ls.len() < 2 {
        return None;
    }
    assert(views(ls@)[0] == ls@[0]@);
    assert(views(ls@)[1] == ls@[1]@);
    match (read_numbers(&ls[0], "Time:"), read_numbers(&ls[1], "Distance:")) {
        (Some(t), Some(d)) => Some((t, d)),
        _ => None,
    }
}

/// Reads times and distances.
pub fn parse(input: &str) -> (r: (Vec<usize>, Vec<usize>))
    requires
        parse_of(input@) is Some,
    ensures
        parse_of(input@) == Some((r.0@, r.1@)),
{
    checked_parse(input).unwrap()
}

/// Reads the one time and the one distance: `None` where the text has fewer
/// than two lines, a line does not start as expected, or what is left of a
/// line without its spaces is no `usize`.
pub fn checked_parse_part2(input: &str) -> (r: Option<(usize, usize)>)
    ensures
        r == parse_part2_of(input@),
{
    let ls = lines(&chars_of(input));
    if ls.len() < 2 {
        return None;
    }
    assert(views(ls@)[0] == ls@[0]@);
    assert(views(ls@)[1] == ls@[1]@);
    match (read_joined(&ls[0], "Time:"), read_joined(&ls[1], "Distance:")) {
        (Some(t), Some(d)) => Some((t, d)),
        _ => None,
    }
}

/// Reads the one time and the one distance.
pub fn parse_part2(input: &str) -> (r: (usize, usize))
    requires
        parse_part2_of(input@) is Some,
    ensures
        parse_part2_of(input@) == Some(r),
{
    checked_parse_part2(input).unwrap()
}

} // verus!
