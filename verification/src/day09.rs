//! Day 9: continuing a sequence of numbers at either end by its repeated
//! differences.
use crate::text::{all_isize, chars_of, lines, lines_of, parse_all_isize, views, words, words_of};
use vstd::prelude::*;

verus! {

/// Whether every number of `s` is 0.
pub open spec fn all_zero(s: Seq<isize>) -> bool {
    forall|i: int| 0 <= i < s.len() ==> #[trigger] s[i] == 0
}

/// The differences of neighbouring numbers of `s`, each later number less
/// the one before it; `None` where one of them leaves `isize`.
pub open spec fn differences(s: Seq<isize>) -> Option<Seq<isize>> {
    if forall|i: int|
        0 <= i < s.len() - 1 ==> isize::MIN <= #[trigger] s[i + 1] - s[i] <= isize::MAX {
        Some(
            Seq::new(
                if s.len() > 0 {
                    (s.len() - 1) as nat
                } else {
                    0
                },
                |i: int| (s[i + 1] - s[i]) as isize,
            ),
        )
    } else {
        None
    }
}

/// The number at one end of `s` and of each of its repeated differences, as
/// long as they are not all 0: the first numbers if `front`, else the last.
/// `None` where a difference leaves `isize`.
pub open spec fn ends(s: Seq<isize>, front: bool) -> Option<Seq<isize>>
    decreases s.len(),
{
    if all_zero(s) || s.len() == 0 {
        Some(Seq::empty())
    } else {
        match differences(s) {
            Some(d) => match ends(d, front) {
                Some(rest) => Some(
                    seq![if front {
                        s.first()
                    } else {
                        s.last()
                    }] + rest,
                ),
                None => None,
            },
            None => None,
        }
    }
}

/// The sum of the first `k` numbers of `s`, added up from the first on;
/// `None` where a partial sum leaves `isize`.
pub open spec fn sum_upto(s: Seq<isize>, k: int) -> Option<isize>
    decreases k,
{
    if k <= 0 {
        Some(0)
    } else {
        match sum_upto(s, k - 1) {
            Some(t) => if isize::MIN <= t + s[k - 1] <= isize::MAX {
                Some((t + s[k - 1]) as isize)
            } else {
                None
            },
            None => None,
        }
    }
}

/// The alternating sum `s[k] - (s[k + 1] - (s[k + 2] - ...))`, worked out
/// from the last number back; `None` where a step leaves `isize`.
pub open spec fn alternating_from(s: Seq<isize>, k: int) -> Option<isize>
    decreases s.len() - k,
{
    if k < 0 || k >= s.len() {
        Some(0)
    } else {
        match alternating_from(s, k + 1) {
            Some(t) => if isize::MIN <= s[k] - t <= isize::MAX {
                Some((s[k] - t) as isize)
            } else {
                None
            },
            None => None,
        }
    }
}

/// The number that continues `s` at its end: the sum of the last numbers of
/// `s` and of its repeated differences.
pub open spec fn next_value(s: Seq<isize>) -> Option<isize> {
    match ends(s, false) {
        Some(e) => sum_upto(e, e.len() as int),
        None => None,
    }
}

/// The number that continues `s` before its start: the alternating sum of
/// the first numbers of `s` and of its repeated differences.
pub open spec fn previous_value(s: Seq<isize>) -> Option<isize> {
    match ends(s, true) {
        Some(e) => alternating_from(e, 0),
        None => None,
    }
}

/// The number that continues `s` at the chosen end.
pub open spec fn continued(s: Seq<isize>, front: bool) -> Option<isize> {
    if front {
        previous_value(s)
    } else {
        next_value(s)
    }
}

/// The sum of the continuations of the first `k` sequences; `None` where one
/// of them is not defined or a partial sum leaves `isize`.
pub open spec fn total_upto(nums: Seq<Seq<isize>>, front: bool, k: int) -> Option<isize>
    decreases k,
{
    if k <= 0 {
        Some(0)
    } else {
        match (total_upto(nums, front, k - 1), continued(nums[k - 1], front)) {
            (Some(t), Some(v)) => if isize::MIN <= t + v <= isize::MAX {
                Some((t + v) as isize)
            } else {
                None
            },
            _ => None,
        }
    }
}

/// The views of the sequences of a vector of vectors.
pub open spec fn rows(nums: Seq<Vec<isize>>) -> Seq<Seq<isize>> {
    nums.map_values(|r: Vec<isize>| r@)
}

fn is_all_zero(s: &Vec<isize>) -> (r: bool)
    ensures
        r == all_zero(s@),
{
    let mut i: usize = 0;
    while i < s.len()
        invariant
            i <= s.len(),
            forall|j: int| 0 <= j < i ==> #[trigger] s@[j] == 0,
        decreases s.len() - i,
    {
        if s[i] != 0 {
            return false;
        }
        i += 1;
    }
    true
}

fn differences_of(s: &Vec<isize>) -> (r: Option<Vec<isize>>)
    ensures
        match r {
            Some(d) => differences(s@) == Some(d@),
            None => differences(s@) is None,
        },
{
    let mut d: Vec<isize> = Vec::new();
    let mut i: usize = 0;
    while i + 1 < s.len()
        invariant
            i + 1 <= s.len() || s.len() == 0 && i == 0,
            d.len() == i,
            forall|j: int|
                0 <= j < i ==> isize::MIN <= #[trigger] s@[j + 1] - s@[j] <= isize::MAX && d@[j]
                    == s@[j + 1] - s@[j],
        decreases s.len() - i,
    {
        match s[i + 1].checked_sub(s[i]) {
            Some(x) => {
                d.push(x);
            },
            None => {
                assert(!(isize::MIN <= s@[i as int + 1] - s@[i as int] <= isize::MAX));
                return None;
            },
        }
        i += 1;
    }
    assert(d@ =~= differences(s@)->0);
    Some(d)
}

/// Collects the first or last numbers of `s` and of its repeated differences.
pub fn ends_of(s: &Vec<isize>, front: bool) -> (r: Option<Vec<isize>>)
    ensures
        match r {
            Some(e) => ends(s@, front) == Some(e@),
            None => ends(s@, front) is None,
        },
{
    let mut out: Vec<isize> = Vec::new();
    let mut level: Vec<isize> = Vec::new();
    let mut i: usize = 0;
    while i < s.len()
        invariant
            i <= s.len(),
            level@ == s@.take(i as int),
        decreases s.len() - i,
    {
        level.push(s[i]);
        i += 1;
    }
    assert(level@ =~= s@);
    assert(out@ + (ends(level@, front)->0) =~= ends(level@, front)->0);
    while level.len() > 0 && !is_all_zero(&level)
        invariant
            match ends(level@, front) {
                Some(rest) => ends(s@, front) == Some(out@ + rest),
                None => ends(s@, front) is None,
            },
        decreases level.len(),
    {
        let end = if front {
            level[0]
        } else {
            level[level.len() - 1]
        };
        match differences_of(&level) {
            Some(d) => {
                proof {
                    match ends(d@, front) {
                        Some(rest) => {
                            assert(out@.push(end) + rest =~= out@ + (seq![end] + rest));
                        },
                        None => {},
                    }
                }
                out.push(end);
                level = d;
            },
            None => {
                return None;
            },
        }
    }
    assert(out@ + Seq::<isize>::empty() =~= out@);
    Some(out)
}

/// The number that continues `s` before its start (`front`) or at its end.
pub fn continue_at(s: &Vec<isize>, front: bool) -> (r: Option<isize>)
    ensures
        r == continued(s@, front),
{
    let e = match ends_of(s, front) {
        Some(e) => e,
        None => {
            return None;
        },
    };
    if front {
        let mut acc: Option<isize> = Some(0);
        let mut k: usize = e.len();
        while k > 0
            invariant
                k <= e.len(),
                acc == alternating_from(e@, k as int),
            decreases k,
        {
            k -= 1;
            acc =
            match acc {
                Some(t) => e[k].checked_sub(t),
                None => None,
            };
        }
        acc
    } else {
        let mut acc: Option<isize> = Some(0);
        let mut k: usize = 0;
        while k < e.len()
            invariant
                k <= e.len(),
                acc == sum_upto(e@, k as int),
            decreases e.len() - k,
        {
            acc =
            match acc {
                Some(t) => t.checked_add(e[k]),
                None => None,
            };
            k += 1;
        }
        acc
    }
}

/// The sum of the continuations of all sequences at the chosen end (at the
/// start for `front`); `None` where a difference or a sum leaves `isize`.
pub fn checked_total(nums: &Vec<Vec<isize>>, front: bool) -> (r: Option<isize>)
    ensures
        r == total_upto(rows(nums@), front, nums.len() as int),
{
    let mut acc: Option<isize> = Some(0);
    let mut k: usize = 0;
    while k < nums.len()
        invariant
            k <= nums.len(),
            acc == total_upto(rows(nums@), front, k as int),
        decreases nums.len() - k,
    {
        assert(rows(nums@)[k as int] == nums@[k as int]@);
        acc =
        match (acc, continue_at(&nums[k], front)) {
            (Some(t), Some(v)) => t.checked_add(v),
            _ => None,
        };
        k += 1;
    }
    acc
}

/// The sum of the numbers that continue each sequence at its end.
pub fn part_one(nums: &Vec<Vec<isize>>) -> (n: isize)
    requires
        total_upto(rows(nums@), false, nums.len() as int) is Some,
    ensures
        total_upto(rows(nums@), false, nums.len() as int) == Some(n),
{
    checked_total(nums, false).unwrap()
}

/// The sum of the numbers that continue each sequence before its start.
pub fn part_two(nums: &Vec<Vec<isize>>) -> (n: isize)
    requires
        total_upto(rows(nums@), true, nums.len() as int) is Some,
    ensures
        total_upto(rows(nums@), true, nums.len() as int) == Some(n),
{
    checked_total(nums, true).unwrap()
}

/// The sequences that a text writes, one per line, the numbers of a line
/// separated by white space; `None` where a word is no `isize`.
pub open spec fn parse_of(input: Seq<char>) -> Option<Seq<Seq<isize>>> {
    let ls = lines_of(input);
    if forall|i: int| 0 <= i < ls.len() ==> all_isize(words_of(#[trigger] ls[i])) is Some {
        Some(Seq::new(ls.len(), |i: int| all_isize(words_of(ls[i]))->0))
    } else {
        None
    }
}

/// Reads the sequences of a text: `None` where a word is no `isize`.
pub fn checked_parse(input: &str) -> (r: Option<Vec<Vec<isize>>>)
    ensures
        match r {
            Some(nums) => parse_of(input@) == Some(rows(nums@)),
            None => parse_of(input@) is None,
        },
{
    let ls = lines(&chars_of(input));
    let mut nums: Vec<Vec<isize>> = Vec::new();
    let mut i: usize = 0;
    while i < ls.len()
        invariant
            i <= ls.len(),
            views(ls@) == lines_of(input@),
            nums.len() == i,
            forall|j: int|
                0 <= j < i ==> all_isize(words_of(#[trigger] views(ls@)[j])) == Some(nums@[j]@),
        decreases ls.len() - i,
    {
        assert(views(ls@)[i as int] == ls@[i as int]@);
        match parse_all_isize(&words(&ls[i])) {
            Some(row) => {
                nums.push(row);
            },
            None => {
                assert(all_isize(words_of(lines_of(input@)[i as int])) is None);
                return None;
            },
        }
        i += 1;
    }
    proof {
        let all = lines_of(input@);
        assert forall|j: int| 0 <= j < all.len() implies all_isize(
            words_of(#[trigger] all[j]),
        ) is Some by {
            assert(all_isize(words_of(views(ls@)[j])) is Some);
        }
        assert forall|j: int| 0 <= j < nums@.len() implies rows(nums@)[j] == all_isize(
            words_of(all[j]),
        )->0 by {
            assert(all_isize(words_of(views(ls@)[j])) == Some(nums@[j]@));
        }
        assert(rows(nums@) =~= Seq::new(all.len(), |i: int| all_isize(words_of(all[i]))->0));
    }
    Some(nums)
}

/// Reads the sequences of a text.
pub fn parse(input: &str) -> (nums: Vec<Vec<isize>>)
    requires
        parse_of(input@) is Some,
    ensures
        parse_of(input@) == Some(rows(nums@)),
{
    checked_parse(input).unwrap()
}

} // verus!
