//! Day 1: the first and the last digit of every line, read as a two-digit
//! number; in the second part, digits may also be spelled out.
use crate::text::{chars_of, digit_value, extend, is_digit, lines, lines_of, replace, replaced, views};
use vstd::prelude::*;

verus! {

/// The decimal digits among the characters of `line`, in order.
pub open spec fn digits_of(line: Seq<char>) -> Seq<char> {
    line.filter(|c: char| is_digit(c))
}

/// The two-digit number made of the first and the last digit of `line`; a
/// single digit is both. `None` for a line without digits.
pub open spec fn calibration(line: Seq<char>) -> Option<nat> {
    let digits = digits_of(line);
    if digits.len() > 0 {
        Some(10 * digit_value(digits.first()) + digit_value(digits.last()))
    } else {
        None
    }
}

/// The sum of the numbers of the first `k` lines; `None` where one of these
/// lines has no digit or a partial sum does not fit `usize`.
pub open spec fn sum_upto(text: Seq<Seq<char>>, k: int) -> Option<usize>
    decreases k,
{
    if k <= 0 {
        Some(0)
    } else {
        match (sum_upto(text, k - 1), calibration(text[k - 1])) {
            (Some(t), Some(v)) => if t + v <= usize::MAX {
                Some((t + v) as usize)
            } else {
                None
            },
            _ => None,
        }
    }
}

/// The sum of the numbers of all lines of `input`.
pub open spec fn part_one_of(input: Seq<char>) -> Option<usize> {
    sum_upto(lines_of(input), lines_of(input).len() as int)
}

/// The number of a line.
pub fn calibrate(line: &Vec<char>) -> (r: Option<usize>)
    ensures
        match r {
            Some(v) => calibration(line@) == Some(v as nat),
            None => calibration(line@) is None,
        },
{
    let mut digits: Vec<char> = Vec::new();
    let mut i: usize = 0;
    assert(line@.take(0) =~= Seq::<char>::empty());
    while i < line.len()
        invariant
            i <= line.len(),
            digits@ == digits_of(line@.take(i as int)),
            forall|j: int| 0 <= j < digits.len() ==> is_digit(#[trigger] digits@[j]),
        decreases line.len() - i,
    {
        let c = line[i];
        proof {
            assert(line@.take(i + 1).drop_last() =~= line@.take(i as int));
            assert(line@.take(i + 1).last() == c);
            reveal(Seq::filter);
        }
        if '0' <= c && c <= '9' {
            digits.push(c);
        }
        i += 1;
    }
    assert(line@.take(i as int) =~= line@);
    if digits.len() == 0 {
        return None;
    }
    let first = digits[0];
    let last = digits[digits.len() - 1];
    Some(((first as u32 - 48) * 10 + (last as u32 - 48)) as usize)
}

/// The sum of the numbers of the lines `text`.
pub fn sum_lines(text: &Vec<Vec<char>>) -> (r: Option<usize>)
    ensures
        r == sum_upto(views(text@), text.len() as int),
{
    let mut acc: Option<usize> = Some(0);
    let mut k: usize = 0;
    while k < text.len()
        invariant
            k <= text.len(),
            acc == sum_upto(views(text@), k as int),
        decreases text.len() - k,
    {
        assert(views(text@)[k as int] == text@[k as int]@);
        acc =
        match (acc, calibrate(&text[k])) {
            (Some(t), Some(v)) => t.checked_add(v),
            _ => None,
        };
        k += 1;
    }
    acc
}

/// The sum of the numbers of all lines of `input`: `None` where a line has
/// no digit or the sum does not fit `usize`.
pub fn checked_part_one(input: &str) -> (r: Option<usize>)
    ensures
        r == part_one_of(input@),
{
    sum_lines(&lines(&chars_of(input)))
}

/// The sum of the numbers of all lines of `input`.
pub fn part_one(input: &str) -> (n: usize)
    requires
        part_one_of(input@) is Some,
    ensures
        part_one_of(input@) == Some(n),
{
    checked_part_one(input).unwrap()
}

/// The English word for the digit `k`, for `k` from 1 to 9, and the digit.
pub open spec fn number_word(k: int) -> (Seq<char>, Seq<char>) {
    if k == 1 {
        ("one"@, "1"@)
    } else if k == 2 {
        ("two"@, "2"@)
    } else if k == 3 {
        ("three"@, "3"@)
    } else if k == 4 {
        ("four"@, "4"@)
    } else if k == 5 {
        ("five"@, "5"@)
    } else if k == 6 {
        ("six"@, "6"@)
    } else if k == 7 {
        ("seven"@, "7"@)
    } else if k == 8 {
        ("eight"@, "8"@)
    } else {
        ("nine"@, "9"@)
    }
}

/// `s` after the words for the digits 1 to `k` have been treated one after
/// the other: every occurrence of a word is replaced by the word, its digit,
/// and the word again, so that words that share letters all stay readable.
pub open spec fn spelled_upto(s: Seq<char>, k: int) -> Seq<char>
    decreases k,
{
    if k <= 0 {
        s
    } else {
        let (word, digit) = number_word(k);
        replaced(spelled_upto(s, k - 1), word, word + digit + word)
    }
}

/// The sum of the numbers of all lines of `input`, spelled-out digits
/// included.
pub open spec fn part_two_of(input: Seq<char>) -> Option<usize> {
    part_one_of(spelled_upto(input, 9))
}

fn word_for(k: usize) -> (r: (Vec<char>, Vec<char>))
    requires
        1 <= k <= 9,
    ensures
        r.0@ == number_word(k as int).0,
        r.1@ == number_word(k as int).1,
        r.0@.len() > 0,
{
    proof {
        reveal_strlit("one");
        reveal_strlit("two");
        reveal_strlit("three");
        reveal_strlit("four");
        reveal_strlit("five");
        reveal_strlit("six");
        reveal_strlit("seven");
        reveal_strlit("eight");
        reveal_strlit("nine");
    }
    if k == 1 {
        (chars_of("one"), chars_of("1"))
    } else if k == 2 {
        (chars_of("two"), chars_of("2"))
    } else if k == 3 {
        (chars_of("three"), chars_of("3"))
    } else if k == 4 {
        (chars_of("four"), chars_of("4"))
    } else if k == 5 {
        (chars_of("five"), chars_of("5"))
    } else if k == 6 {
        (chars_of("six"), chars_of("6"))
    } else if k == 7 {
        (chars_of("seven"), chars_of("7"))
    } else if k == 8 {
        (chars_of("eight"), chars_of("8"))
    } else {
        (chars_of("nine"), chars_of("9"))
    }
}

/// Writes a digit into every spelled-out digit of `s`.
pub fn spell_out(s: &Vec<char>) -> (out: Vec<char>)
    ensures
        out@ == spelled_upto(s@, 9),
{
    let mut out: Vec<char> = Vec::new();
    extend(&mut out, s);
    assert(out@ =~= s@);
    let mut k: usize = 1;
    while k <= 9
        invariant
            1 <= k <= 10,
            out@ == spelled_upto(s@, k - 1),
        decreases 10 - k,
    {
        let (word, digit) = word_for(k);
        let mut to: Vec<char> = Vec::new();
        extend(&mut to, &word);
        extend(&mut to, &digit);
        extend(&mut to, &word);
        out = replace(&out, &word, &to);
        k += 1;
    }
    out
}

/// The sum of the numbers of all lines of `input`, spelled-out digits
/// included, with `None` as for the first part.
pub fn checked_part_two(input: &str) -> (r: Option<usize>)
    ensures
        r == part_two_of(input@),
{
    sum_lines(&lines(&spell_out(&chars_of(input))))
}

/// The sum of the numbers of all lines of `input`, spelled-out digits
/// included.
pub fn part_two(input: &str) -> (n: usize)
    requires
        part_two_of(input@) is Some,
    ensures
        part_two_of(input@) == Some(n),
{
    checked_part_two(input).unwrap()
}

} // verus!
