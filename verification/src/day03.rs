//! Day 3: numbers on a character grid that touch a symbol, and pairs of
//! numbers that touch the same `*`.
use crate::pattern::{
    captures_iter, groups_view, matches_view, regex_accepts, regex_captures_iter,
    string_of, Found, Group, Pattern,
};
use crate::text::{chars_of, is_digit, lines, lines_of, parse_usize, usize_of, views};
use vstd::prelude::*;

verus! {

/// The pattern that finds the numbers of a line.
pub const NUMBER_PATTERN: &'static str = r"(\d+)";

/// A symbol is any character but `.` and the decimal digits.
pub open spec fn is_symbol(c: char) -> bool {
    c != '.' && !is_digit(c)
}

/// Whether `c` is a symbol.
pub fn issymb(c: char) -> (b: bool)
    ensures
        b == is_symbol(c),
{
    !(c == '.' || ('0' <= c && c <= '9'))
}

/// A number found on a line: the line's index, the offsets at which the
/// number starts and ends on it, and its value.
#[derive(Debug, Clone, Copy, PartialEq, Eq)]
pub struct Number {
    pub row: usize,
    pub start: usize,
    pub end: usize,
    pub value: usize,
}

/// The number that a match on line `row` stands for: the whole match read as
/// a `usize`. `None` where the match has no text for it or the text is no
/// `usize`.
pub open spec fn number_of(row: usize, groups: Seq<Option<Found>>) -> Option<Number> {
    if groups.len() > 0 && groups[0] is Some {
        let whole = groups[0]->0;
        match usize_of(whole.text) {
            Some(value) => Some(Number { row, start: whole.start, end: whole.end, value }),
            None => None,
        }
    } else {
        None
    }
}

/// The numbers of the first `k` matches on line `row`, in order; `None` if
/// one of these matches gives no number.
pub open spec fn numbers_in(row: usize, found: Seq<Seq<Option<Found>>>, k: int) -> Option<
    Seq<Number>,
>
    decreases k,
{
    if k <= 0 {
        Some(Seq::empty())
    } else {
        match (numbers_in(row, found, k - 1), number_of(row, found[k - 1])) {
            (Some(before), Some(n)) => Some(before.push(n)),
            _ => None,
        }
    }
}

/// The numbers of the first `rows` lines, line by line, as the accepted
/// number pattern finds them. `None` if a match gives no number.
pub open spec fn numbers_upto(text: Seq<Seq<char>>, rows: int) -> Option<Seq<Number>>
    decreases rows,
{
    if rows <= 0 {
        Some(Seq::empty())
    } else {
        let found = regex_captures_iter(NUMBER_PATTERN@, text[rows - 1]);
        match (
            numbers_upto(text, rows - 1),
            numbers_in((rows - 1) as usize, found, found.len() as int),
        ) {
            (Some(before), Some(here)) => Some(before + here),
            _ => None,
        }
    }
}

/// The numbers of all lines of `text`. `None` if the number pattern is not
/// accepted or a match gives no number.
pub open spec fn numbers_of(text: Seq<Seq<char>>) -> Option<Seq<Number>> {
    if regex_accepts(NUMBER_PATTERN@) {
        numbers_upto(text, text.len() as int)
    } else {
        None
    }
}

/// The cells directly above and below column `x` of row `y`, as far as those
/// rows exist, as (row, column) pairs.
pub open spec fn vertical(rows: int, y: int, x: int) -> Seq<(int, int)> {
    (if y > 0 {
        seq![(y - 1, x)]
    } else {
        seq![]
    }) + (if y + 1 < rows {
        seq![(y + 1, x)]
    } else {
        seq![]
    })
}

/// The cells above and below the columns `start` to `end - 1` of row `y`.
pub open spec fn above_below(rows: int, y: int, start: int, end: int) -> Seq<(int, int)>
    decreases end - start,
{
    if start >= end {
        seq![]
    } else {
        vertical(rows, y, start) + above_below(rows, y, start + 1, end)
    }
}

/// The cells around a number that are looked at, in the order in which they
/// are looked at: the column before it, if the number does not start its
/// line; the column after it, if the line goes that far;
/// then the cells above and below the number itself. `width` is the length
/// of the number's line.
pub open spec fn probes(rows: int, width: int, n: Number) -> Seq<(int, int)> {
    let y = n.row as int;
    let left = if n.start > 0 {
        seq![(y, n.start - 1)] + vertical(rows, y, n.start - 1)
    } else {
        seq![]
    };
    let right = if n.end < width {
        seq![(y, n.end as int)] + vertical(rows, y, n.end as int)
    } else {
        seq![]
    };
    left + right + above_below(rows, y, n.start as int, n.end as int)
}

/// What looking around a number gives.
#[derive(Debug, Clone, Copy, PartialEq, Eq)]
pub enum Probe {
    /// A cell to look at lies beyond the end of its line.
    OutOfRange,
    /// No cell looked at holds what is sought.
    Miss,
    /// The first cell that holds it, as row and column.
    Hit(usize, usize),
}

/// Whether `c` is what is sought: a `*` if `star_only`, else any symbol.
pub open spec fn sought(c: char, star_only: bool) -> bool {
    if star_only {
        c == '*'
    } else {
        is_symbol(c)
    }
}

/// Looks at the cells `cells` of `text` in order, up to the first that holds
/// what is sought or lies outside the text.
pub open spec fn first_hit(text: Seq<Seq<char>>, cells: Seq<(int, int)>, star_only: bool) -> Probe
    decreases cells.len(),
{
    if cells.len() == 0 {
        Probe::Miss
    } else {
        let (y, x) = cells[0];
        if !(0 <= y < text.len() && 0 <= x < text[y].len()) {
            Probe::OutOfRange
        } else if sought(text[y][x], star_only) {
            Probe::Hit(y as usize, x as usize)
        } else {
            first_hit(text, cells.drop_first(), star_only)
        }
    }
}

/// What looking around the number `n` gives. A number on a line that does
/// not exist is out of range.
pub open spec fn touch(text: Seq<Seq<char>>, n: Number, star_only: bool) -> Probe {
    if n.row < text.len() {
        first_hit(text, probes(text.len() as int, text[n.row as int].len() as int, n), star_only)
    } else {
        Probe::OutOfRange
    }
}

/// The sum of the first `k` of `numbers` that touch a symbol. `None` if a
/// look around one of them goes out of range or the sum leaves `usize`.
pub open spec fn part_numbers(text: Seq<Seq<char>>, numbers: Seq<Number>, k: int) -> Option<usize>
    decreases k,
{
    if k <= 0 {
        Some(0)
    } else {
        match part_numbers(text, numbers, k - 1) {
            Some(total) => match touch(text, numbers[k - 1], false) {
                Probe::OutOfRange => None,
                Probe::Miss => Some(total),
                Probe::Hit(_, _) => if total + numbers[k - 1].value <= usize::MAX {
                    Some((total + numbers[k - 1].value) as usize)
                } else {
                    None
                },
            },
            None => None,
        }
    }
}

/// The state of the search for gears: for each `*` met so far the first
/// number that touched it, and the sum of products so far.
pub struct Gears {
    pub first: Map<(usize, usize), usize>,
    pub total: usize,
}

/// The state after the first `k` of `numbers`. A number whose first `*` was
/// met before adds its product with the first number met there; otherwise it
/// becomes the first number of that `*`. `None` if a look goes out of range
/// or the arithmetic leaves `usize`.
pub open spec fn gears(text: Seq<Seq<char>>, numbers: Seq<Number>, k: int) -> Option<Gears>
    decreases k,
{
    if k <= 0 {
        Some(Gears { first: Map::empty(), total: 0 })
    } else {
        match gears(text, numbers, k - 1) {
            Some(g) => match touch(text, numbers[k - 1], true) {
                Probe::OutOfRange => None,
                Probe::Miss => Some(g),
                Probe::Hit(y, x) => if g.first.contains_key((y, x)) {
                    if g.total + numbers[k - 1].value * g.first[(y, x)] <= usize::MAX {
                        Some(
                            Gears {
                                first: g.first,
                                total: (g.total + numbers[k - 1].value * g.first[(y, x)]) as usize,
                            },
                        )
                    } else {
                        None
                    }
                } else {
                    Some(Gears { first: g.first.insert((y, x), numbers[k - 1].value), total: g.total })
                },
            },
            None => None,
        }
    }
}

/// The sum of the part numbers of `input`, where it is defined.
pub open spec fn part_one_of(input: Seq<char>) -> Option<usize> {
    let text = lines_of(input);
    match numbers_of(text) {
        Some(numbers) => part_numbers(text, numbers, numbers.len() as int),
        None => None,
    }
}

/// The sum of the gear ratios of `input`, where it is defined.
pub open spec fn part_two_of(input: Seq<char>) -> Option<usize> {
    let text = lines_of(input);
    match numbers_of(text) {
        Some(numbers) => match gears(text, numbers, numbers.len() as int) {
            Some(g) => Some(g.total),
            None => None,
        },
        None => None,
    }
}

/// Reads the number of one match on line `row`.
pub fn number_from(row: usize, groups: &Vec<Option<Group>>) -> (r: Option<Number>)
    ensures
        r == number_of(row, groups_view(groups@)),
{
    if groups.len() == 0 {
        return None;
    }
    match &groups[0] {
        Some(whole) => {
            assert(groups_view(groups@)[0] == Some(whole@));
            match parse_usize(&whole.text) {
                Some(value) => Some(Number { row, start: whole.start, end: whole.end, value }),
                None => None,
            }
        },
        None => {
            assert(groups_view(groups@)[0] is None);
            None
        },
    }
}

/// Reads the numbers of the matches found on line `row`.
pub fn numbers_of_line(row: usize, found: &Vec<Vec<Option<Group>>>) -> (r: Option<Vec<Number>>)
    ensures
        match r {
            Some(v) => numbers_in(row, matches_view(found@), found.len() as int) == Some(v@),
            None => numbers_in(row, matches_view(found@), found.len() as int) is None,
        },
{
    let mut out: Vec<Number> = Vec::new();
    let mut ok = true;
    let mut k: usize = 0;
    while k < found.len()
        invariant
            k <= found.len(),
            ok ==> numbers_in(row, matches_view(found@), k as int) == Some(out@),
            !ok ==> numbers_in(row, matches_view(found@), k as int) is None,
        decreases found.len() - k,
    {
        if ok {
            assert(matches_view(found@)[k as int] == groups_view(found@[k as int]@));
            match number_from(row, &found[k]) {
                Some(n) => {
                    out.push(n);
                },
                None => {
                    ok = false;
                },
            }
        }
        k += 1;
    }
    if ok {
        Some(out)
    } else {
        None
    }
}

/// Finds the numbers of every line of `text`, line by line, with the number
/// pattern compiled once.
pub fn find_numbers(text: &Vec<Vec<char>>) -> (r: Option<Vec<Number>>)
    ensures
        match r {
            Some(v) => numbers_of(views(text@)) == Some(v@),
            None => numbers_of(views(text@)) is None,
        },
{
    let pattern = match Pattern::new(NUMBER_PATTERN) {
        Some(p) => p,
        None => {
            return None;
        },
    };
    let mut out: Vec<Number> = Vec::new();
    let mut ok = true;
    let mut y: usize = 0;
    while y < text.len()
        invariant
            y <= text.len(),
            pattern@ == NUMBER_PATTERN@,
            ok ==> numbers_upto(views(text@), y as int) == Some(out@),
            !ok ==> numbers_upto(views(text@), y as int) is None,
        decreases text.len() - y,
    {
        if ok {
            assert(views(text@)[y as int] == text@[y as int]@);
            let line = string_of(&text[y]);
            let found = captures_iter(&pattern, line.as_str());
            match numbers_of_line(y, &found) {
                Some(mut here) => {
                    out.append(&mut here);
                },
                None => {
                    ok = false;
                },
            }
        }
        y += 1;
    }
    if ok {
        Some(out)
    } else {
        None
    }
}

/// Cells given by `usize` coordinates, as pairs of integers.
pub open spec fn cells_view(cells: Seq<(usize, usize)>) -> Seq<(int, int)> {
    cells.map_values(|c: (usize, usize)| (c.0 as int, c.1 as int))
}

fn push_vertical(cells: &mut Vec<(usize, usize)>, rows: usize, y: usize, x: usize)
    requires
        y < rows,
    ensures
        cells_view(final(cells)@) == cells_view(old(cells)@) + vertical(
            rows as int,
            y as int,
            x as int,
        ),
{
    if y > 0 {
        cells.push((y - 1, x));
    }
    if y + 1 < rows {
        cells.push((y + 1, x));
    }
    assert(cells_view(cells@) =~= cells_view(old(cells)@) + vertical(
        rows as int,
        y as int,
        x as int,
    ));
}

/// The cells to look at around `n`, in order.
fn cells_around(rows: usize, width: usize, n: &Number) -> (cells: Vec<(usize, usize)>)
    requires
        n.row < rows,
    ensures
        cells_view(cells@) == probes(rows as int, width as int, *n),
{
    let y = n.row;
    let mut cells: Vec<(usize, usize)> = Vec::new();
    if n.start > 0 {
        cells.push((y, n.start - 1));
        push_vertical(&mut cells, rows, y, n.start - 1);
    }
    let ghost left = cells_view(cells@);
    if n.end < width {
        cells.push((y, n.end));
        assert(cells_view(cells@) =~= left + seq![(y as int, n.end as int)]);
        push_vertical(&mut cells, rows, y, n.end);
    }
    let ghost sides = cells_view(cells@);
    let mut x: usize = n.start;
    while x < n.end
        invariant
            y == n.row,
            y < rows,
            n.start <= x || n.start >= n.end,
            cells_view(cells@) + above_below(rows as int, y as int, x as int, n.end as int)
                == sides + above_below(rows as int, y as int, n.start as int, n.end as int),
        decreases n.end - x,
    {
        let ghost before = cells_view(cells@);
        push_vertical(&mut cells, rows, y, x);
        assert(cells_view(cells@) + above_below(rows as int, y as int, x + 1, n.end as int)
            =~= before + above_below(rows as int, y as int, x as int, n.end as int));
        x += 1;
    }
    assert(cells_view(cells@) =~= sides + above_below(
        rows as int,
        y as int,
        n.start as int,
        n.end as int,
    ));
    cells
}

/// Looks around the number `n` for a symbol or, if `star_only`, for a `*`.
pub fn look_around(text: &Vec<Vec<char>>, n: &Number, star_only: bool) -> (r: Probe)
    ensures
        r == touch(views(text@), *n, star_only),
{
    if n.row >= text.len() {
        return Probe::OutOfRange;
    }
    assert(views(text@)[n.row as int] == text@[n.row as int]@);
    let cells = cells_around(text.len(), text[n.row].len(), n);
    let ghost all = cells_view(cells@);
    let mut i: usize = 0;
    assert(all.skip(0) =~= all);
    while i < cells.len()
        invariant
            i <= cells.len(),
            all == cells_view(cells@),
            touch(views(text@), *n, star_only) == first_hit(views(text@), all, star_only),
            first_hit(views(text@), all, star_only) == first_hit(
                views(text@),
                all.skip(i as int),
                star_only,
            ),
        decreases cells.len() - i,
    {
        let (y, x) = cells[i];
        proof {
            assert(all.skip(i as int)[0] == (y as int, x as int));
            assert(all.skip(i as int).drop_first() =~= all.skip(i + 1));
            assert(y < text.len() ==> views(text@)[y as int] == text@[y as int]@);
        }
        if y >= text.len() || x >= text[y].len() {
            return Probe::OutOfRange;
        }
        let c = text[y][x];
        let found = if star_only {
            c == '*'
        } else {
            issymb(c)
        };
        if found {
            return Probe::Hit(y, x);
        }
        i += 1;
    }
    Probe::Miss
}

/// Adds up those of `numbers` that touch a symbol in `text`.
pub fn sum_part_numbers(text: &Vec<Vec<char>>, numbers: &Vec<Number>) -> (r: Option<usize>)
    ensures
        r == part_numbers(views(text@), numbers@, numbers.len() as int),
{
    let mut total: Option<usize> = Some(0);
    let mut k: usize = 0;
    while k < numbers.len()
        invariant
            k <= numbers.len(),
            total == part_numbers(views(text@), numbers@, k as int),
        decreases numbers.len() - k,
    {
        total =
        match total {
            Some(t) => match look_around(text, &numbers[k], false) {
                Probe::OutOfRange => None,
                Probe::Miss => Some(t),
                Probe::Hit(_, _) => t.checked_add(numbers[k].value),
            },
            None => None,
        };
        k += 1;
    }
    total
}

/// Whether the entries `(row, column, number)` hold exactly what `first` maps.
pub open spec fn holds(entries: Seq<(usize, usize, usize)>, first: Map<(usize, usize), usize>) -> bool {
    &&& forall|i: int|
        0 <= i < entries.len() ==> first.contains_key(#[trigger] cell_of(entries[i]))
            && first[cell_of(entries[i])] == entries[i].2
    &&& forall|c: (usize, usize)| #[trigger]
        first.contains_key(c) ==> exists|i: int|
            0 <= i < entries.len() && #[trigger] cell_of(entries[i]) == c
}

/// The cell of an entry.
pub open spec fn cell_of(entry: (usize, usize, usize)) -> (usize, usize) {
    (entry.0, entry.1)
}

fn first_at(
    entries: &Vec<(usize, usize, usize)>,
    y: usize,
    x: usize,
    Ghost(first): Ghost<Map<(usize, usize), usize>>,
) -> (r: Option<usize>)
    requires
        holds(entries@, first),
    ensures
        r == if first.contains_key((y, x)) {
            Some(first[(y, x)])
        } else {
            None
        },
{
    let mut i: usize = 0;
    while i < entries.len()
        invariant
            i <= entries.len(),
            holds(entries@, first),
            forall|j: int| 0 <= j < i ==> cell_of(#[trigger] entries@[j]) != (y, x),
        decreases entries.len() - i,
    {
        if entries[i].0 == y && entries[i].1 == x {
            assert(cell_of(entries@[i as int]) == (y, x));
            return Some(entries[i].2);
        }
        i += 1;
    }
    None
}

/// Adds up, over the `*` cells of `text`, the products of the first number
/// that touches the cell with each later one that does.
pub fn sum_gear_ratios(text: &Vec<Vec<char>>, numbers: &Vec<Number>) -> (r: Option<usize>)
    ensures
        r == match gears(views(text@), numbers@, numbers.len() as int) {
            Some(g) => Some(g.total),
            None => None,
        },
{
    let mut entries: Vec<(usize, usize, usize)> = Vec::new();
    let mut total: Option<usize> = Some(0);
    let ghost mut first: Map<(usize, usize), usize> = Map::empty();
    let mut k: usize = 0;
    while k < numbers.len()
        invariant
            k <= numbers.len(),
            holds(entries@, first),
            match total {
                Some(t) => gears(views(text@), numbers@, k as int) == Some(
                    Gears { first, total: t },
                ),
                None => gears(views(text@), numbers@, k as int) is None,
            },
        decreases numbers.len() - k,
    {
        if let Some(t) = total {
            let value = numbers[k].value;
            match look_around(text, &numbers[k], true) {
                Probe::OutOfRange => {
                    total = None;
                },
                Probe::Miss => {},
                Probe::Hit(y, x) => match first_at(&entries, y, x, Ghost(first)) {
                    Some(other) => {
                        total =
                        match value.checked_mul(other) {
                            Some(product) => t.checked_add(product),
                            None => {
                                assert(value * other >= 0 && t >= 0) by (nonlinear_arith)
                                    requires
                                        value >= 0,
                                        other >= 0,
                                        t >= 0,
                                ;
                                None
                            },
                        };
                    },
                    None => {
                        let ghost before = entries@;
                        let ghost was = first;
                        entries.push((y, x, value));
                        proof {
                            first = was.insert((y, x), value);
                            assert forall|i: int| 0 <= i < entries@.len() implies first.contains_key(
                                #[trigger] cell_of(entries@[i]),
                            ) && first[cell_of(entries@[i])] == entries@[i].2 by {
                                if i < before.len() {
                                    assert(entries@[i] == before[i]);
                                    assert(was.contains_key(cell_of(before[i])));
                                }
                            }
                            assert forall|c: (usize, usize)| #[trigger]
                                first.contains_key(c) implies exists|i: int|
                                0 <= i < entries@.len() && #[trigger] cell_of(entries@[i]) == c by {
                                if c == (y, x) {
                                    assert(cell_of(entries@[before.len() as int]) == c);
                                } else {
                                    assert(was.contains_key(c));
                                    let i = choose|i: int|
                                        0 <= i < before.len() && #[trigger] cell_of(before[i]) == c;
                                    assert(cell_of(entries@[i]) == c);
                                }
                            }
                        }
                    },
                },
            }
        }
        k += 1;
    }
    total
}

fn try_part_one(input: &str) -> (r: Option<usize>)
    ensures
        r == part_one_of(input@),
{
    let text = lines(&chars_of(input));
    match find_numbers(&text) {
        Some(numbers) => sum_part_numbers(&text, &numbers),
        None => None,
    }
}

fn try_part_two(input: &str) -> (r: Option<usize>)
    ensures
        r == part_two_of(input@),
{
    let text = lines(&chars_of(input));
    match find_numbers(&text) {
        Some(numbers) => sum_gear_ratios(&text, &numbers),
        None => None,
    }
}

/// The sum of the numbers of `input` that touch a symbol.
pub fn part_one(input: &str) -> (n: usize)
    requires
        part_one_of(input@) is Some,
    ensures
        part_one_of(input@) == Some(n),
{
    try_part_one(input).unwrap()
}

/// The sum of the gear ratios of `input`.
pub fn part_two(input: &str) -> (n: usize)
    requires
        part_two_of(input@) is Some,
    ensures
        part_two_of(input@) == Some(n),
{
    try_part_two(input).unwrap()
}

/// The sum of the part numbers of `input`, where it has one. What the
/// pattern finds can only be learnt by searching, so the searches are made
/// and looked at first, and [`part_one`] is called only where they allow an
/// answer. `None` where the pattern is not accepted, a number cannot be
/// read, a look around a number goes beyond the end of a line, or the sum
/// leaves `usize`.
pub fn checked_part_one(input: &str) -> (r: Option<usize>)
    ensures
        r == part_one_of(input@),
{
    if try_part_one(input).is_some() {
        Some(part_one(input))
    } else {
        None
    }
}

/// The sum of the gear ratios of `input`, where it has one: [`part_two`] is
/// called only where the searches allow an answer, with `None` as for the
/// first part.
pub fn checked_part_two(input: &str) -> (r: Option<usize>)
    ensures
        r == part_two_of(input@),
{
    if try_part_two(input).is_some() {
        Some(part_two(input))
    } else {
        None
    }
}

} // verus!
