//! A rectangular grid of cells stored row by row, addressed by position.
use crate::pattern::string_of;
use crate::text::{chars_of, lines, lines_of, replace, replaced, views};
use crate::Pos;
use vstd::prelude::*;
use vstd::std_specs::convert::TryFromSpec;
use vstd::utf8::encode_utf8;

verus! {

/// A grid of `height` rows of `width` cells each; the cell at `(x, y)` is
/// `content[x + y * width]`. The content may hold fewer or more cells than
/// the rows make up.
pub struct Grid<T> {
    pub content: Vec<T>,
    pub width: usize,
    pub height: usize,
}

/// Whether `pos` lies in a grid of the given width and height. Both are
/// taken as `isize`, as the coordinates are.
pub open spec fn in_bounds(width: usize, height: usize, pos: Pos) -> bool {
    0 <= pos.x < (width as isize) && 0 <= pos.y < (height as isize)
}

/// The index in the content of the cell at a position within the grid, where
/// it fits `usize`.
pub open spec fn index_of(width: usize, height: usize, pos: Pos) -> Option<usize> {
    if in_bounds(width, height, pos) && pos.x + pos.y * width <= usize::MAX {
        Some((pos.x + pos.y * width) as usize)
    } else {
        None
    }
}

/// The index of the cell at `pos`, as [`index_of`] defines it.
pub fn cell_index(width: usize, height: usize, pos: &Pos) -> (r: Option<usize>)
    ensures
        r == index_of(width, height, *pos),
{
    if pos.x < #[verifier::truncate] (width as isize) && pos.x >= 0
        && pos.y < #[verifier::truncate] (height as isize) && pos.y >= 0 {
        match (pos.y as usize).checked_mul(width) {
            Some(row) => (pos.x as usize).checked_add(row),
            None => {
                assert(pos.x + pos.y * width > usize::MAX) by (nonlinear_arith)
                    requires
                        pos.y * width > usize::MAX,
                        pos.x >= 0,
                ;
                None
            },
        }
    } else {
        None
    }
}

/// The width that a text gives its grid: the length in bytes of its first
/// line. `None` for a text without lines.
pub open spec fn width_of(s: Seq<char>) -> Option<usize> {
    if lines_of(s).len() > 0 {
        Some(encode_utf8(lines_of(s)[0]).len() as usize)
    } else {
        None
    }
}

/// The characters of a text that count as cells: all but carriage returns.
pub open spec fn cell_chars(s: Seq<char>) -> Seq<char> {
    replaced(s, "\r"@, ""@)
}

/// The width and height that a text gives its grid, and its characters that
/// may be cells. `None` for a text without lines.
pub fn measure(s: &str) -> (r: Option<(usize, usize, Vec<char>)>)
    ensures
        match r {
            Some((width, height, cells)) => width_of(s@) == Some(width) && height == lines_of(
                s@,
            ).len() && cells@ == cell_chars(s@),
            None => width_of(s@) is None,
        },
{
    let chars = chars_of(s);
    let ls = lines(&chars);
    if ls.len() == 0 {
        return None;
    }
    assert(views(ls@)[0] == ls@[0]@);
    let first = string_of(&ls[0]);
    let width = first.as_str().len();
    proof {
        reveal_strlit("\r");
    }
    let cells = replace(&chars, &chars_of("\r"), &chars_of(""));
    Some((width, ls.len(), cells))
}

/// The cells that the first `k` of `chars` give: those that convert.
pub open spec fn cells_among<T: TryFrom<char>>(chars: Seq<char>, k: int) -> Seq<T>
    decreases k,
{
    if k <= 0 {
        Seq::empty()
    } else {
        match T::try_from_spec(chars[k - 1]) {
            Ok(cell) => cells_among::<T>(chars, k - 1).push(cell),
            Err(_) => cells_among::<T>(chars, k - 1),
        }
    }
}

/// Converts the characters that convert.
pub fn cells_from<T: TryFrom<char>>(chars: &Vec<char>) -> (cells: Vec<T>)
    requires
        T::obeys_try_from_spec(),
    ensures
        cells@ == cells_among::<T>(chars@, chars.len() as int),
{
    let mut cells: Vec<T> = Vec::new();
    let mut k: usize = 0;
    while k < chars.len()
        invariant
            k <= chars.len(),
            T::obeys_try_from_spec(),
            cells@ == cells_among::<T>(chars@, k as int),
        decreases chars.len() - k,
    {
        match T::try_from(chars[k]) {
            Ok(cell) => {
                cells.push(cell);
            },
            Err(_) => {},
        }
        k += 1;
    }
    cells
}

impl<T: TryFrom<char>> Grid<T> {
    /// Reads a grid: `None` for a text without lines.
    pub fn checked_from_str(s: &str) -> (r: Option<Grid<T>>)
        requires
            T::obeys_try_from_spec(),
        ensures
            match r {
                Some(g) => width_of(s@) == Some(g.width) && g.height == lines_of(s@).len()
                    && g.content@ == cells_among::<T>(cell_chars(s@), cell_chars(s@).len() as int),
                None => width_of(s@) is None,
            },
    {
        match measure(s) {
            Some((width, height, chars)) => Some(
                Grid { content: cells_from(&chars), width, height },
            ),
            None => None,
        }
    }

    /// Reads a grid: its width is the length of the first line, its height
    /// the number of lines, its cells the characters that convert.
    pub fn from_str(s: &str) -> (g: Grid<T>)
        requires
            T::obeys_try_from_spec(),
            lines_of(s@).len() > 0,
        ensures
            width_of(s@) == Some(g.width),
            g.height == lines_of(s@).len(),
            g.content@ == cells_among::<T>(cell_chars(s@), cell_chars(s@).len() as int),
    {
        Self::checked_from_str(s).unwrap()
    }
}

impl<T> Grid<T> {
    /// The index of the cell at `pos`, if `pos` lies in the grid.
    pub fn get_index(&self, pos: &Pos) -> (r: Option<usize>)
        ensures
            r == index_of(self.width, self.height, *pos),
    {
        cell_index(self.width, self.height, pos)
    }

    /// The cell at `pos`, if `pos` lies in the grid and the content reaches
    /// that far.
    pub fn get(&self, pos: &Pos) -> (r: Option<&T>)
        ensures
            r == match index_of(self.width, self.height, *pos) {
                Some(i) => if i < self.content.len() {
                    Some(&self.content@[i as int])
                } else {
                    None
                },
                None => None,
            },
    {
        match self.get_index(pos) {
            Some(i) => if i < self.content.len() {
                Some(&self.content[i])
            } else {
                None
            },
            None => None,
        }
    }

    /// The cell at `pos` for writing, if `pos` lies in the grid and the
    /// content reaches that far. Nothing else changes.
    pub fn get_mut(&mut self, pos: &Pos) -> (r: Option<&mut T>)
        ensures
            final(self).width == old(self).width,
            final(self).height == old(self).height,
            match index_of(old(self).width, old(self).height, *pos) {
                Some(i) => if i < old(self).content.len() {
                    r matches Some(cell) && *cell == old(self).content@[i as int]
                        && final(self).content@ == old(self).content@.update(
                        i as int,
                        *final(cell),
                    )
                } else {
                    r is None && final(self).content@ == old(self).content@
                },
                None => r is None && final(self).content@ == old(self).content@,
            },
    {
        match self.get_index(pos) {
            Some(i) => if i < self.content.len() {
                Some(&mut self.content[i])
            } else {
                None
            },
            None => None,
        }
    }
}

} // verus!
