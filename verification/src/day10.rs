//! Day 10: a field of pipes with one loop through the start tile; the
//! farthest point of the loop, and the number of tiles that it encloses.
use crate::grid::{
    cell_chars, cell_index, cells_among, cells_from, index_of, measure, width_of, Grid,
};
use crate::pattern::string_of;
use crate::text::lines_of;
use crate::Pos;
use vstd::prelude::*;
use vstd::std_specs::convert::TryFromSpecImpl;

verus! {

/// A tile of the field: ground, the start, or a pipe that joins two of the
/// four directions.
#[derive(Debug, Clone, Copy, PartialEq, Eq, Structural)]
pub enum Tile {
    Empty,
    Start,
    Horizontal,
    Vertical,
    NorthEast,
    NorthWest,
    SouthEast,
    SouthWest,
}

/// A direction on the field. North is towards the first row.
#[derive(Debug, Clone, Copy, PartialEq, Eq, Structural)]
pub enum Dir {
    North,
    West,
    South,
    East,
}

/// The direction opposite to `d`.
pub open spec fn opposite(d: Dir) -> Dir {
    match d {
        Dir::North => Dir::South,
        Dir::South => Dir::North,
        Dir::West => Dir::East,
        Dir::East => Dir::West,
    }
}

impl Dir {
    /// The opposite direction.
    pub fn opp(&self) -> (d: Dir)
        ensures
            d == opposite(*self),
    {
        match self {
            Dir::North => Dir::South,
            Dir::South => Dir::North,
            Dir::West => Dir::East,
            Dir::East => Dir::West,
        }
    }
}

/// The tile that a character draws, if it draws one.
pub open spec fn tile_of(c: char) -> Option<Tile> {
    if c == '.' {
        Some(Tile::Empty)
    } else if c == 'S' {
        Some(Tile::Start)
    } else if c == '-' {
        Some(Tile::Horizontal)
    } else if c == '|' {
        Some(Tile::Vertical)
    } else if c == 'L' {
        Some(Tile::NorthEast)
    } else if c == 'J' {
        Some(Tile::NorthWest)
    } else if c == '7' {
        Some(Tile::SouthWest)
    } else if c == 'F' {
        Some(Tile::SouthEast)
    } else {
        None
    }
}

impl TryFrom<char> for Tile {
    type Error = ();

    fn try_from(c: char) -> (r: Result<Tile, ()>) {
        match c {
            '.' => Ok(Tile::Empty),
            'S' => Ok(Tile::Start),
            '-' => Ok(Tile::Horizontal),
            '|' => Ok(Tile::Vertical),
            'L' => Ok(Tile::NorthEast),
            'J' => Ok(Tile::NorthWest),
            '7' => Ok(Tile::SouthWest),
            'F' => Ok(Tile::SouthEast),
            _ => Err(()),
        }
    }
}

impl TryFromSpecImpl<char> for Tile {
    open spec fn obeys_try_from_spec() -> bool {
        true
    }

    open spec fn try_from_spec(c: char) -> Result<Tile, ()> {
        match tile_of(c) {
            Some(t) => Ok(t),
            None => Err(()),
        }
    }
}

/// The two directions that a pipe joins; `None` for ground and the start.
pub open spec fn joined(t: Tile) -> Option<(Dir, Dir)> {
    match t {
        Tile::Horizontal => Some((Dir::East, Dir::West)),
        Tile::Vertical => Some((Dir::North, Dir::South)),
        Tile::NorthEast => Some((Dir::North, Dir::East)),
        Tile::NorthWest => Some((Dir::North, Dir::West)),
        Tile::SouthEast => Some((Dir::South, Dir::East)),
        Tile::SouthWest => Some((Dir::South, Dir::West)),
        _ => None,
    }
}

/// The direction in which a walk leaves the tile `t` that it entered going
/// in direction `dir`: the other end of the pipe, if the pipe has an end
/// where the walk comes from.
pub open spec fn leads(t: Tile, dir: Dir) -> Option<Dir> {
    match joined(t) {
        Some((a, b)) => if opposite(dir) == a {
            Some(b)
        } else if opposite(dir) == b {
            Some(a)
        } else {
            None
        },
        None => None,
    }
}

impl Tile {
    /// The two directions that the tile joins.
    pub fn get_dirs(&self) -> (r: Option<(Dir, Dir)>)
        ensures
            r == joined(*self),
    {
        match self {
            Tile::Horizontal => Some((Dir::East, Dir::West)),
            Tile::Vertical => Some((Dir::North, Dir::South)),
            Tile::NorthEast => Some((Dir::North, Dir::East)),
            Tile::NorthWest => Some((Dir::North, Dir::West)),
            Tile::SouthEast => Some((Dir::South, Dir::East)),
            Tile::SouthWest => Some((Dir::South, Dir::West)),
            _ => None,
        }
    }

    /// The direction in which a walk going in direction `dir` leaves the
    /// tile.
    pub fn goes_to(&self, dir: Dir) -> (r: Option<Dir>)
        ensures
            r == leads(*self, dir),
    {
        match self.get_dirs() {
            Some((dir1, dir2)) => {
                if dir.opp() == dir1 {
                    Some(dir2)
                } else if dir.opp() == dir2 {
                    Some(dir1)
                } else {
                    None
                }
            },
            None => None,
        }
    }

    /// The character that shows the tile.
    pub open spec fn shown_as(&self) -> char {
        match self {
            Tile::Empty => ' ',
            Tile::Start => 'S',
            Tile::Horizontal => '━',
            Tile::Vertical => '┃',
            Tile::NorthEast => '┗',
            Tile::NorthWest => '┛',
            Tile::SouthEast => '┏',
            Tile::SouthWest => '┓',
        }
    }

    /// The character that shows the tile.
    pub fn symbol(&self) -> (c: char)
        ensures
            c == self.shown_as(),
    {
        match self {
            Tile::Empty => ' ',
            Tile::Start => 'S',
            Tile::Horizontal => '━',
            Tile::Vertical => '┃',
            Tile::NorthEast => '┗',
            Tile::NorthWest => '┛',
            Tile::SouthEast => '┏',
            Tile::SouthWest => '┓',
        }
    }
}

/// The position one step from `pos` in direction `dir`; `None` where it
/// leaves `isize`.
pub open spec fn stepped(pos: Pos, dir: Dir) -> Option<Pos> {
    match dir {
        Dir::North => if pos.y > isize::MIN {
            Some(Pos { x: pos.x, y: (pos.y - 1) as isize })
        } else {
            None
        },
        Dir::South => if pos.y < isize::MAX {
            Some(Pos { x: pos.x, y: (pos.y + 1) as isize })
        } else {
            None
        },
        Dir::West => if pos.x > isize::MIN {
            Some(Pos { x: (pos.x - 1) as isize, y: pos.y })
        } else {
            None
        },
        Dir::East => if pos.x < isize::MAX {
            Some(Pos { x: (pos.x + 1) as isize, y: pos.y })
        } else {
            None
        },
    }
}

impl Pos {
    /// Moves the position one step in direction `dir`.
    pub fn go(&mut self, dir: &Dir) -> (r: &mut Pos)
        requires
            stepped(*old(self), *dir) is Some,
        ensures
            Some(*r) == stepped(*old(self), *dir),
            *final(self) == *final(r),
    {
        match dir {
            Dir::North => self.y -= 1,
            Dir::East => self.x += 1,
            Dir::West => self.x -= 1,
            Dir::South => self.y += 1,
        }
        self
    }
}

/// A field of tiles: `height` rows of `width` tiles each stored row by row,
/// and the position of the start.
pub struct Field {
    pub tiles: Vec<Tile>,
    pub width: usize,
    pub height: usize,
    pub start: Pos,
}

/// The least index at or after `from` at which `tiles` holds the start.
pub open spec fn start_from(tiles: Seq<Tile>, from: int) -> Option<int>
    decreases tiles.len() - from,
{
    if from < 0 || from >= tiles.len() {
        None
    } else if tiles[from] == Tile::Start {
        Some(from)
    } else {
        start_from(tiles, from + 1)
    }
}

/// The tiles that a text draws: those of its characters that draw one.
pub open spec fn tiles_of(s: Seq<char>) -> Seq<Tile> {
    cells_among::<Tile>(cell_chars(s), cell_chars(s).len() as int)
}

/// Whether a text draws a field: it has a line, its first line is not
/// empty, and it draws a start.
pub open spec fn draws_field(s: Seq<char>) -> bool {
    width_of(s) matches Some(width) && width > 0 && start_from(tiles_of(s), 0) is Some
}

impl Field {
    /// Whether the field is the one that `s` draws: its width is the length
    /// of the first line, its height the number of lines, and its start
    /// lies where the first start tile falls when the tiles are laid out in
    /// rows of that width.
    pub open spec fn drawn_by(&self, s: Seq<char>) -> bool {
        &&& draws_field(s)
        &&& Some(self.width) == width_of(s)
        &&& self.height == lines_of(s).len()
        &&& self.tiles@ == tiles_of(s)
        &&& self.start == (Pos {
            x: (start_from(tiles_of(s), 0)->0 % (self.width as int)) as isize,
            y: (start_from(tiles_of(s), 0)->0 / (self.width as int)) as isize,
        })
    }

    /// Reads a field: `None` where the text draws none.
    #[verifier::loop_isolation(false)]
    pub fn checked_from_str(s: &str) -> (r: Option<Field>)
        ensures
            match r {
                Some(f) => f.drawn_by(s@),
                None => !draws_field(s@),
            },
    {
        let (width, height, chars) = match measure(s) {
            Some(m) => m,
            None => {
                return None;
            },
        };
        let tiles: Vec<Tile> = cells_from(&chars);
        if width == 0 {
            return None;
        }
        let mut idx: usize = 0;
        while idx < tiles.len()
            invariant
                idx <= tiles.len(),
                start_from(tiles@, 0) == start_from(tiles@, idx as int),
            decreases tiles.len() - idx,
        {
            if tiles[idx] == Tile::Start {
                let start = Pos {
                    x: #[verifier::truncate] ((idx % width) as isize),
                    y: #[verifier::truncate] ((idx / width) as isize),
                };
                return Some(Field { tiles, width, height, start });
            }
            idx += 1;
        }
        None
    }

    /// Reads a field.
    pub fn from_str(s: &str) -> (f: Field)
        requires
            draws_field(s@),
        ensures
            f.drawn_by(s@),
    {
        Self::checked_from_str(s).unwrap()
    }

    /// The tile at `pos`, if there is one.
    pub open spec fn tile_at(&self, pos: Pos) -> Option<Tile> {
        match index_of(self.width, self.height, pos) {
            Some(i) => if i < self.tiles.len() {
                Some(self.tiles@[i as int])
            } else {
                None
            },
            None => None,
        }
    }

    /// The tile at `pos`, if `pos` lies in the field and the tiles reach
    /// that far.
    pub fn get(&self, pos: &Pos) -> (r: Option<&Tile>)
        ensures
            match r {
                Some(t) => self.tile_at(*pos) == Some(*t),
                None => self.tile_at(*pos) is None,
            },
    {
        match cell_index(self.width, self.height, pos) {
            Some(i) => if i < self.tiles.len() {
                Some(&self.tiles[i])
            } else {
                None
            },
            None => None,
        }
    }
}

/// The most steps that a walk is followed for: one more than there are
/// pairs of a position of the field and a direction, or `usize::MAX` if that
/// is less.
pub open spec fn walk_limit(width: usize, height: usize) -> nat {
    if 4 * width * height + 1 <= usize::MAX {
        (4 * width * height + 1) as nat
    } else {
        usize::MAX as nat
    }
}

/// A walk from `pos` in direction `dir`, continued from the positions
/// `path` reached before: each step leads to the next position, and the
/// tile found there gives the direction of the step after. The walk goes
/// round where it reaches the start tile, and breaks off where it leaves
/// the field, reaches a tile that has no end on the side it comes from, or
/// has taken `limit` steps. The result is the positions reached, the last
/// included, and for a walk that goes round the direction of its last step.
pub open spec fn walk(f: Field, pos: Pos, dir: Dir, path: Seq<Pos>, limit: nat) -> (
    Seq<Pos>,
    Option<Dir>,
)
    decreases limit - path.len(),
{
    if path.len() >= limit {
        (path, None)
    } else {
        match stepped(pos, dir) {
            Some(to) => match f.tile_at(to) {
                Some(Tile::Start) => (path.push(to), Some(dir)),
                Some(tile) => match leads(tile, dir) {
                    Some(next) => walk(f, to, next, path.push(to), limit),
                    None => (path.push(to), None),
                },
                None => (path.push(to), None),
            },
            None => (path, None),
        }
    }
}

/// The direction tried as number `k`: north, east, south, west.
pub open spec fn direction(k: int) -> Dir {
    if k == 0 {
        Dir::North
    } else if k == 1 {
        Dir::East
    } else if k == 2 {
        Dir::South
    } else {
        Dir::West
    }
}

/// The walk from the start in the direction tried as number `k`.
pub open spec fn attempt(f: Field, k: int) -> (Seq<Pos>, Option<Dir>) {
    walk(f, f.start, direction(k), Seq::empty(), walk_limit(f.width, f.height))
}

/// The number of the first direction, from `k` on, in which the walk from
/// the start goes round.
pub open spec fn first_round(f: Field, k: int) -> Option<int>
    decreases 4 - k,
{
    if k < 0 || k >= 4 {
        None
    } else if attempt(f, k).1 is Some {
        Some(k)
    } else {
        first_round(f, k + 1)
    }
}

/// Half the length, rounded down, of the first walk from the start that
/// goes round: the number of steps to the farthest point of the loop.
pub open spec fn part_one_of(f: Field) -> Option<usize> {
    match first_round(f, 0) {
        Some(k) => Some((attempt(f, k).0.len() / 2) as usize),
        None => None,
    }
}

fn limit_for(width: usize, height: usize) -> (limit: usize)
    ensures
        limit == walk_limit(width, height),
{
    let cells = match width.checked_mul(height) {
        Some(c) => c,
        None => {
            assert(4 * width * height + 1 > usize::MAX) by (nonlinear_arith)
                requires
                    width * height > usize::MAX,
            ;
            return usize::MAX;
        },
    };
    assert(4 * width * height == 4 * (width * height)) by (nonlinear_arith);
    match cells.checked_mul(4) {
        Some(c) => match c.checked_add(1) {
            Some(limit) => limit,
            None => usize::MAX,
        },
        None => usize::MAX,
    }
}

fn step_from(pos: &Pos, dir: Dir) -> (r: Option<Pos>)
    ensures
        r == stepped(*pos, dir),
{
    let fits = match dir {
        Dir::North => pos.y > isize::MIN,
        Dir::South => pos.y < isize::MAX,
        Dir::West => pos.x > isize::MIN,
        Dir::East => pos.x < isize::MAX,
    };
    if fits {
        let mut to = Pos { x: pos.x, y: pos.y };
        to.go(&dir);
        Some(to)
    } else {
        None
    }
}

fn nth_direction(k: usize) -> (d: Dir)
    ensures
        d == direction(k as int),
{
    if k == 0 {
        Dir::North
    } else if k == 1 {
        Dir::East
    } else if k == 2 {
        Dir::South
    } else {
        Dir::West
    }
}

/// Follows the walk from the start in the direction tried as number `k`.
pub fn follow(field: &Field, k: usize) -> (r: (Vec<Pos>, Option<Dir>))
    ensures
        r.0@ == attempt(*field, k as int).0,
        r.1 == attempt(*field, k as int).1,
{
    let limit = limit_for(field.width, field.height);
    let mut path: Vec<Pos> = Vec::new();
    let mut pos = Pos { x: field.start.x, y: field.start.y };
    let mut dir = nth_direction(k);
    while path.len() < limit
        invariant
            limit == walk_limit(field.width, field.height),
            attempt(*field, k as int) == walk(*field, pos, dir, path@, limit as nat),
        decreases limit - path.len(),
    {
        let to = match step_from(&pos, dir) {
            Some(to) => to,
            None => {
                return (path, None);
            },
        };
        path.push(Pos { x: to.x, y: to.y });
        match field.get(&to) {
            Some(tile) => {
                if *tile == Tile::Start {
                    return (path, Some(dir));
                }
                match tile.goes_to(dir) {
                    Some(next) => {
                        dir = next;
                    },
                    None => {
                        return (path, None);
                    },
                }
            },
            None => {
                return (path, None);
            },
        }
        pos = to;
    }
    (path, None)
}

/// The number of steps to the farthest point of the loop through the start:
/// `None` where no walk from the start goes round.
pub fn checked_part_one(field: &Field) -> (r: Option<usize>)
    ensures
        r == part_one_of(*field),
{
    let mut k: usize = 0;
    while k < 4
        invariant
            k <= 4,
            first_round(*field, 0) == first_round(*field, k as int),
        decreases 4 - k,
    {
        let (path, last) = follow(field, k);
        if last.is_some() {
            return Some(path.len() / 2);
        }
        k += 1;
    }
    None
}

/// The number of steps to the farthest point of the loop through the start.
pub fn part_one(field: &Field) -> (n: usize)
    requires
        part_one_of(*field) is Some,
    ensures
        part_one_of(*field) == Some(n),
{
    checked_part_one(field).unwrap()
}

/// The positions of the loop, and whether the start tile counts as a
/// crossing: the positions of the first walk that goes round, and for the
/// start whether that walk does not run straight through it from west to
/// east or from east to west. Where no walk goes round, the positions of
/// the walk tried last, and the start does not count.
pub open spec fn chosen(f: Field) -> (Seq<Pos>, bool) {
    match first_round(f, 0) {
        Some(k) => {
            let s = direction(k);
            (attempt(f, k).0, !(Some(s) == attempt(f, k).1 && (s == Dir::East || s == Dir::West)))
        },
        None => (attempt(f, 3).0, false),
    }
}

/// Whether a tile of the loop sends out a ray: every tile but a horizontal
/// pipe does, the start as `start_emit` says. `None` for ground, which is
/// no part of a loop.
pub open spec fn emits(t: Tile, start_emit: bool) -> Option<bool> {
    match t {
        Tile::Horizontal => Some(false),
        Tile::Empty => None,
        Tile::Start => Some(start_emit),
        _ => Some(true),
    }
}

/// Whether a ray from a bend that opens to the east looks along its own
/// pipe.
pub open spec fn on_border(t: Tile) -> bool {
    t == Tile::NorthEast || t == Tile::SouthEast
}

/// Whether the tile `t2` ends a ray from the bend `t1`: the two bends turn
/// the pipe back to the side it came from.
pub open spec fn stops(t1: Tile, t2: Tile) -> bool {
    (t2 == Tile::NorthWest && t1 == Tile::SouthEast) || (t2 == Tile::SouthWest && t1
        == Tile::NorthEast)
}

/// The marks after a ray from a tile `t1` in row `y` has run east from
/// column `x` on: it flips the mark of every cell up to the end of the row,
/// or, from a bend that opens to the east, up to the first tile of the row
/// that ends it. `None` where such a bend looks at a cell without tile, or
/// a cell to flip has no mark.
pub open spec fn ray(f: Field, marks: Seq<bool>, t1: Tile, y: isize, x: int) -> Option<Seq<bool>>
    decreases (f.width as isize) - x,
{
    if x >= (f.width as isize) {
        Some(marks)
    } else {
        let p = Pos { x: x as isize, y };
        if on_border(t1) && f.tile_at(p) is None {
            None
        } else if on_border(t1) && stops(t1, f.tile_at(p)->0) {
            Some(marks)
        } else {
            match index_of(f.width, f.height, p) {
                Some(i) => if i < marks.len() {
                    ray(f, marks.update(i as int, !marks[i as int]), t1, y, x + 1)
                } else {
                    None
                },
                None => None,
            }
        }
    }
}

/// The marks after the first `k` positions of the loop have sent out their
/// rays, starting without any mark. A cell is marked after an odd number of
/// flips. `None` where one of these positions has no tile or ground, or a
/// ray is not defined.
pub open spec fn marked(f: Field, loo: Seq<Pos>, start_emit: bool, k: int) -> Option<Seq<bool>>
    decreases k,
{
    if k <= 0 {
        Some(Seq::new(f.tiles.len() as nat, |i: int| false))
    } else {
        match marked(f, loo, start_emit, k - 1) {
            Some(marks) => match f.tile_at(loo[k - 1]) {
                Some(t1) => match emits(t1, start_emit) {
                    Some(true) => ray(f, marks, t1, loo[k - 1].y, loo[k - 1].x + 1),
                    Some(false) => Some(marks),
                    None => None,
                },
                None => None,
            },
            None => None,
        }
    }
}

/// `marks` without the marks of the first `k` positions of the loop; `None`
/// where one of these positions has no mark.
pub open spec fn cleared(f: Field, marks: Seq<bool>, loo: Seq<Pos>, k: int) -> Option<Seq<bool>>
    decreases k,
{
    if k <= 0 {
        Some(marks)
    } else {
        match cleared(f, marks, loo, k - 1) {
            Some(m) => match index_of(f.width, f.height, loo[k - 1]) {
                Some(i) => if i < m.len() {
                    Some(m.update(i as int, false))
                } else {
                    None
                },
                None => None,
            },
            None => None,
        }
    }
}

/// How many of the first `k` marks are set.
pub open spec fn count_set(marks: Seq<bool>, k: int) -> nat
    decreases k,
{
    if k <= 0 {
        0
    } else {
        count_set(marks, k - 1) + if marks[k - 1] {
            1nat
        } else {
            0nat
        }
    }
}

/// The number of cells that the loop encloses: the cells off the loop that
/// are marked once every tile of the loop has sent its ray east.
pub open spec fn part_two_of(f: Field) -> Option<usize> {
    let (loo, start_emit) = chosen(f);
    match marked(f, loo, start_emit, loo.len() as int) {
        Some(marks) => match cleared(f, marks, loo, loo.len() as int) {
            Some(rest) => Some(count_set(rest, rest.len() as int) as usize),
            None => None,
        },
        None => None,
    }
}

/// Finds the positions of the loop and whether the start counts as a
/// crossing.
pub fn find_loop(field: &Field) -> (r: (Vec<Pos>, bool))
    ensures
        r.0@ == chosen(*field).0,
        r.1 == chosen(*field).1,
{
    let mut k: usize = 0;
    while k < 3
        invariant
            k <= 3,
            first_round(*field, 0) == first_round(*field, k as int),
        decreases 3 - k,
    {
        let (path, last) = follow(field, k);
        match last {
            Some(dir) => {
                let s = nth_direction(k);
                return (path, !(s == dir && (s == Dir::East || s == Dir::West)));
            },
            None => {},
        }
        k += 1;
    }
    let (path, last) = follow(field, 3);
    match last {
        Some(dir) => (path, !(dir == Dir::West)),
        None => {
            assert(first_round(*field, 4) is None);
            (path, false)
        },
    }
}

/// Sends a ray east from column `x` of row `y`; the result says whether the
/// ray was defined.
fn cast(field: &Field, m: &mut Grid<bool>, t1: Tile, y: isize, from: isize) -> (ok: bool)
    requires
        old(m).width == field.width,
        old(m).height == field.height,
    ensures
        final(m).width == field.width,
        final(m).height == field.height,
        ok ==> ray(*field, old(m).content@, t1, y, from as int) == Some(final(m).content@),
        !ok ==> ray(*field, old(m).content@, t1, y, from as int) is None,
{
    let width = #[verifier::truncate] (field.width as isize);
    let border = t1 == Tile::NorthEast || t1 == Tile::SouthEast;
    let mut x = from;
    while x < width
        invariant
            width == (field.width as isize),
            border == on_border(t1),
            m.width == field.width,
            m.height == field.height,
            ray(*field, old(m).content@, t1, y, from as int) == ray(
                *field,
                m.content@,
                t1,
                y,
                x as int,
            ),
        decreases width - x,
    {
        let p = Pos { x, y };
        if border {
            match field.get(&p) {
                Some(t2) => {
                    if (*t2 == Tile::NorthWest && t1 == Tile::SouthEast) || (*t2
                        == Tile::SouthWest && t1 == Tile::NorthEast) {
                        return true;
                    }
                },
                None => {
                    return false;
                },
            }
        }
        match m.get_mut(&p) {
            Some(cell) => {
                *cell = !*cell;
            },
            None => {
                return false;
            },
        }
        x += 1;
    }
    true
}

/// The number of cells that the loop `loo` encloses: `None` where a
/// position of the loop has no tile or ground, or a ray is not defined.
pub fn count_enclosed(field: &Field, loo: &Vec<Pos>, start_emit: bool) -> (r: Option<usize>)
    ensures
        r == match marked(*field, loo@, start_emit, loo.len() as int) {
            Some(marks) => match cleared(*field, marks, loo@, loo.len() as int) {
                Some(rest) => Some(count_set(rest, rest.len() as int) as usize),
                None => None,
            },
            None => None,
        },
{
    let mut content: Vec<bool> = Vec::new();
    let mut i: usize = 0;
    while i < field.tiles.len()
        invariant
            i <= field.tiles.len(),
            content.len() == i,
            forall|j: int| 0 <= j < i ==> !content@[j],
        decreases field.tiles.len() - i,
    {
        content.push(false);
        i += 1;
    }
    assert(content@ =~= Seq::new(field.tiles.len() as nat, |i: int| false));
    let mut m = Grid { content, width: field.width, height: field.height };
    let mut ok = true;
    let mut k: usize = 0;
    while k < loo.len()
        invariant
            k <= loo.len(),
            m.width == field.width,
            m.height == field.height,
            ok ==> marked(*field, loo@, start_emit, k as int) == Some(m.content@),
            !ok ==> marked(*field, loo@, start_emit, k as int) is None,
        decreases loo.len() - k,
    {
        if ok {
            let pos = &loo[k];
            match field.get(pos) {
                Some(tile) => {
                    let t1 = *tile;
                    if t1 == Tile::Empty {
                        ok = false;
                    } else if t1 != Tile::Horizontal && (t1 != Tile::Start || start_emit) {
                        ok = cast(field, &mut m, t1, pos.y, pos.x + 1);
                    }
                },
                None => {
                    ok = false;
                },
            }
        }
        k += 1;
    }
    if !ok {
        return None;
    }
    let ghost marks = m.content@;
    let mut k: usize = 0;
    while k < loo.len()
        invariant
            k <= loo.len(),
            m.width == field.width,
            m.height == field.height,
            ok ==> cleared(*field, marks, loo@, k as int) == Some(m.content@),
            !ok ==> cleared(*field, marks, loo@, k as int) is None,
        decreases loo.len() - k,
    {
        if ok {
            match m.get_mut(&loo[k]) {
                Some(cell) => {
                    *cell = false;
                },
                None => {
                    ok = false;
                },
            }
        }
        k += 1;
    }
    if !ok {
        return None;
    }
    let mut n: usize = 0;
    let mut k: usize = 0;
    while k < m.content.len()
        invariant
            k <= m.content.len(),
            n == count_set(m.content@, k as int),
            n <= k,
        decreases m.content.len() - k,
    {
        if m.content[k] {
            n += 1;
        }
        k += 1;
    }
    Some(n)
}

/// The number of cells that the loop through the start encloses, with
/// `None` as [`count_enclosed`] has it.
pub fn checked_part_two(field: &Field) -> (r: Option<usize>)
    ensures
        r == part_two_of(*field),
{
    let (loo, start_emit) = find_loop(field);
    count_enclosed(field, &loo, start_emit)
}

/// The number of cells that the loop through the start is taken to
/// enclose: the cells off the loop over which an odd number of the rays
/// from the tiles of the loop pass.
pub fn part_two(field: &Field) -> (n: usize)
    requires
        part_two_of(*field) is Some,
    ensures
        part_two_of(*field) == Some(n),
        n == count_set(
            Seq::new(field.tiles.len() as nat, |i: int| crate::crossings::crossed_oddly(*field, i)),
            field.tiles.len() as int,
        ),
{
    proof {
        crate::crossings::lemma_part_two_counts_crossings(*field);
    }
    checked_part_two(field).unwrap()
}

impl Field {
    /// The characters that show the first `k` tiles of row `y`; `None`
    /// where one of these places has no tile.
    pub open spec fn row_text(&self, y: isize, k: int) -> Option<Seq<char>>
        decreases k,
    {
        if k <= 0 {
            Some(Seq::empty())
        } else {
            match (self.row_text(y, k - 1), self.tile_at(Pos { x: (k - 1) as isize, y })) {
                (Some(before), Some(tile)) => Some(before.push(tile.shown_as())),
                _ => None,
            }
        }
    }

    /// The text that shows the first `rows` rows, each row followed by a
    /// line feed; `None` where a place of these rows has no tile.
    pub open spec fn text_upto(&self, rows: int) -> Option<Seq<char>>
        decreases rows,
    {
        if rows <= 0 {
            Some(Seq::empty())
        } else {
            match (
                self.text_upto(rows - 1),
                self.row_text((rows - 1) as isize, (self.width as isize) as int),
            ) {
                (Some(before), Some(row)) => Some(before + row + seq!['\n']),
                _ => None,
            }
        }
    }

    /// The text that shows the field, row by row: `None` where a place of
    /// the field has no tile.
    pub fn render(&self) -> (r: Option<String>)
        ensures
            match r {
                Some(text) => self.text_upto((self.height as isize) as int) == Some(text@),
                None => self.text_upto((self.height as isize) as int) is None,
            },
    {
        let width = #[verifier::truncate] (self.width as isize);
        let height = #[verifier::truncate] (self.height as isize);
        let mut out: Vec<char> = Vec::new();
        let mut y: isize = 0;
        while y < height
            invariant
                0 <= y,
                y <= height || (y == 0 && out@.len() == 0),
                width == (self.width as isize),
                height == (self.height as isize),
                self.text_upto(y as int) == Some(out@),
            decreases height - y,
        {
            let ghost before = out@;
            let mut x: isize = 0;
            while x < width
                invariant
                    0 <= x,
                    x <= width || x == 0,
                    0 <= y < height,
                    width == (self.width as isize),
                    height == (self.height as isize),
                    self.text_upto(y as int) == Some(before),
                    self.row_text(y, x as int) matches Some(row) && out@ == before + row,
                decreases width - x,
            {
                match self.get(&Pos { x, y }) {
                    Some(tile) => {
                        let ghost row = self.row_text(y, x as int)->0;
                        out.push(tile.symbol());
                        assert(out@ =~= before + row.push(tile.shown_as()));
                    },
                    None => {
                        proof {
                            lemma_row_text_stays_none(*self, y, x + 1, width as int);
                            lemma_text_stays_none(*self, y + 1, height as int);
                        }
                        return None;
                    },
                }
                x += 1;
            }
            out.push('\n');
            proof {
                let row = self.row_text(y, width as int);
                if width <= 0 {
                    assert(x == 0);
                }
                assert(out@ =~= before + row->0 + seq!['\n']);
            }
            y += 1;
        }
        Some(string_of(&out))
    }
}

/// A row with a place without tile has no text.
pub proof fn lemma_row_text_stays_none(f: Field, y: isize, k: int, n: int)
    requires
        k <= n,
        f.row_text(y, k) is None,
    ensures
        f.row_text(y, n) is None,
    decreases n - k,
{
    if k < n {
        lemma_row_text_stays_none(f, y, k, n - 1);
    }
}

/// A field with a row without text has no text.
pub proof fn lemma_text_stays_none(f: Field, k: int, n: int)
    requires
        k <= n,
        f.text_upto(k) is None,
    ensures
        f.text_upto(n) is None,
    decreases n - k,
{
    if k < n {
        lemma_text_stays_none(f, k, n - 1);
    }
}

} // verus!
