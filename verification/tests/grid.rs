use rustvent2023::day10::Tile;
use rustvent2023::grid::{cell_index, Grid};
use rustvent2023::Pos;

#[test]
fn a_grid_is_read_row_by_row() {
    let g: Grid<Tile> = Grid::from_str("S-7\r\n|.|\r\nL-J");
    assert_eq!(g.width, 3);
    assert_eq!(g.height, 3);
    assert_eq!(g.content.len(), 9);
    assert_eq!(g.get(&Pos { x: 2, y: 0 }), Some(&Tile::SouthWest));
    assert_eq!(g.get(&Pos { x: 0, y: 2 }), Some(&Tile::NorthEast));
    assert_eq!(g.get(&Pos { x: 3, y: 0 }), None);
    assert_eq!(g.get(&Pos { x: 0, y: 3 }), None);
    assert_eq!(g.get(&Pos { x: -1, y: 0 }), None);
    assert!(Grid::<Tile>::checked_from_str("").is_none());
}

#[test]
fn characters_that_are_no_cells_are_passed_over() {
    let g: Grid<Tile> = Grid::from_str("SxF\n-");
    assert_eq!(g.width, 3);
    assert_eq!(g.height, 2);
    assert_eq!(g.content, vec![Tile::Start, Tile::SouthEast, Tile::Horizontal]);
    // the content ends before the second row
    assert_eq!(g.get(&Pos { x: 0, y: 1 }), None);
    assert_eq!(g.get_index(&Pos { x: 0, y: 1 }), Some(3));
}

#[test]
fn the_width_counts_bytes() {
    let g: Grid<Tile> = Grid::from_str("S\u{e9}\n");
    assert_eq!(g.width, 3);
    assert_eq!(g.height, 1);
}

#[test]
fn cells_can_be_written() {
    let mut g = Grid { content: vec![false; 6], width: 3, height: 2 };
    *g.get_mut(&Pos { x: 1, y: 1 }).unwrap() = true;
    assert_eq!(g.content, vec![false, false, false, false, true, false]);
    assert!(g.get_mut(&Pos { x: 3, y: 1 }).is_none());
    assert_eq!(g.get_index(&Pos { x: 2, y: 1 }), Some(5));
    assert_eq!(g.get_index(&Pos { x: 2, y: 2 }), None);
    assert_eq!(cell_index(3, 2, &Pos { x: 0, y: 0 }), Some(0));
    assert_eq!(cell_index(usize::MAX, 2, &Pos { x: 0, y: 1 }), None);
}

#[test]
fn positions_come_from_pairs() {
    let p: Pos = (3, -4).into();
    assert_eq!(p, Pos { x: 3, y: -4 });
    assert_eq!(Pos::from((0, 0)), Pos { x: 0, y: 0 });
}
