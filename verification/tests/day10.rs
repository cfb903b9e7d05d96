use rustvent2023::day10::{
    checked_part_one, checked_part_two, count_enclosed, find_loop, follow, part_one, part_two,
    Dir, Field, Tile,
};
use rustvent2023::Pos;

const TEST: &str = ".....
.S-7.
.|.|.
.L-J.
.....
";

const TEST2: &str = "FF7FSF7F7F7F7F7F---7
L|LJ||||||||||||F--J
FL-7LJLJ||||||LJL-77
F--JF--7||LJLJ7F7FJ-
L---JF-JLJ.||-FJLJJ7
|F|F-JF---7F7-L7L|7|
|FFJF7L7F-JF7|JL---7
7-L-JL7||F7|L7F-7F7|
L.L7LFJ|||||FJL7||LJ
L7JLJL-JLJLJL--JLJ.L
";

const TEST3: &str =
"............
.S-------7..
.|F-----7|..
.||.....||..
FJ|.....|L7.
|.|...F-J.|.
|.L-7.|...|.
L---J.L---J.
............
";

#[test]
fn day10_test_parse() {
    let field = Field::from_str(TEST);

    assert_eq!(field.width, 5);
    assert_eq!(field.height, 5);
    assert_eq!(
        field.get(&(3isize, 1isize).into()).unwrap(),
        &Tile::SouthWest
    );
}

#[test]
fn day10_test_part_one() {
    let field = Field::from_str(TEST);
    println!("{}", field.render().unwrap());
    assert_eq!(part_one(&field), 4);
}

#[test]
fn day10_test_part_two() {
    let field = Field::from_str(TEST2);
    assert_eq!(part_two(&field), 10);
}

#[test]
fn test_part_two_easy() {
    let field = Field::from_str(TEST);
    assert_eq!(part_two(&field), 1);
}

#[test]
fn test_part_two_medium() {
    let field = Field::from_str(TEST3);
    assert_eq!(part_two(&field), 6);
}

#[test]
fn directions_and_tiles() {
    assert_eq!(Dir::North.opp(), Dir::South);
    assert_eq!(Dir::South.opp(), Dir::North);
    assert_eq!(Dir::East.opp(), Dir::West);
    assert_eq!(Dir::West.opp(), Dir::East);
    assert_eq!(Tile::Horizontal.get_dirs(), Some((Dir::East, Dir::West)));
    assert_eq!(Tile::Vertical.get_dirs(), Some((Dir::North, Dir::South)));
    assert_eq!(Tile::NorthEast.get_dirs(), Some((Dir::North, Dir::East)));
    assert_eq!(Tile::NorthWest.get_dirs(), Some((Dir::North, Dir::West)));
    assert_eq!(Tile::SouthEast.get_dirs(), Some((Dir::South, Dir::East)));
    assert_eq!(Tile::SouthWest.get_dirs(), Some((Dir::South, Dir::West)));
    assert_eq!(Tile::Empty.get_dirs(), None);
    assert_eq!(Tile::Start.get_dirs(), None);
    // going east into a bend that joins west and south leads south
    assert_eq!(Tile::SouthWest.goes_to(Dir::East), Some(Dir::South));
    assert_eq!(Tile::SouthWest.goes_to(Dir::North), Some(Dir::West));
    assert_eq!(Tile::SouthWest.goes_to(Dir::West), None);
    assert_eq!(Tile::Vertical.goes_to(Dir::South), Some(Dir::South));
    assert_eq!(Tile::Vertical.goes_to(Dir::East), None);
    assert_eq!(Tile::Empty.goes_to(Dir::East), None);
    assert_eq!(Tile::try_from('F'), Ok(Tile::SouthEast));
    assert_eq!(Tile::try_from('7'), Ok(Tile::SouthWest));
    assert_eq!(Tile::try_from('x'), Err(()));
    assert_eq!(Tile::Start.symbol(), 'S');
    assert_eq!(Tile::Empty.symbol(), ' ');
}

#[test]
fn positions_move_by_one() {
    let mut p = Pos { x: 3, y: 4 };
    p.go(&Dir::North);
    assert_eq!(p, Pos { x: 3, y: 3 });
    p.go(&Dir::East).go(&Dir::East);
    assert_eq!(p, Pos { x: 5, y: 3 });
    p.go(&Dir::South);
    p.go(&Dir::West);
    assert_eq!(p, Pos { x: 4, y: 4 });
}

#[test]
fn the_start_is_found_by_rows_of_the_first_lines_width() {
    let field = Field::from_str(TEST);
    assert_eq!(field.start, Pos { x: 1, y: 1 });
    assert_eq!(field.tiles.len(), 25);
    let field = Field::from_str("..\r\n.S\r\n");
    assert_eq!(field.start, Pos { x: 1, y: 1 });
    assert_eq!(field.width, 2);
    assert_eq!(field.height, 2);
    assert!(Field::checked_from_str("").is_none());
    assert!(Field::checked_from_str("....").is_none());
    assert!(Field::checked_from_str("\nS").is_none());
}

#[test]
fn positions_outside_the_field_have_no_tile() {
    let field = Field::from_str(TEST);
    assert_eq!(field.get(&Pos { x: -1, y: 0 }), None);
    assert_eq!(field.get(&Pos { x: 0, y: -1 }), None);
    assert_eq!(field.get(&Pos { x: 5, y: 0 }), None);
    assert_eq!(field.get(&Pos { x: 0, y: 5 }), None);
    assert_eq!(field.get(&Pos { x: 0, y: 0 }), Some(&Tile::Empty));
    assert_eq!(field.get(&Pos { x: 1, y: 1 }), Some(&Tile::Start));
}

#[test]
fn walks_break_off_or_go_round() {
    let field = Field::from_str(TEST);
    let (path, last) = follow(&field, 0);
    assert_eq!(path, vec![Pos { x: 1, y: 0 }]);
    assert_eq!(last, None);
    let (path, last) = follow(&field, 1);
    assert_eq!(path.len(), 8);
    assert_eq!(path[7], Pos { x: 1, y: 1 });
    assert_eq!(last, Some(Dir::North));
    let (loo, start_emit) = find_loop(&field);
    assert_eq!(loo.len(), 8);
    assert!(start_emit);
    assert_eq!(count_enclosed(&field, &loo, start_emit), Some(1));
}

#[test]
fn a_field_without_loop() {
    let field = Field::from_str("S-7\n...\n");
    assert_eq!(checked_part_one(&field), None);
    // the walk tried last leaves the field to the west
    assert_eq!(find_loop(&field), (vec![Pos { x: -1, y: 0 }], false));
    assert_eq!(checked_part_two(&field), None);
}

#[test]
fn a_start_passed_straight_through_is_no_crossing() {
    let field = Field::from_str("F-S-7\n|...|\nL---J\n");
    assert_eq!(part_one(&field), 6);
    let (_, start_emit) = find_loop(&field);
    assert!(!start_emit);
    assert_eq!(part_two(&field), 3);
}

#[test]
fn a_field_is_shown_row_by_row() {
    let field = Field::from_str("S-7\n|.|\nL-J\n");
    assert_eq!(field.render().unwrap(), "S━┓\n┃ ┃\n┗━┛\n");
    // the second row lacks a tile
    let field = Field::from_str("S-7\n|.\n");
    assert_eq!(field.render(), None);
}

#[test]
fn day10_solving_twice_gives_the_same() {
    let a = Field::from_str(TEST2);
    let b = Field::from_str(TEST2);
    assert_eq!(a.tiles, b.tiles);
    assert_eq!((a.width, a.height, a.start.clone()), (b.width, b.height, b.start.clone()));
    assert_eq!(checked_part_one(&a), checked_part_one(&a));
    assert_eq!(checked_part_two(&a), checked_part_two(&a));
    assert_eq!(checked_part_one(&a), Some(80));
}
