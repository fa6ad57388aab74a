use life_grid::Board;
use life_grid::Cell;
use life_grid::Point;

const SIZE: usize = 16;

fn set_cell(cell: &mut Cell, live: bool, count: u8) {
    cell.live = live;
    cell.neighbor_count = count;
}

#[test]
fn new_cell() {
    let c = Cell::new();
    assert_eq!(c.live, false);
    assert_eq!(c.neighbor_count, 0);
}

#[test]
fn cell_on() {
    let mut c = Cell::new();
    c.on();
    assert_eq!(c.live, true);
}

#[test]
fn cell_next_life_state() {
    let mut c = Cell::new();
    let tests = [
        (0, true, false),
        (1, false, false),
        (2, false, false),
        (2, true, true),
        (3, false, true),
        (3, true, true),
        (4, true, false),
        (4, false, false),
        (5, false, false),
    ];
    for &(count, state, next_state) in tests.iter() {
        c.neighbor_count = count;
        c.live = state;
        assert_eq!(c.next_life_state(), next_state);
    }
}

#[test]
fn cell_update_life_state() {
    let mut c = Cell { neighbor_count: 3, live: false };
    c.update_life_state();
    assert_eq!(c.live, true);
}

#[test]
fn new_board() {
    let b = Board::new(SIZE, &vec![]).unwrap();
    assert_eq!(b.size(), SIZE);
    assert_eq!(b.cells.len(), SIZE * SIZE);
}

#[test]
fn test_set_cell() {
    let mut c = Cell::new();
    set_cell(&mut c, true, 7);
    assert_eq!(c.live, true);
    assert_eq!(c.neighbor_count, 7);
}

#[test]
fn point() {
    let p = Point { x: 5, y: 3 };
    assert_eq!(p.x, 5);
}

#[test]
fn point_value_with_offset() {
    let tests = [
        (5, 0, 5),
        (1, -1, 0),
        (SIZE - 2, 1, SIZE - 1),
        (0, -1, SIZE - 1),
        (SIZE - 1, 1, 0),
    ];
    for &(x, dx, v) in tests.iter() {
        assert_eq!(Point::value_with_offset(x, dx, SIZE), v);
    }
}

#[test]
fn get_neighbor_count_11() {
    let mut board = Board::new(SIZE, &vec![]).unwrap();
    let count1 = board.get_neighbor_count(1, 1);
    assert_eq!(count1, 0);
    board.set_live(0, 0);
    board.set_live(0, 1);
    let count2 = board.get_neighbor_count(1, 1);
    assert_eq!(count2, 2);
    board.set_live(0, 2);
    board.set_live(1, 0);
    let count3 = board.get_neighbor_count(1, 1);
    assert_eq!(count3, 4);
}

#[test]
fn get_neighbor_count_00() {
    let mut board = Board::new(SIZE, &vec![]).unwrap();
    let count1 = board.get_neighbor_count(0, 0);
    assert_eq!(count1, 0);
    board.set_live(0, 1);
    board.set_live(SIZE - 1, SIZE - 1);
    let count2 = board.get_neighbor_count(0, 0);
    assert_eq!(count2, 2);
    board.set_live(1, 0);
    board.set_live(1, 1);
    board.set_live(SIZE - 1, 1);
    board.set_live(0, SIZE - 1);
    let count3 = board.get_neighbor_count(0, 0);
    assert_eq!(count3, 6);
}

#[test]
fn get_neighbor_count_bottom_left_corner() {
    let mut board = Board::new(SIZE, &vec![]).unwrap();
    let count1 = board.get_neighbor_count(SIZE - 1, 0);
    assert_eq!(count1, 0);
    board.set_live(0, 0);
    let count2 = board.get_neighbor_count(SIZE - 1, 0);
    assert_eq!(count2, 1);
    board.set_live(SIZE - 1, SIZE - 1);
    board.set_live(0, 1);
    let count3 = board.get_neighbor_count(SIZE - 1, 0);
    assert_eq!(count3, 3);
    board.set_live(0, SIZE - 1);
    board.set_live(SIZE - 2, 0);
    board.set_live(SIZE - 2, 1);
    board.set_live(SIZE - 1, 1);
    board.set_live(SIZE - 2, SIZE - 1);
    let count4 = board.get_neighbor_count(SIZE - 1, 0);
    assert_eq!(count4, 8);
}

#[test]
fn update_neighbor_count() {
    let mut board = Board::new(SIZE, &vec![]).unwrap();
    board.update_neighbor_count(0, 0);
    assert_eq!(board.cell_at(0, 0).neighbor_count, 0);
    board.set_live(0, 1);
    board.set_live(SIZE - 1, SIZE - 1);
    board.update_neighbor_count(0, 0);
    assert_eq!(board.cell_at(0, 0).neighbor_count, 2);
}

#[test]
fn update_neighbor_counts() {
    let mut board = Board::new(SIZE, &vec![]).unwrap();
    board.update_neighbor_counts();
    assert_eq!(board.cell_at(0, 0).neighbor_count, 0);
    board.set_live(0, 1);
    board.update_neighbor_counts();
    assert_eq!(board.cell_at(0, 0).neighbor_count, 1);
}

#[test]
fn update_life_states() {
    let coords = vec![(0, 0), (0, SIZE - 1), (2, 0)];
    let mut board = Board::new(SIZE, &coords).unwrap();
    board.update_neighbor_counts();
    board.update_life_states();
    assert_eq!(board.cell_at(1, 0).live, true);
    assert_eq!(board.cell_at(1, SIZE - 1).live, true);
    assert_eq!(board.cell_at(1, 1).live, false);
}
