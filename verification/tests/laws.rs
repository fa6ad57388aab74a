use life_grid::Board;
use life_grid::Cell;
use life_grid::Point;

#[test]
fn wrap_every_coordinate() {
    let size: usize = 16;
    for coord in 0..size {
        let down = Point::value_with_offset(coord, -1, size);
        let up = Point::value_with_offset(coord, 1, size);
        if coord == 0 {
            assert_eq!(down, size - 1);
        } else {
            assert_eq!(down, coord - 1);
        }
        if coord == size - 1 {
            assert_eq!(up, 0);
        } else {
            assert_eq!(up, coord + 1);
        }
        assert_eq!(Point::value_with_offset(coord, 0, size), coord);
    }
}

#[test]
fn transition_table_exhaustive() {
    for count in 0..=8u8 {
        for &live in [false, true].iter() {
            let c = Cell { live, neighbor_count: count };
            let expected = count == 3 || (count == 2 && live);
            assert_eq!(c.next_life_state(), expected);
        }
    }
}

#[test]
fn neighbor_count_bounds_all_live() {
    let size: usize = 3;
    let mut board = Board::new(size, &vec![]).unwrap();
    for i in 0..size {
        for j in 0..size {
            board.set_live(i, j);
        }
    }
    for i in 0..size {
        for j in 0..size {
            let count = board.get_neighbor_count(i, j);
            assert_eq!(count, 8);
            assert!(count <= 8);
        }
    }
}

#[test]
fn refresh_twice_same_counts() {
    let size: usize = 10;
    let seed = vec![(0, 0), (0, 1), (1, 1), (5, 5), (9, 9), (9, 0)];
    let mut board = Board::new(size, &seed).unwrap();
    board.update_neighbor_counts();
    let mut first = Vec::new();
    for i in 0..size {
        for j in 0..size {
            first.push(board.cell_at(i, j).neighbor_count);
        }
    }
    board.update_neighbor_counts();
    let mut k = 0;
    for i in 0..size {
        for j in 0..size {
            assert_eq!(board.cell_at(i, j).neighbor_count, first[k]);
            k += 1;
        }
    }
}

#[test]
fn corner_toroidal_adjacency() {
    let board = Board::new(10, &vec![(0, 1), (9, 9)]).unwrap();
    assert_eq!(board.get_neighbor_count(0, 0), 2);
}

#[test]
fn blinker_step() {
    let mut board = Board::new(16, &vec![(0, 0), (0, 15), (2, 0)]).unwrap();
    board.step();
    assert_eq!(board.cell_at(1, 0).live, true);
    assert_eq!(board.cell_at(1, 15).live, true);
    assert_eq!(board.cell_at(1, 1).live, false);
}

#[test]
fn oscillator_period_two() {
    // a horizontal triple far from every edge flips to a vertical triple and
    // back again
    let mut board = Board::new(16, &vec![(5, 4), (5, 5), (5, 6)]).unwrap();
    board.step();
    for i in 0..16 {
        for j in 0..16 {
            let expected = (i, j) == (4, 5) || (i, j) == (5, 5) || (i, j) == (6, 5);
            assert_eq!(board.cell_at(i, j).live, expected, "cell ({}, {})", i, j);
        }
    }
    board.step();
    for i in 0..16 {
        for j in 0..16 {
            let expected = (i, j) == (5, 4) || (i, j) == (5, 5) || (i, j) == (5, 6);
            assert_eq!(board.cell_at(i, j).live, expected, "cell ({}, {})", i, j);
        }
    }
}

#[test]
fn empty_board_stays_dead() {
    let mut board = Board::new(16, &vec![]).unwrap();
    for _ in 0..5 {
        board.step();
        for i in 0..16 {
            for j in 0..16 {
                assert_eq!(board.cell_at(i, j).live, false);
            }
        }
    }
}

#[test]
fn seed_out_of_range_rejected() {
    assert!(Board::new(10, &vec![(10, 0)]).is_err());
    assert!(Board::new(10, &vec![(0, 10)]).is_err());
    assert!(Board::new(10, &vec![(3, 3), (11, 11)]).is_err());
    assert!(Board::new(10, &vec![(9, 9)]).is_ok());
    assert_eq!(
        Board::new(10, &vec![(10, 10)]).unwrap_err(),
        life_grid::SeedOutOfRange
    );
}
