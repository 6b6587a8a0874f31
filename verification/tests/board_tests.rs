use ttt_lib::board::Board;
use ttt_lib::token::Token::{self, Cross, Empty, Nought};

fn create_board_filling_cells(size: usize, indices: Vec<usize>) -> Board {
    let mut board = Board::new(size);
    for i in indices.iter() {
        let token = match i {
            i if *i % 2 == 0 => Cross,
            _ => Nought,
        };
        board = board.update(*i, token);
    }
    board
}

fn create_board_from_cells(cells: Vec<Token>) -> Board {
    let mut board = Board::new(3);
    for (i, token) in cells.iter().enumerate() {
        if *token != Empty {
            board = board.update(i, *token);
        }
    }
    board
}

#[test]
fn it_creates_empty_board() {
    let size = 3;
    let board = Board::new(size);
    assert_eq!(vec![Empty; (size * size)], board.cells);
    assert_eq!(size, board.size);
}

#[test]
fn it_gets_board_cells() {
    let size = 3;
    let board = Board::new(size);
    assert_eq!(board.cells, *board.get_cells())
}

#[test]
fn it_gets_size_of_board() {
    let size = 3;
    let board = Board::new(size);
    assert_eq!(board.size, board.get_row_size());
}

#[test]
fn it_gets_length_of_board() {
    let size = 3;
    let board = Board::new(size);
    assert_eq!(size * size, board.get_length());
}

#[test]
fn it_sets_board_cell_state() {
    let board = create_board_filling_cells(3, vec![0, 5]);
    assert_eq!(Cross, board.cells[0]);
    assert_eq!(Nought, board.cells[5]);
}

#[test]
fn it_informs_if_cell_is_empty() {
    let board = create_board_filling_cells(3, vec![6]);
    assert_eq!(false, board.is_empty_cell(6));
    assert!(board.is_empty_cell(0));
}

#[test]
fn it_gets_indices_of_empty_cells() {
    let board = create_board_filling_cells(3, vec![0, 2, 5, 7]);
    assert_eq!(vec![1, 3, 4, 6, 8], board.empty_cells());
}

#[test]
fn it_partitions_board_into_rows_diagonals_columns() {
    let board = create_board_filling_cells(3, vec![0, 2, 3, 4, 7, 8]);
    let rows = vec![
        vec![Cross, Empty, Cross],
        vec![Nought, Cross, Empty],
        vec![Empty, Nought, Cross],
    ];
    let columns = vec![
        vec![Cross, Nought, Empty],
        vec![Empty, Cross, Nought],
        vec![Cross, Empty, Cross],
    ];
    let diagonals = vec![vec![Cross, Cross, Cross], vec![Cross, Cross, Empty]];
    let partition = [&rows[..], &columns[..], &diagonals[..]].concat();

    assert_eq!(partition, board.partition());
}

#[test]
fn it_leaves_board_unchanged_on_occupied_cell_update() {
    let board = create_board_from_cells(vec![
        Cross, Empty, Nought, Empty, Cross, Empty, Empty, Empty, Empty,
    ]);
    let unchanged = board.clone().update(0, Nought);
    assert_eq!(board, unchanged);
    let unchanged = board.clone().update(2, Cross);
    assert_eq!(board, unchanged);
}

#[test]
fn it_updates_an_empty_cell() {
    let board = Board::new(3).update(4, Nought);
    assert_eq!(Nought, board.cells[4]);
    assert!(board.cells.iter().enumerate().all(|(i, t)| i == 4 || *t == Empty));
}
