use ttt_lib::board::Board;
use ttt_lib::rules::{each_token_matches, get_winner, is_draw, is_game_over, is_won};
use ttt_lib::token::Token::{self, Cross, Empty, Nought};

fn create_board_filling_cells(size: usize, indices: Vec<usize>) -> Board {
    let mut board = Board::new(size);
    for i in indices.iter() {
        let token = match i {
            i if *i % 2 == 0 => Cross,
            _ => Nought,
        };
        board = board.update(*i, token);
    }
    board
}

fn create_board_from_cells(cells: Vec<Token>) -> Board {
    let mut board = Board::new(3);
    for (i, token) in cells.iter().enumerate() {
        if *token != Empty {
            board = board.update(i, *token);
        }
    }
    board
}

fn create_tied_board(_size: usize) -> Board {
    create_board_from_cells(vec![
        Cross, Nought, Cross, Cross, Nought, Nought, Nought, Cross, Cross,
    ])
}

#[test]
fn it_informs_if_game_not_over() {
    let board = Board::new(3);
    assert_eq!(false, is_game_over(&board));
}

#[test]
fn it_informs_if_game_over_for_win() {
    let board = create_board_filling_cells(3, (0..9).collect());
    assert!(is_game_over(&board));
}

#[test]
fn it_informs_if_game_is_over_for_draw() {
    let board = create_tied_board(3);
    assert!(is_draw(&board));
}

#[test]
fn it_informs_if_game_is_won() {
    let mut board = Board::new(3);
    assert_eq!(false, is_won(&board));
    board = create_board_filling_cells(3, (0..9).collect());
    assert!(is_won(&board));
}

#[test]
fn it_specifies_winner() {
    let board = create_board_filling_cells(3, (0..9).collect());
    assert_eq!(Cross, get_winner(&board));
}

#[test]
fn it_specifies_empty_as_draw_winner() {
    let board = create_tied_board(3);
    assert_eq!(Empty, get_winner(&board));
}

#[test]
fn it_informs_if_tokens_match() {
    let mixed_row = vec![Cross, Cross, Empty];
    let matching_row = vec![Cross, Cross, Cross];
    assert_eq!(false, each_token_matches(&mixed_row, &Cross));
    assert!(each_token_matches(&matching_row, &Cross));
}

#[test]
fn it_informs_if_game_is_not_draw() {
    let mut board = Board::new(3);
    assert_eq!(false, is_draw(&board));
    board = create_board_filling_cells(3, (0..9).collect());
    assert_eq!(false, is_draw(&board));
}

#[test]
fn it_informs_if_game_is_draw() {
    let board = create_tied_board(3);
    assert!(is_draw(&board));
}

#[test]
fn it_detects_a_finished_draw_exactly() {
    let board = create_board_from_cells(vec![
        Cross, Nought, Cross, Cross, Nought, Nought, Nought, Cross, Cross,
    ]);
    assert_eq!(false, is_won(&board));
    assert!(is_draw(&board));
    assert_eq!(Empty, get_winner(&board));
}
