use ttt_lib::board::Board;
use ttt_lib::player::strategy::Strategy;
use ttt_lib::player::unbeatable::Unbeatable;
use ttt_lib::token::Token::{self, Cross, Empty, Nought};

const MIN: i32 = i32::MIN;
const MAX: i32 = i32::MAX;

fn create_board_from_cells(cells: Vec<Token>) -> Board {
    let mut board = Board::new(3);
    for (i, token) in cells.iter().enumerate() {
        if *token != Empty {
            board = board.update(i, *token);
        }
    }
    board
}

fn create_tied_board(_size: usize) -> Board {
    create_board_from_cells(vec![
        Cross, Nought, Cross, Cross, Nought, Nought, Nought, Cross, Cross,
    ])
}

#[test]
fn it_creates_strategy_with_cross_max() {
    let unbeatable = Unbeatable::new(Cross);
    assert_eq!(Cross, unbeatable.max);
    assert_eq!(Nought, unbeatable.min);
}

#[test]
fn it_creates_strategy_with_nought_max() {
    let unbeatable = Unbeatable::new(Nought);
    assert_eq!(Nought, unbeatable.max);
    assert_eq!(Cross, unbeatable.min);
}

#[test]
fn it_returns_zero_as_score_for_draw() {
    let board = create_tied_board(3);
    let unbeatable = Unbeatable::new(Cross);
    assert_eq!(0, unbeatable.score(0, &board));
}

#[test]
fn it_returns_score_for_max_win() {
    let max_win = vec![
        Cross, Cross, Cross, Nought, Empty, Nought, Empty, Empty, Empty,
    ];
    let board = create_board_from_cells(max_win);
    let unbeatable = Unbeatable::new(Cross);
    assert_eq!(14, unbeatable.score(4, &board));
}

#[test]
fn it_returns_score_for_min_win() {
    let max_win = vec![
        Cross, Empty, Cross, Nought, Nought, Nought, Cross, Empty, Empty,
    ];
    let board = create_board_from_cells(max_win);
    let unbeatable = Unbeatable::new(Cross);
    assert_eq!(-13, unbeatable.score(3, &board));
}

#[test]
fn it_returns_base_score_move_when_draw() {
    let board = create_tied_board(3);
    let unbeatable = Unbeatable::new(Cross);
    assert_eq!(
        (0, 10),
        unbeatable.get_best_option(0, MIN, MAX, &board, true)
    );
}

#[test]
fn it_returns_score_move_for_game_over() {
    let win = vec![
        Cross, Empty, Nought, Empty, Cross, Nought, Empty, Empty, Cross,
    ];
    let board = create_board_from_cells(win);
    let unbeatable = Unbeatable::new(Nought);
    assert_eq!(
        (-14, 10),
        unbeatable.get_best_option(4, MIN, MAX, &board, true)
    );
}

#[test]
fn it_picks_last_remaining_spot() {
    let one_spot = vec![
        Cross, Nought, Cross, Cross, Nought, Cross, Nought, Empty, Nought,
    ];
    let board = create_board_from_cells(one_spot);
    let unbeatable = Unbeatable::new(Nought);
    assert_eq!(
        (0, 7),
        unbeatable.get_best_option(1, MIN, MAX, &board, false)
    );
}

#[test]
fn it_picks_corner_if_open() {
    let board = Board::new(3);
    let unbeatable = Unbeatable::new(Nought);
    assert_eq!(
        (0, 0),
        unbeatable.get_best_option(1, MIN, MAX, &board, true)
    );
}

#[test]
fn it_blocks_min_player_win() {
    let block = vec![
        Nought, Cross, Empty, Empty, Cross, Empty, Empty, Empty, Empty,
    ];
    let board = create_board_from_cells(block);
    let unbeatable = Unbeatable::new(Nought);
    assert_eq!(
        (0, 7),
        unbeatable.get_best_option(6, MIN, MAX, &board, true)
    );
}

#[test]
fn it_takes_an_immediate_win() {
    let two_in_a_row = vec![
        Cross, Cross, Empty, Nought, Nought, Empty, Empty, Empty, Empty,
    ];
    let board = create_board_from_cells(two_in_a_row);
    let unbeatable = Unbeatable::new(Cross);
    assert_eq!(2, unbeatable.decide(&board));
}

#[test]
fn it_opens_in_a_corner() {
    let board = Board::new(3);
    let unbeatable = Unbeatable::new(Cross);
    let opening = unbeatable.decide(&board);
    assert!(vec![0, 2, 6, 8].contains(&opening));
}

#[test]
fn it_blocks_the_lone_winning_reply() {
    let block = vec![
        Nought, Cross, Empty, Empty, Cross, Empty, Empty, Empty, Empty,
    ];
    let board = create_board_from_cells(block);
    let unbeatable = Unbeatable::new(Nought);
    assert_eq!(7, unbeatable.decide(&board));
}
