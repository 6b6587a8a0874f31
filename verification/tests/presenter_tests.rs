use ttt_lib::board::Board;
use ttt_lib::presenter;
use ttt_lib::script::Script::{InvalidSelection, PickSpot};
use ttt_lib::token::Token::{Cross, Empty, Nought};
use ttt_lib::ui::color::Color;
use ttt_lib::ui::presenter as ui_presenter;

fn create_board_filling_cells(size: usize, indices: Vec<usize>) -> Board {
    let mut board = Board::new(size);
    for i in indices.iter() {
        let token = match i {
            i if *i % 2 == 0 => Cross,
            _ => Nought,
        };
        board = board.update(*i, token);
    }
    board
}

#[test]
fn it_formats_size_3_board_to_string_view() {
    let divider = "\n---+---+---\n";
    let expected = vec![
        " 1 | 2 | 3 ",
        divider,
        " 4 | 5 | O ",
        divider,
        " X | 8 | 9 \n",
    ]
    .join("");
    let board = create_board_filling_cells(3, vec![5, 6]);

    assert_eq!(expected, ui_presenter::view(&board, &Color::Normal));
}

#[test]
fn it_formats_size_4_board_to_string_view() {
    let divider = "\n---+---+---+---\n";
    let expected = vec![
        " 1 | 2 | 3 | 4 ",
        divider,
        " 5 | O | 7 | 8 ",
        divider,
        " X | 10 | 11 | 12 ",
        divider,
        " 13 | 14 | 15 | 16 \n",
    ]
    .join("");
    let board = create_board_filling_cells(4, vec![5, 8]);

    assert_eq!(expected, ui_presenter::view(&board, &Color::Normal));
}

#[test]
fn presenter_it_formats_size_3_board_to_string_view() {
    let divider = "\n---+---+---\n";
    let expected = vec![
        "   |   |   ",
        divider,
        "   |   | X ",
        divider,
        " O |   |   \n",
    ]
    .join("");
    let mut board = Board::new(3);
    board = board.update(5, Cross);
    board = board.update(6, Nought);

    assert_eq!(expected, presenter::view(&board));
}

#[test]
fn presenter_it_formats_size_4_board_to_string_view() {
    let divider = "\n---+---+---+---\n";
    let expected = vec![
        "   |   |   |   ",
        divider,
        "   | X |   |   ",
        divider,
        " O |   |   |   ",
        divider,
        "   |   |   |   \n",
    ]
    .join("");
    let mut board = Board::new(4);
    board = board.update(5, Cross);
    board = board.update(8, Nought);

    assert_eq!(expected, presenter::view(&board));
}

#[test]
fn it_returns_correct_messages() {
    let pick_spot = "Pick an open spot between 1-";
    let invalid_selection = "Invalid selection.";
    assert_eq!(pick_spot, PickSpot.to_str());
    assert_eq!(invalid_selection, InvalidSelection.to_str());
}

#[test]
fn it_gets_string_for_token() {
    assert_eq!(" ", Empty.to_str());
    assert_eq!("X", Cross.to_str());
    assert_eq!("O", Nought.to_str());
}

#[test]
fn it_returns_dimmed_string() {
    assert_eq!("\x1B[2mStuff\x1b[0m", Color::Dim.fill("Stuff"));
}

#[test]
fn it_returns_normal_string() {
    assert_eq!("Stuff", Color::Normal.fill("Stuff"));
}
