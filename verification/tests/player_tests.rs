use ttt_lib::board::Board;
use ttt_lib::player::computer::Computer;
use ttt_lib::player::human::{parse_selection, Human};
use ttt_lib::player::lazy::Lazy;
use ttt_lib::player::strategy::Strategy;
use ttt_lib::player::Player;
use ttt_lib::script::Script;
use ttt_lib::setup::parse_mode_selection;
use ttt_lib::token::Token::{Cross, Nought};
use ttt_lib::ui::input::Input;

struct MockInput {
    input: Vec<&'static str>,
    called: usize,
}

impl MockInput {
    fn new(input: Vec<&'static str>) -> MockInput {
        MockInput { input, called: 0 }
    }
}

impl Input for MockInput {
    fn read_line(&mut self) -> String {
        let index = self.called;
        self.called += 1;
        String::from(self.input[index])
    }
}

fn create_patterned_board(size: usize, indices: Vec<usize>) -> Board {
    let mut board = Board::new(size);
    for i in indices.iter() {
        let token = match i {
            i if *i % 2 == 0 => Cross,
            _ => Nought,
        };
        board = board.update(*i, token);
    }
    board
}

#[test]
fn computer_it_creates_new_player() {
    let player = Computer::new(Cross, Lazy::default());
    assert_eq!(Cross, player.token);
    assert_eq!(Lazy::default(), player.strategy);
}

#[test]
fn computer_it_gets_player_token() {
    let player = Computer::new(Cross, Lazy::default());
    assert_eq!(&Cross, player.get_token());
}

#[test]
fn computer_it_gets_player_move() {
    let mut player = Computer::new(Cross, Lazy::default());
    let fill_spots = vec![0, 1, 3, 4];
    let empty_spots = vec![2, 5, 6, 7, 8];
    let board = create_patterned_board(3, fill_spots);
    let selection = player.get_move(&board).unwrap();

    assert!(empty_spots.contains(&selection));
}

#[test]
fn human_it_creates_new_player() {
    let mock_input = MockInput::new(vec!["1"]);
    let player = Human::new(Cross, mock_input);
    assert_eq!(Cross, player.token);
}

#[test]
fn human_it_gets_player_token() {
    let mock_input = MockInput::new(vec!["1"]);
    let player = Human::new(Cross, mock_input);
    assert_eq!(&Cross, player.get_token());
}

#[test]
fn human_it_gets_player_move() {
    let mock_input = MockInput::new(vec!["1"]);
    let mut player = Human::new(Cross, mock_input);
    let board = Board::new(3);
    let selection = player.get_move(&board);

    assert_eq!(Ok(0), selection);
}

#[test]
fn it_returns_error_for_nonnumeric_input() {
    let mock_input = MockInput::new(vec!["y"]);
    let mut player = Human::new(Cross, mock_input);
    let board = Board::new(3);
    let selection = player.get_move(&board);
    let expected = Err(String::from(Script::InvalidSelection.to_str()));

    assert_eq!(expected, selection);
}

#[test]
fn it_returns_error_for_above_range_input() {
    let mock_input = MockInput::new(vec!["10"]);
    let mut player = Human::new(Cross, mock_input);
    let board = Board::new(3);
    let selection = player.get_move(&board);
    let expected = Err(String::from(Script::InvalidSelection.to_str()));

    assert_eq!(expected, selection);
}

#[test]
fn it_returns_error_for_below_range_input() {
    let mock_input = MockInput::new(vec!["0"]);
    let mut player = Human::new(Cross, mock_input);
    let board = Board::new(3);
    let selection = player.get_move(&board);
    let expected = Err(String::from(Script::InvalidSelection.to_str()));

    assert_eq!(expected, selection);
}

#[test]
fn it_picks_random_empty_cell() {
    let strategy = Lazy::default();
    let fill_spots = vec![0, 1, 3, 4];
    let empty_spots = vec![2, 5, 6, 7, 8];
    let board = create_patterned_board(3, fill_spots);
    let selection = strategy.decide(&board);

    assert!(empty_spots.contains(&selection));
}

#[test]
fn it_parses_selections_exactly() {
    assert_eq!(Ok(4), parse_selection("5", 9));
    assert_eq!(Ok(4), parse_selection(" 5\n", 9));
    assert_eq!(Ok(4), parse_selection("+5", 9));
    assert_eq!(Ok(8), parse_selection("9", 9));
    let invalid = String::from(Script::InvalidSelection.to_str());
    assert_eq!(Err(invalid.clone()), parse_selection("", 9));
    assert_eq!(Err(invalid.clone()), parse_selection("+", 9));
    assert_eq!(Err(invalid.clone()), parse_selection("5x", 9));
    assert_eq!(Err(invalid.clone()), parse_selection("99999999999999999999999999", 9));
    assert_eq!(Err(invalid), parse_selection("10", 9));
}

#[test]
fn it_parses_mode_selections() {
    assert_eq!(Some(1), parse_mode_selection("1"));
    assert_eq!(Some(4), parse_mode_selection(" 4\n"));
    assert_eq!(None, parse_mode_selection("n"));
    assert_eq!(None, parse_mode_selection("5"));
    assert_eq!(None, parse_mode_selection("0"));
    assert_eq!(None, parse_mode_selection("-1"));
    assert_eq!(None, parse_mode_selection(""));
    assert_eq!(None, parse_mode_selection(" "));
}
