use ttt_lib::board::Board;
use ttt_lib::game::{Game, GameState};
use ttt_lib::player::computer::Computer;
use ttt_lib::player::human::Human;
use ttt_lib::player::lazy::Lazy;
use ttt_lib::player::unbeatable::Unbeatable;
use ttt_lib::player::Player;
use ttt_lib::rules;
use ttt_lib::token::Token::{Cross, Empty, Nought};
use ttt_lib::ui::input::Input;

struct MockInput {
    input: Vec<&'static str>,
    called: usize,
}

impl MockInput {
    fn new(input: Vec<&'static str>) -> MockInput {
        MockInput { input, called: 0 }
    }
}

impl Input for MockInput {
    fn read_line(&mut self) -> String {
        let index = self.called;
        self.called += 1;
        String::from(self.input[index])
    }
}

fn create_patterned_board(size: usize, indices: Vec<usize>) -> Board {
    let mut board = Board::new(size);
    for i in indices.iter() {
        let token = match i {
            i if *i % 2 == 0 => Cross,
            _ => Nought,
        };
        board = board.update(*i, token);
    }
    board
}

fn setup_computer_vs_computer(board: Board) -> Game<Computer<Lazy>, Computer<Lazy>> {
    let player_one = Computer::new(Cross, Lazy::default());
    let player_two = Computer::new(Nought, Lazy::default());
    Game::new(board, player_one, player_two)
}

fn setup_human_vs_computer() -> Game<Human<MockInput>, Computer<Lazy>> {
    let board = Board::new(3);
    let mock_input = MockInput::new(vec!["1"]);
    let player_one = Human::new(Cross, mock_input);
    let player_two = Computer::new(Nought, Lazy::default());
    Game::new(board, player_one, player_two)
}

#[test]
fn it_creates_new_game() {
    let game = setup_human_vs_computer();
    assert_eq!(Board::new(3), game.board);
    assert_eq!(Cross, *game.player_one.get_token());
    assert_eq!(Nought, *game.player_two.get_token());
    assert_eq!(GameState::InProgress, game.state);
}

#[test]
fn it_gets_game_board() {
    let game = setup_human_vs_computer();
    assert_eq!(&Board::new(3), game.get_board());
}

#[test]
fn it_gets_game_state() {
    let game = setup_human_vs_computer();
    assert_eq!(&GameState::InProgress, game.get_state());
}

#[test]
fn it_gets_game_winner() {
    let board = create_patterned_board(3, (0..9).collect());
    let game = setup_computer_vs_computer(board);

    assert_eq!(Cross, game.get_winner());
}

#[test]
fn it_progresses_game() {
    let mut game = setup_computer_vs_computer(Board::new(3));
    let number_turns = 9;

    assert_eq!(GameState::InProgress, game.state);

    for i in 0..number_turns {
        assert_eq!(number_turns - i, game.board.empty_cells().len());
        game.next_turn();
    }

    assert_eq!(GameState::Over, game.state);
}

#[test]
fn it_ends_in_a_draw_when_unbeatable_plays_itself() {
    let board = Board::new(3);
    let player_one = Computer::new(Cross, Unbeatable::new(Cross));
    let player_two = Computer::new(Nought, Unbeatable::new(Nought));
    let mut game = Game::new(board, player_one, player_two);

    while *game.get_state() == GameState::InProgress {
        game.next_turn();
    }

    assert!(rules::is_draw(game.get_board()));
    assert_eq!(Empty, game.get_winner());
    assert!(game.get_board().empty_cells().is_empty());
}
