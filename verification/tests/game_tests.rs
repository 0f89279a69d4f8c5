use theseus::BoardError;
use theseus::Command;
use theseus::Game;
use theseus::GameStatus;
use theseus::Grid;
use theseus::decode;

fn parse_err(board: &str) -> BoardError {
    match Game::from_board(board) {
        Err(e) => e,
        Ok(_) => panic!("expected an error for board {:?}", board),
    }
}

fn parse_ok(board: &str) -> Game {
    match Game::from_board(board) {
        Ok(g) => g,
        Err(e) => panic!("expected a game for board {:?}, got {:?}", board, e),
    }
}

// --- parsing ---

#[test]
fn parse_valid_board() {
    let g = parse_ok("XXXXX\nXT  X\nX X X\nX  MX\nX  GX\nXXXXX");
    assert_eq!(g.width(), 5);
    assert_eq!(g.height(), 6);
    assert!(g.is_theseus(1, 1));
    assert!(g.is_minotaur(3, 3));
    assert!(g.is_goal(4, 3));
    assert!(g.is_wall(0, 0));
    assert!(g.is_wall(2, 2));
    assert_eq!(g.status(), GameStatus::Continue);
}

#[test]
fn parse_empty_text_is_invalid_size() {
    assert_eq!(parse_err(""), BoardError::InvalidSize);
}

#[test]
fn parse_empty_first_line_is_invalid_size() {
    assert_eq!(parse_err("\nTMG"), BoardError::InvalidSize);
}

#[test]
fn parse_short_row_is_invalid_size() {
    assert_eq!(parse_err("TMG\nXX"), BoardError::InvalidSize);
}

#[test]
fn parse_long_row_is_invalid_size() {
    assert_eq!(parse_err("TMG\nXXXX"), BoardError::InvalidSize);
}

#[test]
fn parse_invalid_character() {
    assert_eq!(parse_err("TMGz"), BoardError::InvalidCharacter('z'));
}

#[test]
fn parse_row_mismatch_beats_earlier_invalid_character() {
    // every width check precedes the character scan, so the short row 1
    // wins over the invalid character in row 0
    assert_eq!(parse_err("Tz\nX"), BoardError::InvalidSize);
}

#[test]
fn parse_invalid_character_when_widths_match() {
    assert_eq!(parse_err("Tz\nXX"), BoardError::InvalidCharacter('z'));
}

#[test]
fn parse_two_goals_is_multiple_goal() {
    assert_eq!(parse_err("TMGG"), BoardError::MultipleGoal);
}

#[test]
fn parse_second_goal_reported_before_later_errors() {
    // the duplicate goal comes before the invalid character and the missing
    // markers, so it is the error reported
    assert_eq!(parse_err("GGz"), BoardError::MultipleGoal);
}

#[test]
fn parse_two_theseus_is_multiple_theseus() {
    assert_eq!(parse_err("TTMG"), BoardError::MultipleTheseus);
}

#[test]
fn parse_two_minotaurs_is_multiple_minotaur() {
    assert_eq!(parse_err("TMMG"), BoardError::MultipleMinotaur);
}

#[test]
fn parse_missing_theseus() {
    assert_eq!(parse_err("MG"), BoardError::NoTheseus);
}

#[test]
fn parse_missing_minotaur() {
    assert_eq!(parse_err("TG"), BoardError::NoMinotaur);
}

#[test]
fn parse_missing_goal() {
    assert_eq!(parse_err("TM"), BoardError::NoGoal);
}

#[test]
fn parse_missing_theseus_reported_before_missing_goal() {
    assert_eq!(parse_err("M"), BoardError::NoTheseus);
}

#[test]
fn parse_crlf_line_endings() {
    let g = parse_ok("TMG\r\nXXX");
    assert_eq!(g.width(), 3);
    assert_eq!(g.height(), 2);
    assert!(g.is_theseus(0, 0));
    assert!(g.is_minotaur(0, 1));
    assert!(g.is_goal(0, 2));
}

#[test]
fn parse_trailing_newline_adds_no_row() {
    let g = parse_ok("TMG\n");
    assert_eq!(g.height(), 1);
}

#[test]
fn parse_markers_sit_on_floor() {
    // beneath Theseus and the Minotaur the grid stores plain floor
    let g = parse_ok("TM\n G");
    assert!(!g.is_wall(0, 0));
    assert!(!g.is_goal(0, 0));
    assert!(!g.is_wall(0, 1));
    assert!(!g.is_goal(0, 1));
}

// --- the grid ---

#[test]
fn grid_get_in_and_out_of_bounds() {
    let cells = vec!['X', ' ', 'G', ' ', 'X', ' '];
    let g = Grid::new(3, 2, cells);
    assert_eq!(g.get(0, 0), Some('X'));
    assert_eq!(g.get(0, 2), Some('G'));
    assert_eq!(g.get(1, 1), Some('X'));
    assert_eq!(g.get(2, 0), None);
    assert_eq!(g.get(0, 3), None);
    assert_eq!(g.get(usize::MAX, usize::MAX), None);
}

#[test]
fn grid_tile_queries() {
    let cells = vec!['X', ' ', 'G', ' ', 'X', ' '];
    let g = Grid::new(3, 2, cells);
    assert!(g.is_wall(0, 0));
    assert!(!g.is_wall(0, 1));
    assert!(g.is_goal(0, 2));
    assert!(!g.is_goal(1, 2));
    assert!(g.is_empty(0, 1));
    assert!(!g.is_empty(0, 0));
    assert!(!g.is_wall(5, 5));
    assert!(!g.is_goal(5, 5));
    assert!(!g.is_empty(5, 5));
}

// --- Theseus moves ---

#[test]
fn move_blocked_by_walls_in_all_directions() {
    let mut g = parse_ok("XXXXX\nXTXGX\nXXMXX");
    for cmd in [Command::Up, Command::Down, Command::Left, Command::Right] {
        g.theseus_move(cmd);
        assert!(g.is_theseus(1, 1));
    }
}

#[test]
fn move_blocked_at_top_left_edges() {
    let mut g = parse_ok("TMG");
    g.theseus_move(Command::Up);
    assert!(g.is_theseus(0, 0));
    g.theseus_move(Command::Left);
    assert!(g.is_theseus(0, 0));
    g.theseus_move(Command::Down);
    assert!(g.is_theseus(0, 0));
}

#[test]
fn move_blocked_at_bottom_right_edges() {
    let mut g = parse_ok("GMT");
    g.theseus_move(Command::Right);
    assert!(g.is_theseus(0, 2));
    g.theseus_move(Command::Down);
    assert!(g.is_theseus(0, 2));
    g.theseus_move(Command::Up);
    assert!(g.is_theseus(0, 2));
}

#[test]
fn move_onto_open_tile() {
    let mut g = parse_ok("T M\n  G");
    g.theseus_move(Command::Right);
    assert!(g.is_theseus(0, 1));
    g.theseus_move(Command::Down);
    assert!(g.is_theseus(1, 1));
    g.theseus_move(Command::Left);
    assert!(g.is_theseus(1, 0));
    g.theseus_move(Command::Up);
    assert!(g.is_theseus(0, 0));
}

#[test]
fn skip_never_moves() {
    let mut g = parse_ok("T M\n  G");
    g.theseus_move(Command::Skip);
    assert!(g.is_theseus(0, 0));
    g.theseus_move(Command::Right);
    g.theseus_move(Command::Skip);
    assert!(g.is_theseus(0, 1));
}

// --- the Minotaur ---

#[test]
fn minotaur_prefers_horizontal_when_diagonal() {
    let mut g = parse_ok("T  \n G \n  M");
    g.minotaur_move();
    assert!(g.is_minotaur(2, 1));
}

#[test]
fn minotaur_falls_back_to_vertical_when_horizontal_blocked() {
    let mut g = parse_ok("T  \nG  \n XM");
    g.minotaur_move();
    assert!(g.is_minotaur(1, 2));
}

#[test]
fn minotaur_stays_when_both_steps_blocked() {
    let mut g = parse_ok("T G\n XX\n XM");
    g.minotaur_move();
    assert!(g.is_minotaur(2, 2));
}

#[test]
fn minotaur_steps_vertically_when_columns_equal() {
    let mut g = parse_ok("T G\n   \nM  ");
    g.minotaur_move();
    assert!(g.is_minotaur(1, 0));
}

#[test]
fn minotaur_moves_onto_theseus_then_stays() {
    let mut g = parse_ok("TM G");
    g.minotaur_move();
    assert!(g.is_minotaur(0, 0));
    g.minotaur_move();
    assert!(g.is_minotaur(0, 0));
}

// --- status ---

#[test]
fn status_lose_beats_win_on_shared_tile() {
    let mut g = parse_ok("TGM");
    g.theseus_move(Command::Right);
    g.minotaur_move();
    assert!(g.is_theseus(0, 1));
    assert!(g.is_minotaur(0, 1));
    assert!(g.is_goal(0, 1));
    assert_eq!(g.status(), GameStatus::Lose);
}

#[test]
fn status_win_on_goal() {
    let mut g = parse_ok("TG M");
    g.theseus_move(Command::Right);
    assert_eq!(g.status(), GameStatus::Win);
}

#[test]
fn status_lose_when_intercepted() {
    let mut g = parse_ok("TM G");
    g.minotaur_move();
    assert_eq!(g.status(), GameStatus::Lose);
}

// --- derived queries ---

#[test]
fn empty_is_derived_from_the_other_four() {
    let g = parse_ok("XXXXX\nXT  X\nX X X\nX  MX\nX  GX\nXXXXX");
    assert!(!g.is_empty(1, 1));  // Theseus
    assert!(!g.is_empty(3, 3));  // Minotaur
    assert!(!g.is_empty(0, 0));  // wall
    assert!(!g.is_empty(4, 3));  // goal
    assert!(g.is_empty(1, 2));
    assert!(g.is_empty(4, 1));
}

// --- the command decoder ---

#[test]
fn decode_up_variants() {
    assert_eq!(decode("w"), Some(Command::Up));
    assert_eq!(decode("W"), Some(Command::Up));
    assert_eq!(decode("up"), Some(Command::Up));
    assert_eq!(decode(" UP "), Some(Command::Up));
}

#[test]
fn decode_down_left_right() {
    assert_eq!(decode("s"), Some(Command::Down));
    assert_eq!(decode("DOWN"), Some(Command::Down));
    assert_eq!(decode("a"), Some(Command::Left));
    assert_eq!(decode("Left"), Some(Command::Left));
    assert_eq!(decode("d"), Some(Command::Right));
    assert_eq!(decode("right\n"), Some(Command::Right));
}

#[test]
fn decode_skip_variants() {
    assert_eq!(decode(""), Some(Command::Skip));
    assert_eq!(decode("   "), Some(Command::Skip));
    assert_eq!(decode("wait"), Some(Command::Skip));
    assert_eq!(decode("skip"), Some(Command::Skip));
    assert_eq!(decode("."), Some(Command::Skip));
}

#[test]
fn decode_kelvin_sign_lowercases_to_k() {
    assert_eq!(decode("S\u{212A}IP"), Some(Command::Skip));
}

#[test]
fn decode_quit_and_unrecognized_are_no_command() {
    assert_eq!(decode("q"), None);
    assert_eq!(decode("quit"), None);
    assert_eq!(decode("exit"), None);
    assert_eq!(decode("xyzzy"), None);
    assert_eq!(decode("ww"), None);
}

// --- end to end ---

#[test]
fn scenario_three_downs() {
    let mut g = parse_ok("XXXXX\nXT  X\nX X X\nX  MX\nX  GX\nXXXXX");
    assert!(g.is_theseus(1, 1));
    assert!(g.is_minotaur(3, 3));
    assert!(g.is_goal(4, 3));
    // the wall at (2,2) does not block column 1
    g.theseus_move(Command::Down);
    assert!(g.is_theseus(2, 1));
    g.theseus_move(Command::Down);
    assert!(g.is_theseus(3, 1));
    g.theseus_move(Command::Down);
    assert!(g.is_theseus(4, 1));
    assert_eq!(g.status(), GameStatus::Continue);
}

#[test]
fn scenario_full_turns_until_interception() {
    let mut g = parse_ok("XXXXX\nXT  X\nX X X\nX  MX\nX  GX\nXXXXX");
    // turn 1: Theseus steps down, the Minotaur closes in horizontally
    g.theseus_move(Command::Down);
    g.minotaur_move();
    assert!(g.is_theseus(2, 1));
    assert!(g.is_minotaur(3, 2));
    assert_eq!(g.status(), GameStatus::Continue);
    // turn 2: the Minotaur reaches Theseus's tile
    g.theseus_move(Command::Down);
    g.minotaur_move();
    assert!(g.is_theseus(3, 1));
    assert!(g.is_minotaur(3, 1));
    assert_eq!(g.status(), GameStatus::Lose);
}
