use minesweeper::cell::Cell;
use minesweeper::game::{Game, Key, Outcome};
use minesweeper::menu::{set_difficulty, Menu, MenuAction, Screen};
use minesweeper::render::{custom_menu_text, debug_dump, main_menu_text, render_table};

fn shown(game: &Game) -> Vec<Vec<String>> {
    game.table.clone()
}

#[test]
fn set_difficulty_stays_between_easy_and_hard() {
    let mut d: i8 = 1;
    set_difficulty(&mut d, -1);
    assert_eq!(d, 0);
    set_difficulty(&mut d, -1);
    assert_eq!(d, 0);
    set_difficulty(&mut d, 1);
    set_difficulty(&mut d, 1);
    assert_eq!(d, 2);
    set_difficulty(&mut d, 1);
    assert_eq!(d, 2);
    set_difficulty(&mut d, 0);
    assert_eq!(d, 2);
}

#[test]
fn new_game_is_closed_and_mine_free() {
    let game = Game::new([3, 4], 2, false);
    assert_eq!(game.ref_table, vec![vec![Cell::Empty; 4]; 3]);
    assert_eq!(shown(&game), vec![vec!["*".to_string(); 4]; 3]);
    assert_eq!(game.coor, [0, 0]);
    assert!(game.first_click);
    assert_eq!(game.unopened_count, 0);
}

#[test]
fn cursor_moves_within_its_limits() {
    let mut game = Game::new([2, 2], 1, true);
    assert_eq!(game.step(Key::Up), (Outcome::Continue, false));
    assert_eq!(game.step(Key::Left), (Outcome::Continue, false));
    assert_eq!(game.coor, [0, 0]);
    for _ in 0..5 {
        game.step(Key::Down);
        game.step(Key::Right);
    }
    // the cursor may stand one past the last row and column
    assert_eq!(game.coor, [2, 2]);
    assert!(!game.cursor_on_board());
    game.step(Key::Up);
    game.step(Key::Left);
    assert_eq!(game.coor, [1, 1]);
    assert!(game.cursor_on_board());
}

#[test]
fn flag_toggles_and_twice_restores() {
    let mut game = Game::new([2, 2], 1, true);
    game.step(Key::Char('f'));
    assert_eq!(game.table[0][0], "P");
    game.step(Key::Char('f'));
    assert_eq!(game.table[0][0], "*");
    assert_eq!(shown(&game), vec![vec!["*".to_string(); 2]; 2]);
}

#[test]
fn flag_leaves_opened_cells() {
    let mut game = Game::new([1, 3], 0, true);
    game.step(Key::Enter);
    let before = shown(&game);
    game.step(Key::Char('f'));
    assert_eq!(shown(&game), before);
}

#[test]
fn quit_and_other_keys_change_nothing() {
    let mut game = Game::new([2, 2], 1, true);
    assert_eq!(game.step(Key::Char('q')), (Outcome::Quit, false));
    assert_eq!(game.step(Key::Char('x')), (Outcome::Continue, false));
    assert_eq!(game.step(Key::Other), (Outcome::Continue, false));
    assert!(game.first_click);
    assert_eq!(shown(&game), vec![vec!["*".to_string(); 2]; 2]);
}

#[test]
fn first_opening_never_loses() {
    for _ in 0..30 {
        let mut game = Game::new([3, 3], 8, true);
        game.step(Key::Down);
        game.step(Key::Right);
        let (outcome, placed) = game.step(Key::Enter);
        assert!(placed);
        assert_ne!(outcome, Outcome::Lost);
        assert!(!game.first_click);
        // every other cell holds a mine, so the opened cell shows 8
        assert_eq!(game.table[1][1], "8");
        assert_eq!(outcome, Outcome::Won);
    }
}

#[test]
fn first_opening_out_of_custom_mode_spreads() {
    for _ in 0..10 {
        let mut game = Game::new([9, 9], 10, false);
        for _ in 0..4 {
            game.step(Key::Down);
            game.step(Key::Right);
        }
        let (outcome, placed) = game.step(Key::Enter);
        assert!(placed);
        assert_ne!(outcome, Outcome::Lost);
        assert_eq!(game.table[4][4], "_");
        assert_eq!(game.ref_table[4][4], Cell::EmptyAndChecked);
        let mines = game.ref_table.iter().flatten().filter(|c| **c == Cell::HasMine).count();
        assert_eq!(mines, 10);
    }
}

#[test]
fn win_when_only_mines_stay_closed() {
    let mut game = Game::new([2, 2], 3, true);
    let (outcome, placed) = game.step(Key::Enter);
    assert!(placed);
    assert_eq!(outcome, Outcome::Won);
    assert_eq!(game.table[0][0], "3");
    assert_eq!(game.unopened_count, 3);
}

#[test]
fn opening_a_mine_loses_and_leaves_the_board_shown() {
    let mut game = Game::new([2, 2], 3, true);
    game.step(Key::Enter);
    game.step(Key::Right);
    let before = shown(&game);
    let (outcome, placed) = game.step(Key::Enter);
    assert_eq!((outcome, placed), (Outcome::Lost, false));
    assert_eq!(shown(&game), before);
    assert_eq!(game.unopened_count, 3);
}

#[test]
fn later_openings_do_not_lay_mines() {
    let mut game = Game::new([1, 5], 1, true);
    game.step(Key::Enter);
    let mines: Vec<Vec<bool>> =
        game.ref_table.iter().map(|r| r.iter().map(|c| *c == Cell::HasMine).collect()).collect();
    game.step(Key::Right);
    let (_, placed) = game.step(Key::Enter);
    assert!(!placed);
    let after: Vec<Vec<bool>> =
        game.ref_table.iter().map(|r| r.iter().map(|c| *c == Cell::HasMine).collect()).collect();
    assert_eq!(mines, after);
}

#[test]
fn can_place_mines_compares_with_free_cells() {
    let game = Game::new([2, 2], 3, true);
    assert!(game.can_place_mines());
    let game = Game::new([2, 2], 4, true);
    assert!(!game.can_place_mines());
    let game = Game::new([9, 9], 10, false);
    // from the corner: rows 3..9 and columns 3..9 are far enough
    assert!(game.can_place_mines());
    let game = Game::new([9, 9], 37, false);
    assert!(!game.can_place_mines());
}

#[test]
fn render_new_board() {
    let game = Game::new([2, 2], 1, true);
    let expected = "\r^_^| 00 01\n---+------\n00 | [*] * \n01 |  *  * \n--------------------------------\n[00:00] | Unopened / Flagged: 00\n";
    assert_eq!(render_table(&game, false), expected);
}

#[test]
fn render_revealed_board() {
    let mut game = Game::new([2, 2], 3, true);
    game.step(Key::Enter);
    let expected = "\r^_^| 00 01\n---+------\n00 |  _  Q \n01 |  Q  Q \n--------------------------------\n[00:00] | Unopened / Flagged: 03\n";
    assert_eq!(render_table(&game, true), expected);
}

#[test]
fn render_wide_board_numbers() {
    let mut game = Game::new([1, 12], 0, true);
    game.step(Key::Down);
    let text = render_table(&game, false);
    assert!(text.starts_with("\r^_^| 00 01 02 03 04 05 06 07 08 09 10 11\n---+------------------------------------\n"));
    assert!(text.ends_with("[01:00] | Unopened / Flagged: 00\n"));
}

#[test]
fn debug_dump_lists_mines() {
    let mut game = Game::new([2, 2], 3, true);
    assert_eq!(debug_dump(&game), "[['_','_',],\n['_','_',],\n]");
    game.step(Key::Enter);
    assert_eq!(debug_dump(&game), "[['_','Q',],\n['Q','Q',],\n]");
}

#[test]
fn main_menu_marks_the_difficulty() {
    let text = main_menu_text(0);
    assert!(text.starts_with(" OO============================OO\n || **** MINESWEEPER v0.2 **** ||\n"));
    assert!(text.contains(" ||         [EASY(9x9)]        ||\n ||        MEDIUM(16x16)       ||\n"));
    assert!(text.contains("#MINES: 10"));
    assert!(main_menu_text(1).contains("[MEDIUM(16x16)]"));
    assert!(main_menu_text(2).contains("[HARD(25x25)]"));
    assert!(main_menu_text(2).contains("#MINES:100"));
    assert!(text.ends_with(" || [Q] Quit game              ||\n OO============================OO\n"));
}

#[test]
fn custom_menu_shows_values() {
    let mut menu = Menu::new();
    menu.step(Key::Char('c'));
    let text = custom_menu_text(&menu);
    assert!(text.contains(" ||># OF ROW(S) (2 to 50): 16  ||\n || # OF COL(S) (2 to 50): 16  ||\n || # OF MINE(S)(1 to ROW*COL):||\n"));
    assert!(text.contains(" ||(DEFAULT: 0.2 * #CELLS) 0040||\n"));
    menu.step(Key::Right);
    menu.step(Key::Right);
    let text = custom_menu_text(&menu);
    assert!(text.contains(" || # OF ROW(S) (2 to 50): 16  ||\n || # OF COL(S) (2 to 50): 16  ||\n ||># OF MINE(S)(1 to ROW*COL):||\n"));
}

#[test]
fn menu_main_keys() {
    let mut menu = Menu::new();
    assert_eq!(menu.step(Key::Up), MenuAction::ShowMain);
    assert_eq!(menu.selected_difficulty, 0);
    assert_eq!(menu.step(Key::Up), MenuAction::ShowMain);
    assert_eq!(menu.selected_difficulty, 0);
    assert_eq!(menu.step(Key::Down), MenuAction::ShowMain);
    assert_eq!(menu.step(Key::Down), MenuAction::ShowMain);
    assert_eq!(menu.step(Key::Down), MenuAction::ShowMain);
    assert_eq!(menu.selected_difficulty, 2);
    assert_eq!(menu.step(Key::Char('x')), MenuAction::Stay);
    assert_eq!(menu.step(Key::Char('q')), MenuAction::Quit);
    assert_eq!(menu.step(Key::Enter), MenuAction::Start);
    assert_eq!(menu.game_settings(), ([25, 25], 100, false));
}

#[test]
fn menu_difficulty_settings() {
    let mut menu = Menu::new();
    assert_eq!(menu.game_settings(), ([16, 16], 50, false));
    menu.step(Key::Up);
    assert_eq!(menu.game_settings(), ([9, 9], 10, false));
}

#[test]
fn custom_mode_limits() {
    let mut menu = Menu::new();
    assert_eq!(menu.step(Key::Char('c')), MenuAction::ShowCustom);
    assert_eq!(menu.screen, Screen::Custom);
    for _ in 0..40 {
        menu.step(Key::Up);
    }
    assert_eq!(menu.table_size, [50, 16]);
    menu.step(Key::Right);
    for _ in 0..60 {
        menu.step(Key::Down);
    }
    assert_eq!(menu.table_size, [50, 2]);
    menu.step(Key::Right);
    menu.step(Key::Right);
    assert_eq!(menu.choice, 2);
    for _ in 0..200 {
        menu.step(Key::Up);
    }
    // mines stop at rows times columns
    assert_eq!(menu.mines_count, 100);
    for _ in 0..200 {
        menu.step(Key::Down);
    }
    assert_eq!(menu.mines_count, 1);
    menu.step(Key::Left);
    menu.step(Key::Left);
    menu.step(Key::Left);
    assert_eq!(menu.choice, 0);
    assert_eq!(menu.step(Key::Char('z')), MenuAction::ShowCustom);
}

#[test]
fn custom_start_with_too_many_mines() {
    let mut menu = Menu::new();
    menu.step(Key::Char('c'));
    menu.step(Key::Right);
    menu.step(Key::Right);
    for _ in 0..300 {
        menu.step(Key::Up);
    }
    assert_eq!(menu.mines_count, 256);
    menu.step(Key::Left);
    menu.step(Key::Left);
    menu.step(Key::Down);
    // 15 x 16 = 240 cells, fewer than the 256 mines
    assert_eq!(menu.step(Key::Enter), MenuAction::Start);
    assert_eq!(menu.selected_difficulty, 3);
    assert!(menu.custom_mode_enabled);
    assert_eq!(menu.mines_count, 48);
    assert_eq!(menu.game_settings(), ([15, 16], 48, true));
}

#[test]
fn custom_start_with_tiny_board() {
    let mut menu = Menu::new();
    menu.step(Key::Char('c'));
    for _ in 0..20 {
        menu.step(Key::Down);
    }
    menu.step(Key::Right);
    for _ in 0..20 {
        menu.step(Key::Down);
    }
    // 2 x 2 cells with 40 mines: a fifth of 4 is 0, raised to 1
    assert_eq!(menu.step(Key::Enter), MenuAction::Start);
    assert_eq!(menu.game_settings(), ([2, 2], 1, true));
}

#[test]
fn custom_quit_returns_to_main_menu() {
    let mut menu = Menu::new();
    menu.step(Key::Char('c'));
    menu.step(Key::Up);
    assert_eq!(menu.step(Key::Char('q')), MenuAction::ShowMain);
    assert_eq!(menu.screen, Screen::Main);
    assert!(!menu.custom_mode_enabled);
    assert_eq!(menu.selected_difficulty, 1);
    // the custom values stay, but a difficulty game ignores them
    assert_eq!(menu.table_size, [17, 16]);
    assert_eq!(menu.game_settings(), ([16, 16], 50, false));
}
