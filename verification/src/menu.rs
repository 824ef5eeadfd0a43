use vstd::prelude::*;
use crate::game::Key;

verus! {

/// `x` brought into `lo..=hi`.
pub open spec fn clamp(x: int, lo: int, hi: int) -> int {
    if x < lo {
        lo
    } else if x > hi {
        hi
    } else {
        x
    }
}

/// Adds `new` to the difficulty and keeps it within 0 (easy) to 2 (hard).
pub fn set_difficulty(current: &mut i8, new: i8)
    requires
        i8::MIN <= *old(current) + new <= i8::MAX,
    ensures
        *final(current) == clamp(*old(current) + new, 0, 2),
{
    *current += new;
    if *current < 0 {
        *current = 0;
    } else if *current > 2 {
        *current = 2;
    }
}

/// Which menu is on screen.
#[derive(Clone, Copy, PartialEq, Eq, Structural, Debug)]
pub enum Screen {
    /// The main menu: difficulty, custom mode, start, quit.
    Main,
    /// The custom mode menu: rows, columns and mines.
    Custom,
}

/// What the menu asks for after a key press.
#[derive(Clone, Copy, PartialEq, Eq, Structural, Debug)]
pub enum MenuAction {
    /// Draw the main menu again.
    ShowMain,
    /// Draw the custom mode menu again.
    ShowCustom,
    /// Nothing to draw.
    Stay,
    /// Leave the program.
    Quit,
    /// Start a game with the chosen settings.
    Start,
}

/// The menus' state.
pub struct Menu {
    /// 0 easy, 1 medium, 2 hard; 3 once a custom game starts.
    pub selected_difficulty: i8,
    /// Rows and columns chosen in custom mode.
    pub table_size: [usize; 2],
    /// Mines chosen in custom mode.
    pub mines_count: i16,
    /// A custom game was started.
    pub custom_mode_enabled: bool,
    /// The menu on screen.
    pub screen: Screen,
    /// The entry selected in custom mode: 0 rows, 1 columns, 2 mines.
    pub choice: i8,
}

/// The rows or columns of the game for a difficulty: 9, 16 or 25, or the custom value.
pub open spec fn size_for(difficulty: int, custom_size: usize) -> usize {
    if difficulty == 0 {
        9
    } else if difficulty == 1 {
        16
    } else if difficulty == 2 {
        25
    } else {
        custom_size
    }
}

/// The mines of a game with `rows` rows: 10, 50 or 100 out of custom mode for
/// the sizes 9, 16 and 25, else the custom value.
pub open spec fn mines_for(rows: usize, custom: bool, custom_mines: i16) -> i16 {
    if custom {
        custom_mines
    } else if rows == 9 {
        10
    } else if rows == 16 {
        50
    } else if rows == 25 {
        100
    } else {
        custom_mines
    }
}

/// The mines of a custom game with `cells` cells: the chosen number when it
/// is below `cells`, else a fifth of the cells, at least one.
pub open spec fn custom_mines_for(mines: i16, cells: int) -> int {
    if mines >= cells {
        if cells / 5 < 1 {
            1
        } else {
            cells / 5
        }
    } else {
        mines as int
    }
}

impl Menu {
    pub open spec fn wf(&self) -> bool {
        &&& 0 <= self.selected_difficulty <= 3
        &&& 2 <= self.table_size[0] <= 50
        &&& 2 <= self.table_size[1] <= 50
        &&& 1 <= self.mines_count <= 2500
        &&& 0 <= self.choice <= 2
    }

    /// `self` and `other` agree but maybe on the screen and the selected entry.
    pub open spec fn same_settings(&self, other: Menu) -> bool {
        &&& other.selected_difficulty == self.selected_difficulty
        &&& other.table_size == self.table_size
        &&& other.mines_count == self.mines_count
        &&& other.custom_mode_enabled == self.custom_mode_enabled
    }

    /// The menus at start: medium difficulty, 16 by 16 with 40 mines for custom mode.
    pub fn new() -> (m: Menu)
        ensures
            m.wf(),
            m.selected_difficulty == 1,
            m.table_size == [16usize, 16usize],
            m.mines_count == 40,
            !m.custom_mode_enabled,
            m.screen == Screen::Main,
            m.choice == 0,
    {
        Menu {
            selected_difficulty: 1,
            table_size: [16, 16],
            mines_count: 40,
            custom_mode_enabled: false,
            screen: Screen::Main,
            choice: 0,
        }
    }

    /// Handles one key press on the main menu or the custom mode menu.
    ///
    /// Main menu: up and down change the difficulty, `c` opens custom mode,
    /// `q` quits, Enter starts. Custom mode: left and right select rows,
    /// columns or mines, up and down change the selected value within its
    /// limits, `q` goes back to the main menu, Enter starts a custom game.
    pub fn step(&mut self, key: Key) -> (action: MenuAction)
        requires
            old(self).wf(),
        ensures
            final(self).wf(),
            old(self).screen == Screen::Main ==> {
                &&& key == Key::Up ==> action == MenuAction::ShowMain && final(self).selected_difficulty == clamp(
                    old(self).selected_difficulty - 1,
                    0,
                    2,
                ) && final(self).table_size == old(self).table_size && final(self).mines_count == old(
                    self,
                ).mines_count && final(self).custom_mode_enabled == old(self).custom_mode_enabled
                    && final(self).screen == Screen::Main && final(self).choice == old(self).choice
                &&& key == Key::Down ==> action == MenuAction::ShowMain && final(self).selected_difficulty
                    == clamp(old(self).selected_difficulty + 1, 0, 2) && final(self).table_size == old(
                    self,
                ).table_size && final(self).mines_count == old(self).mines_count
                    && final(self).custom_mode_enabled == old(self).custom_mode_enabled
                    && final(self).screen == Screen::Main && final(self).choice == old(self).choice
                &&& key == Key::Char('c') ==> action == MenuAction::ShowCustom && old(self).same_settings(
                    *final(self),
                ) && final(self).screen == Screen::Custom && final(self).choice == 0
                &&& key == Key::Char('q') ==> action == MenuAction::Quit && *final(self) == *old(self)
                &&& key == Key::Enter ==> action == MenuAction::Start && *final(self) == *old(self)
                &&& (key != Key::Up && key != Key::Down && key != Key::Char('c') && key != Key::Char('q')
                    && key != Key::Enter) ==> action == MenuAction::Stay && *final(self) == *old(self)
            },
            old(self).screen == Screen::Custom ==> {
                &&& key == Key::Up ==> action == MenuAction::ShowCustom && final(self).screen
                    == Screen::Custom && final(self).choice == old(self).choice
                    && final(self).selected_difficulty == old(self).selected_difficulty
                    && final(self).custom_mode_enabled == old(self).custom_mode_enabled
                    && final(self).table_size[0] == (if old(self).choice == 0 && old(self).table_size[0]
                    < 50 {
                    old(self).table_size[0] + 1
                } else {
                    old(self).table_size[0] as int
                }) && final(self).table_size[1] == (if old(self).choice == 1 && old(self).table_size[1]
                    < 50 {
                    old(self).table_size[1] + 1
                } else {
                    old(self).table_size[1] as int
                }) && final(self).mines_count == (if old(self).choice == 2 && old(self).mines_count
                    < old(self).table_size[0] * old(self).table_size[1] {
                    old(self).mines_count + 1
                } else {
                    old(self).mines_count as int
                })
                &&& key == Key::Down ==> action == MenuAction::ShowCustom && final(self).screen
                    == Screen::Custom && final(self).choice == old(self).choice
                    && final(self).selected_difficulty == old(self).selected_difficulty
                    && final(self).custom_mode_enabled == old(self).custom_mode_enabled
                    && final(self).table_size[0] == (if old(self).choice == 0 && old(self).table_size[0]
                    > 2 {
                    old(self).table_size[0] - 1
                } else {
                    old(self).table_size[0] as int
                }) && final(self).table_size[1] == (if old(self).choice == 1 && old(self).table_size[1]
                    > 2 {
                    old(self).table_size[1] - 1
                } else {
                    old(self).table_size[1] as int
                }) && final(self).mines_count == (if old(self).choice == 2 && old(self).mines_count
                    > 1 {
                    old(self).mines_count - 1
                } else {
                    old(self).mines_count as int
                })
                &&& key == Key::Left ==> action == MenuAction::ShowCustom && old(self).same_settings(
                    *final(self),
                ) && final(self).screen == Screen::Custom && final(self).choice == clamp(
                    old(self).choice - 1,
                    0,
                    2,
                )
                &&& key == Key::Right ==> action == MenuAction::ShowCustom && old(self).same_settings(
                    *final(self),
                ) && final(self).screen == Screen::Custom && final(self).choice == clamp(
                    old(self).choice + 1,
                    0,
                    2,
                )
                &&& key == Key::Char('q') ==> action == MenuAction::ShowMain && final(self).custom_mode_enabled == false && final(self).selected_difficulty == clamp(
                    old(self).selected_difficulty as int,
                    0,
                    2,
                ) && final(self).table_size == old(self).table_size && final(self).mines_count == old(
                    self,
                ).mines_count && final(self).screen == Screen::Main && final(self).choice == old(
                    self,
                ).choice
                &&& key == Key::Enter ==> action == MenuAction::Start && final(self).selected_difficulty == 3
                    && final(self).custom_mode_enabled && final(self).table_size == old(self).table_size
                    && final(self).mines_count == custom_mines_for(
                    old(self).mines_count,
                    old(self).table_size[0] * old(self).table_size[1],
                ) && final(self).screen == Screen::Custom && final(self).choice == old(self).choice
                &&& (key != Key::Up && key != Key::Down && key != Key::Left && key != Key::Right && key
                    != Key::Char('q') && key != Key::Enter) ==> action == MenuAction::ShowCustom
                    && *final(self) == *old(self)
            },
    {
        match self.screen {
            Screen::Main => match key {
                // Change difficulty
                Key::Up => {
                    set_difficulty(&mut self.selected_difficulty, -1);
                    MenuAction::ShowMain
                },
                Key::Down => {
                    set_difficulty(&mut self.selected_difficulty, 1);
                    MenuAction::ShowMain
                },
                Key::Char('c') => {
                    self.screen = Screen::Custom;
                    self.choice = 0;
                    MenuAction::ShowCustom
                },
                Key::Char('q') => MenuAction::Quit,
                Key::Enter => MenuAction::Start,
                _ => MenuAction::Stay,
            },
            Screen::Custom => match key {
                // Increase the selected value (within limits)
                Key::Up => {
                    if self.choice == 0 {
                        if self.table_size[0] < 50 {
                            self.table_size[0] += 1;
                        }
                    } else if self.choice == 1 {
                        if self.table_size[1] < 50 {
                            self.table_size[1] += 1;
                        }
                    } else {
                        assert(self.table_size[0] * self.table_size[1] <= 2500) by (nonlinear_arith)
                            requires
                                self.table_size[0] <= 50,
                                self.table_size[1] <= 50,
                        ;
                        if (self.mines_count as usize) < self.table_size[0] * self.table_size[1] {
                            self.mines_count += 1;
                        }
                    }
                    MenuAction::ShowCustom
                },
                // Decrease the selected value (within limits)
                Key::Down => {
                    if self.choice == 0 {
                        if self.table_size[0] > 2 {
                            self.table_size[0] -= 1;
                        }
                    } else if self.choice == 1 {
                        if self.table_size[1] > 2 {
                            self.table_size[1] -= 1;
                        }
                    } else {
                        if self.mines_count > 1 {
                            self.mines_count -= 1;
                        }
                    }
                    MenuAction::ShowCustom
                },
                // Change the selection (within limits)
                Key::Left => {
                    self.choice -= 1;
                    if self.choice < 0 {
                        self.choice = 0;
                    }
                    MenuAction::ShowCustom
                },
                Key::Right => {
                    self.choice += 1;
                    if self.choice > 2 {
                        self.choice = 2;
                    }
                    MenuAction::ShowCustom
                },
                // Back to the main menu
                Key::Char('q') => {
                    self.custom_mode_enabled = false;
                    set_difficulty(&mut self.selected_difficulty, 0);
                    self.screen = Screen::Main;
                    MenuAction::ShowMain
                },
                // Start a custom game; too many mines become a fifth of the cells
                Key::Enter => {
                    self.selected_difficulty = 3;
                    assert(self.table_size[0] * self.table_size[1] <= 2500) by (nonlinear_arith)
                        requires
                            self.table_size[0] <= 50,
                            self.table_size[1] <= 50,
                    ;
                    let cells = self.table_size[0] * self.table_size[1];
                    if (self.mines_count as usize) >= cells {
                        self.mines_count = (cells / 5) as i16;
                        if self.mines_count < 1 {
                            self.mines_count = 1;
                        }
                    }
                    self.custom_mode_enabled = true;
                    MenuAction::Start
                },
                _ => MenuAction::ShowCustom,
            },
        }
    }

    /// The rows, columns, mines and custom flag of the game to start.
    pub fn game_settings(&self) -> (res: ([usize; 2], i16, bool))
        requires
            self.wf(),
        ensures
            res.0[0] == size_for(self.selected_difficulty as int, self.table_size[0]),
            res.0[1] == size_for(self.selected_difficulty as int, self.table_size[1]),
            res.1 == mines_for(res.0[0], self.custom_mode_enabled, self.mines_count),
            res.2 == self.custom_mode_enabled,
            self.custom_mode_enabled ==> res.1 == self.mines_count,
            self.selected_difficulty == 0 && !self.custom_mode_enabled ==> res.0 == [9usize, 9usize] && res.1 == 10,
            self.selected_difficulty == 1 && !self.custom_mode_enabled ==> res.0 == [16usize, 16usize] && res.1
                == 50,
            self.selected_difficulty == 2 && !self.custom_mode_enabled ==> res.0 == [25usize, 25usize] && res.1
                == 100,
            self.selected_difficulty == 3 ==> res.0 == self.table_size,
    {
        let rows: usize = match self.selected_difficulty {
            0 => 9,
            1 => 16,
            2 => 25,
            _ => self.table_size[0],
        };
        let cols: usize = match self.selected_difficulty {
            0 => 9,
            1 => 16,
            2 => 25,
            _ => self.table_size[1],
        };
        let mut mines_count = self.mines_count;
        if !self.custom_mode_enabled {
            mines_count = match rows {
                9 => 10,
                16 => 50,
                25 => 100,
                _ => mines_count,
            };
        }
        ([rows, cols], mines_count, self.custom_mode_enabled)
    }
}

/// A custom game starts with at least one mine and fewer mines than cells:
/// the chosen number when it is below the number of cells, else a fifth of
/// the cells (rounded down), and one when that is zero.
pub proof fn lemma_custom_mines_fit(mines: i16, rows: int, cols: int)
    requires
        2 <= rows,
        2 <= cols,
        1 <= mines,
    ensures
        1 <= custom_mines_for(mines, rows * cols) < rows * cols,
        mines < rows * cols ==> custom_mines_for(mines, rows * cols) == mines,
        mines >= rows * cols && rows * cols >= 5 ==> 5 * custom_mines_for(mines, rows * cols) <= rows * cols < 5
            * custom_mines_for(mines, rows * cols) + 5,
        mines >= rows * cols && rows * cols < 5 ==> custom_mines_for(mines, rows * cols) == 1,
{
    assert(rows * cols >= 4) by (nonlinear_arith)
        requires
            2 <= rows,
            2 <= cols,
    ;
}

/// A custom game keeps the mine count chosen in the custom menu, whatever its
/// number of rows; the three difficulties give 9 by 9 with 10 mines, 16 by 16
/// with 50 and 25 by 25 with 100.
pub proof fn lemma_settings_of_choice(rows: usize, custom_mines: i16, custom_size: usize)
    ensures
        mines_for(rows, true, custom_mines) == custom_mines,
        size_for(0, custom_size) == 9 && mines_for(size_for(0, custom_size), false, custom_mines) == 10,
        size_for(1, custom_size) == 16 && mines_for(size_for(1, custom_size), false, custom_mines) == 50,
        size_for(2, custom_size) == 25 && mines_for(size_for(2, custom_size), false, custom_mines) == 100,
        size_for(3, custom_size) == custom_size,
{
}

/// The difficulty after a change always lies between 0 and 2, and a change
/// that lands in that range is taken as it is.
pub proof fn lemma_difficulty_in_range(x: int)
    ensures
        0 <= clamp(x, 0, 2) <= 2,
        0 <= x <= 2 ==> clamp(x, 0, 2) == x,
        x < 0 ==> clamp(x, 0, 2) == 0,
        x > 2 ==> clamp(x, 0, 2) == 2,
{
}

} // verus!
