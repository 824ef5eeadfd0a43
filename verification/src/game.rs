use vstd::prelude::*;
use crate::cell::Cell;
use crate::grid::{grid_view, text_view, well_shaped, in_bounds, count_cells, count_rows, count_row};
use crate::flood::{revealed, revealed_text, count_text, count_nearby_mines, reaches, zero_walk_between, zero_cell, nearby_count, mine_at, opened_text};
use crate::mines::{mines_laid, slot_count, count_mine_slots, place_mines, may_hold_mine};

verus! {

/// A key press, as the game reads it.
#[derive(Clone, Copy, PartialEq, Eq, Structural, Debug)]
pub enum Key {
    Up,
    Down,
    Left,
    Right,
    Enter,
    Char(char),
    Other,
}

/// What a key press leads to.
#[derive(Clone, Copy, PartialEq, Eq, Structural, Debug)]
pub enum Outcome {
    /// The game goes on.
    Continue,
    /// The player quit.
    Quit,
    /// A mine was opened.
    Lost,
    /// Only mines are left unopened.
    Won,
}

/// The text of a cell not opened yet.
pub open spec fn unopened_text() -> Seq<char> {
    seq!['*']
}

/// The text of a flagged cell.
pub open spec fn flagged_text() -> Seq<char> {
    seq!['P']
}

/// The cells that count as not opened: unopened or flagged.
pub open spec fn is_closed() -> spec_fn(int, int, Seq<char>) -> bool {
    |r: int, c: int, s: Seq<char>| s == unopened_text() || s == flagged_text()
}

/// Number of cells of the visible board not opened yet.
pub open spec fn closed_count(t: Seq<Seq<Seq<char>>>) -> nat {
    count_cells(t, is_closed())
}

/// Every visible cell of the game is one character.
pub open spec fn single_chars(game: Game) -> bool {
    forall|r: int, c: int|
        in_bounds(game.rows(), game.cols(), r, c) ==> (#[trigger] game.shown()[r][c]).len() == 1
}

/// One game: the hidden board, the visible board, the cursor and the counters.
pub struct Game {
    /// The hidden board.
    pub ref_table: Vec<Vec<Cell>>,
    /// The visible board: `*` unopened, `P` flagged, `_` opened, a digit: mines around.
    pub table: Vec<Vec<String>>,
    /// Rows and columns.
    pub table_size: [usize; 2],
    /// The cursor: row and column. It may stand one past the last row or column.
    pub coor: [usize; 2],
    /// Mines laid at the first opening.
    pub mines_count: i16,
    /// Mines may lie close to the first opened cell.
    pub custom_mode_enabled: bool,
    /// No cell has been opened yet, so no mine has been laid.
    pub first_click: bool,
    /// Cells unopened or flagged, as counted after the last opening.
    pub unopened_count: i16,
}

impl Game {
    pub open spec fn rows(&self) -> int {
        self.table_size[0] as int
    }

    pub open spec fn cols(&self) -> int {
        self.table_size[1] as int
    }

    /// The hidden board.
    pub open spec fn board(&self) -> Seq<Seq<Cell>> {
        grid_view(self.ref_table@)
    }

    /// The visible board.
    pub open spec fn shown(&self) -> Seq<Seq<Seq<char>>> {
        text_view(self.table@)
    }

    pub open spec fn wf(&self) -> bool {
        &&& 1 <= self.rows() <= 127
        &&& 1 <= self.cols() <= 127
        &&& well_shaped(self.board(), self.rows(), self.cols())
        &&& well_shaped(self.shown(), self.rows(), self.cols())
        &&& self.coor[0] <= self.table_size[0]
        &&& self.coor[1] <= self.table_size[1]
        &&& 0 <= self.unopened_count
    }

    /// The cursor stands on a cell.
    pub open spec fn on_board(&self) -> bool {
        in_bounds(self.rows(), self.cols(), self.coor[0] as int, self.coor[1] as int)
    }

    /// Enough cells may hold a mine for the first opening at the cursor.
    pub open spec fn room_for_mines(&self) -> bool {
        self.mines_count <= slot_count(
            self.board(),
            self.rows(),
            self.cols(),
            self.coor[0] as int,
            self.coor[1] as int,
            self.custom_mode_enabled,
        )
    }

    /// A new game: no mine yet, every cell unopened, the cursor at the top left.
    pub fn new(table_size: [usize; 2], mines_count: i16, custom_mode_enabled: bool) -> (game: Game)
        requires
            1 <= table_size[0] <= 127,
            1 <= table_size[1] <= 127,
        ensures
            game.wf(),
            game.table_size == table_size,
            game.mines_count == mines_count,
            game.custom_mode_enabled == custom_mode_enabled,
            game.coor[0] == 0 && game.coor[1] == 0,
            game.first_click,
            game.unopened_count == 0,
            single_chars(game),
            forall|r: int, c: int|
                in_bounds(table_size[0] as int, table_size[1] as int, r, c) ==> {
                    &&& #[trigger] game.board()[r][c] == Cell::Empty
                    &&& game.shown()[r][c] == unopened_text()
                },
    {
        let mut ref_table: Vec<Vec<Cell>> = Vec::new();
        let mut table: Vec<Vec<String>> = Vec::new();
        let mut i: usize = 0;
        while i < table_size[0]
            invariant
                i <= table_size[0],
                ref_table.len() == i,
                table.len() == i,
                forall|k: int|
                    0 <= k < i ==> {
                        &&& (#[trigger] ref_table@[k])@.len() == table_size[1]
                        &&& table@[k]@.len() == table_size[1]
                        &&& forall|j: int|
                            0 <= j < table_size[1] ==> {
                                &&& #[trigger] ref_table@[k]@[j] == Cell::Empty
                                &&& table@[k]@[j]@ == unopened_text()
                            }
                    },
            decreases table_size[0] - i,
        {
            let mut row: Vec<Cell> = Vec::new();
            let mut text_row: Vec<String> = Vec::new();
            let mut j: usize = 0;
            while j < table_size[1]
                invariant
                    j <= table_size[1],
                    row.len() == j,
                    text_row.len() == j,
                    forall|k: int|
                        0 <= k < j ==> {
                            &&& #[trigger] row@[k] == Cell::Empty
                            &&& text_row@[k]@ == unopened_text()
                        },
                decreases table_size[1] - j,
            {
                proof {
                    reveal_strlit("*");
                }
                row.push(Cell::Empty);
                let star = String::from_str("*");
                assert(star@ =~= unopened_text());
                text_row.push(star);
                j += 1;
            }
            ref_table.push(row);
            table.push(text_row);
            i += 1;
        }
        let game = Game {
            ref_table,
            table,
            table_size,
            coor: [0, 0],
            mines_count,
            custom_mode_enabled,
            first_click: true,
            unopened_count: 0,
        };
        assert forall|r: int| 0 <= r < table_size[0] implies #[trigger] game.board()[r].len() == table_size[1] by {
            assert(game.ref_table@[r]@.len() == table_size[1]);
        }
        assert forall|r: int| 0 <= r < table_size[0] implies #[trigger] game.shown()[r].len() == table_size[1] by {
            assert(game.ref_table@[r]@.len() == table_size[1]);
            assert(game.table@[r]@.len() == table_size[1]);
            assert(game.shown()[r] == Seq::new(game.table@[r]@.len(), |j: int| game.table@[r]@[j]@));
        }
        assert forall|r: int, c: int| in_bounds(table_size[0] as int, table_size[1] as int, r, c) implies {
            &&& #[trigger] game.board()[r][c] == Cell::Empty
            &&& game.shown()[r][c] == unopened_text()
        } by {
            assert(game.ref_table@[r]@[c] == Cell::Empty);
        }
        assert forall|r: int, c: int| in_bounds(game.rows(), game.cols(), r, c) implies (
        #[trigger] game.shown()[r][c]).len() == 1 by {
            assert(game.board()[r][c] == Cell::Empty);
        }
        assert(well_shaped(game.board(), game.rows(), game.cols()));
        assert(well_shaped(game.shown(), game.rows(), game.cols()));
        game
    }

    /// Whether the cursor stands on a cell.
    pub fn cursor_on_board(&self) -> (b: bool)
        ensures
            b == self.on_board(),
    {
        self.coor[0] < self.table_size[0] && self.coor[1] < self.table_size[1]
    }

    /// Whether enough cells may hold a mine for a first opening at the cursor.
    pub fn can_place_mines(&self) -> (b: bool)
        requires
            self.wf(),
        ensures
            b == self.room_for_mines(),
    {
        let n = count_mine_slots(&self.ref_table, &self.table_size, self.coor, self.custom_mode_enabled);
        self.mines_count < 0 || (self.mines_count as usize) <= n
    }

    /// The hidden board `m` holds the mines of the opening at the cursor: on
    /// the first opening, `mines_count` mines laid on cells that may hold one;
    /// later, the board as it is.
    pub open spec fn mines_for_opening(&self, m: Seq<Seq<Cell>>) -> bool {
        if self.first_click {
            mines_laid(
                self.board(),
                m,
                self.rows(),
                self.cols(),
                self.coor[0] as int,
                self.coor[1] as int,
                self.custom_mode_enabled,
                if self.mines_count > 0 {
                    self.mines_count as int
                } else {
                    0
                },
            )
        } else {
            m == self.board()
        }
    }

    /// `after` is this game after opening the cursor's cell on the hidden board `m`:
    /// a mine loses; otherwise the cell is revealed, the closed cells are
    /// counted anew, and the game is won when only the mines are left closed.
    pub open spec fn opened_on(&self, after: Game, m: Seq<Seq<Cell>>, outcome: Outcome) -> bool {
        let r = self.coor[0] as int;
        let c = self.coor[1] as int;
        if m[r][c] == Cell::HasMine {
            &&& outcome == Outcome::Lost
            &&& after.board() == m
            &&& after.shown() == self.shown()
            &&& after.unopened_count == self.unopened_count
        } else {
            &&& revealed(m, self.shown(), after.board(), after.shown(), self.rows(), self.cols(), r, c)
            &&& after.unopened_count == closed_count(after.shown())
            &&& outcome == if after.unopened_count == self.mines_count {
                Outcome::Won
            } else {
                Outcome::Continue
            }
        }
    }

    /// `after` is this game after opening the cursor's cell, with `outcome`;
    /// `placed` tells whether the mines were laid by this opening.
    pub open spec fn opened(&self, after: Game, outcome: Outcome, placed: bool) -> bool {
        &&& placed == self.first_click
        &&& !after.first_click
        &&& after.table_size == self.table_size
        &&& after.coor == self.coor
        &&& after.mines_count == self.mines_count
        &&& after.custom_mode_enabled == self.custom_mode_enabled
        &&& exists|m: Seq<Seq<Cell>>| #[trigger] self.mines_for_opening(m) && self.opened_on(after, m, outcome)
    }

    /// Opens the cell under the cursor; on the first opening the mines are
    /// laid first. Returns the outcome and whether mines were laid.
    pub fn open_cell(&mut self) -> (res: (Outcome, bool))
        requires
            old(self).wf(),
            old(self).on_board(),
            old(self).first_click ==> old(self).room_for_mines(),
        ensures
            final(self).wf(),
            old(self).opened(*final(self), res.0, res.1),
            single_chars(*old(self)) ==> single_chars(*final(self)),
    {
        let placed = self.first_click;
        // Lay the mines after the first click
        if self.first_click {
            place_mines(&mut self.ref_table, &self.table_size, self.coor, self.mines_count, self.custom_mode_enabled);
            self.first_click = false;
        }
        let ghost m = self.board();
        let ghost g = *self;
        let r = self.coor[0];
        let c = self.coor[1];
        proof {
            assert(self.ref_table@[r as int]@ == m[r as int]);
        }
        // Losing condition
        if self.ref_table[r][c] == Cell::HasMine {
            assert(old(self).mines_for_opening(m));
            return (Outcome::Lost, placed);
        }
        let ghost t0 = self.shown();
        count_nearby_mines(&mut self.table, &mut self.ref_table, &self.table_size, [r as i8, c as i8]);
        proof {
            assert((r as i8) as int == r as int);
            assert((c as i8) as int == c as int);
            assert(revealed(m, t0, self.board(), self.shown(), self.rows(), self.cols(), r as int, c as int));
            if single_chars(*old(self)) {
                assert forall|i: int, j: int| in_bounds(self.rows(), self.cols(), i, j) implies (
                #[trigger] self.shown()[i][j]).len() == 1 by {
                    assert(self.board()[i][j] == crate::flood::revealed_cell(
                        m,
                        self.rows(),
                        self.cols(),
                        r as int,
                        c as int,
                        i,
                        j,
                    ));
                    assert(self.shown()[i][j] == revealed_text(
                        m,
                        t0,
                        self.rows(),
                        self.cols(),
                        r as int,
                        c as int,
                        i,
                        j,
                    ));
                    assert(t0[i][j] == old(self).shown()[i][j]);
                }
            }
        }
        // Count unopened cells for the winning condition
        self.unopened_count = count_closed(&self.table, &self.table_size);
        assert(old(self).mines_for_opening(m));
        if self.unopened_count == self.mines_count {
            (Outcome::Won, placed)
        } else {
            (Outcome::Continue, placed)
        }
    }
}

/// The text of a cell after pressing the flag key on it: an unopened cell
/// gets a flag, a flagged one loses it, an opened one stays as it is.
pub open spec fn toggled(s: Seq<char>) -> Seq<char> {
    if s == unopened_text() {
        flagged_text()
    } else if s == flagged_text() {
        unopened_text()
    } else {
        s
    }
}

/// The cursor after `key`: up and left stop at the first row or column; down
/// and right stop one past the last one.
pub open spec fn moved_cursor(coor: [usize; 2], table_size: [usize; 2], key: Key) -> (int, int) {
    let r = coor[0] as int;
    let c = coor[1] as int;
    if key == Key::Up {
        (if r > 0 { r - 1 } else { r }, c)
    } else if key == Key::Down {
        (if r < table_size[0] { r + 1 } else { r }, c)
    } else if key == Key::Left {
        (r, if c > 0 { c - 1 } else { c })
    } else if key == Key::Right {
        (r, if c < table_size[1] { c + 1 } else { c })
    } else {
        (r, c)
    }
}

/// The key moves the cursor.
pub open spec fn is_move(key: Key) -> bool {
    key == Key::Up || key == Key::Down || key == Key::Left || key == Key::Right
}

impl Game {
    /// Flags or unflags the cell under the cursor.
    pub fn toggle_flag(&mut self)
        requires
            old(self).wf(),
            old(self).on_board(),
        ensures
            final(self).wf(),
            final(self).ref_table == old(self).ref_table,
            final(self).table_size == old(self).table_size,
            final(self).coor == old(self).coor,
            final(self).mines_count == old(self).mines_count,
            final(self).custom_mode_enabled == old(self).custom_mode_enabled,
            final(self).first_click == old(self).first_click,
            final(self).unopened_count == old(self).unopened_count,
            single_chars(*old(self)) ==> single_chars(*final(self)),
            final(self).shown() == old(self).shown().update(
                old(self).coor[0] as int,
                old(self).shown()[old(self).coor[0] as int].update(
                    old(self).coor[1] as int,
                    toggled(old(self).shown()[old(self).coor[0] as int][old(self).coor[1] as int]),
                ),
            ),
    {
        let ghost t0 = self.shown();
        let r = self.coor[0];
        let c = self.coor[1];
        proof {
            reveal_strlit("*");
            reveal_strlit("P");
            assert(self.table@[r as int]@.len() == self.table_size[1]) by {
                assert(t0[r as int].len() == self.table_size[1]);
            }
        }
        let star = String::from_str("*");
        let flag = String::from_str("P");
        assert(star@ =~= unopened_text());
        assert(flag@ =~= flagged_text());
        assert(t0[r as int][c as int] == self.table@[r as int]@[c as int]@);
        if self.table[r][c] == star {
            self.table[r][c] = flag;
        } else if self.table[r][c] == flag {
            self.table[r][c] = star;
        }
        proof {
            let t = self.shown();
            let want = t0.update(r as int, t0[r as int].update(c as int, toggled(t0[r as int][c as int])));
            assert forall|i: int| 0 <= i < t.len() implies #[trigger] t[i] =~= want[i] by {
                if i != r as int {
                    assert(self.table@[i] == old(self).table@[i]);
                }
            }
            assert(t =~= want);
            assert forall|i: int| 0 <= i < self.rows() implies #[trigger] t[i].len() == self.cols() by {
                assert(t[i] == want[i]);
            }
            if single_chars(*old(self)) {
                assert forall|i: int, j: int| in_bounds(self.rows(), self.cols(), i, j) implies (
                #[trigger] self.shown()[i][j]).len() == 1 by {
                    assert(t[i] == want[i]);
                    assert(t0[i][j].len() == 1);
                }
            }
        }
    }

    /// Handles one key press in the game.
    ///
    /// The arrows move the cursor, `f` flags or unflags the cell under it,
    /// `q` quits, Enter opens the cell under it; other keys do nothing.
    /// Returns the outcome and whether mines were laid by this key.
    pub fn step(&mut self, key: Key) -> (res: (Outcome, bool))
        requires
            old(self).wf(),
            key == Key::Enter || key == Key::Char('f') ==> old(self).on_board(),
            key == Key::Enter && old(self).first_click ==> old(self).room_for_mines(),
        ensures
            final(self).wf(),
            single_chars(*old(self)) ==> single_chars(*final(self)),
            is_move(key) ==> {
                &&& res == (Outcome::Continue, false)
                &&& final(self).coor[0] as int == moved_cursor(old(self).coor, old(self).table_size, key).0
                &&& final(self).coor[1] as int == moved_cursor(old(self).coor, old(self).table_size, key).1
                &&& final(self).ref_table == old(self).ref_table
                &&& final(self).table == old(self).table
                &&& final(self).table_size == old(self).table_size
                &&& final(self).mines_count == old(self).mines_count
                &&& final(self).custom_mode_enabled == old(self).custom_mode_enabled
                &&& final(self).first_click == old(self).first_click
                &&& final(self).unopened_count == old(self).unopened_count
            },
            key == Key::Char('f') ==> {
                &&& res == (Outcome::Continue, false)
                &&& final(self).ref_table == old(self).ref_table
                &&& final(self).coor == old(self).coor
                &&& final(self).shown() == old(self).shown().update(
                    old(self).coor[0] as int,
                    old(self).shown()[old(self).coor[0] as int].update(
                        old(self).coor[1] as int,
                        toggled(old(self).shown()[old(self).coor[0] as int][old(self).coor[1] as int]),
                    ),
                )
                &&& final(self).first_click == old(self).first_click
                &&& final(self).unopened_count == old(self).unopened_count
            },
            key == Key::Char('q') ==> res == (Outcome::Quit, false) && *final(self) == *old(self),
            key == Key::Enter ==> old(self).opened(*final(self), res.0, res.1),
            !is_move(key) && key != Key::Enter && key != Key::Char('f') && key != Key::Char('q') ==> res == (
            Outcome::Continue, false) && *final(self) == *old(self),
    {
        match key {
            Key::Up => {
                if self.coor[0] > 0 {
                    self.coor[0] -= 1;
                }
                (Outcome::Continue, false)
            },
            Key::Down => {
                if self.coor[0] < self.table_size[0] {
                    self.coor[0] += 1;
                }
                (Outcome::Continue, false)
            },
            Key::Left => {
                if self.coor[1] > 0 {
                    self.coor[1] -= 1;
                }
                (Outcome::Continue, false)
            },
            Key::Right => {
                if self.coor[1] < self.table_size[1] {
                    self.coor[1] += 1;
                }
                (Outcome::Continue, false)
            },
            Key::Char('f') => {
                self.toggle_flag();
                (Outcome::Continue, false)
            },
            Key::Char('q') => (Outcome::Quit, false),
            Key::Enter => self.open_cell(),
            _ => (Outcome::Continue, false),
        }
    }
}

/// Counts the cells shown unopened or flagged.
pub fn count_closed(table: &Vec<Vec<String>>, table_size: &[usize; 2]) -> (n: i16)
    requires
        table_size[0] <= 127,
        table_size[1] <= 127,
        well_shaped(text_view(table@), table_size[0] as int, table_size[1] as int),
    ensures
        n == closed_count(text_view(table@)),
{
    let ghost t = text_view(table@);
    let ghost rows = table_size[0] as int;
    let ghost cols = table_size[1] as int;
    proof {
        reveal_strlit("*");
        reveal_strlit("P");
    }
    let star = String::from_str("*");
    let flag = String::from_str("P");
    assert(star@ =~= unopened_text());
    assert(flag@ =~= flagged_text());
    let mut n: usize = 0;
    let mut i: usize = 0;
    while i < table_size[0]
        invariant
            t == text_view(table@),
            rows == table_size[0] as int,
            cols == table_size[1] as int,
            rows <= 127,
            cols <= 127,
            well_shaped(t, rows, cols),
            star@ == unopened_text(),
            flag@ == flagged_text(),
            i <= rows,
            n == count_rows(t, is_closed(), i as int),
            n <= i * cols,
        decreases table_size[0] - i,
    {
        assert(t[i as int].len() == cols);
        assert(table@[i as int]@.len() == cols);
        let mut j: usize = 0;
        while j < table_size[1]
            invariant
                t == text_view(table@),
                rows == table_size[0] as int,
                cols == table_size[1] as int,
                rows <= 127,
                cols <= 127,
                well_shaped(t, rows, cols),
                star@ == unopened_text(),
                flag@ == flagged_text(),
                i < rows,
                j <= cols,
                table@[i as int]@.len() == cols,
                n == count_rows(t, is_closed(), i as int) + count_row(t[i as int], i as int, is_closed(), j as int),
                n <= i * cols + j,
            decreases table_size[1] - j,
        {
            proof {
                assert(i * cols + j < 127 * 127) by (nonlinear_arith)
                    requires
                        i < rows <= 127,
                        j < cols <= 127,
                ;
            }
            assert(t[i as int][j as int] == table@[i as int]@[j as int]@);
            if table[i][j] == star || table[i][j] == flag {
                n += 1;
            }
            j += 1;
        }
        proof {
            assert(i * cols + cols == (i + 1) * cols) by (nonlinear_arith);
        }
        i += 1;
    }
    proof {
        assert(n <= rows * cols);
        assert(rows * cols <= 127 * 127) by (nonlinear_arith)
            requires
                rows <= 127,
                cols <= 127,
                0 <= rows,
                0 <= cols,
        ;
    }
    n as i16
}

/// The first opening never hits a mine: no mine is laid on the opened cell.
pub proof fn lemma_first_opening_safe(before: Game, after: Game, outcome: Outcome, placed: bool)
    requires
        before.wf(),
        before.on_board(),
        before.first_click,
        before.board()[before.coor[0] as int][before.coor[1] as int] != Cell::HasMine,
        before.opened(after, outcome, placed),
    ensures
        outcome != Outcome::Lost,
{
    let r = before.coor[0] as int;
    let c = before.coor[1] as int;
    let m = choose|m: Seq<Seq<Cell>>| #[trigger] before.mines_for_opening(m) && before.opened_on(after, m, outcome);
    assert(m[r][c] == before.board()[r][c] || may_hold_mine(
        before.rows(),
        before.cols(),
        r,
        c,
        before.custom_mode_enabled,
        r,
        c,
    ));
}

/// Out of custom mode, the first opening of a new game lands on a cell with
/// no mine around, so it shows `_` and the fill spreads from there.
pub proof fn lemma_first_opening_spreads(before: Game, after: Game, outcome: Outcome, placed: bool)
    requires
        before.wf(),
        before.on_board(),
        before.first_click,
        !before.custom_mode_enabled,
        forall|r: int, c: int|
            in_bounds(before.rows(), before.cols(), r, c) ==> #[trigger] before.board()[r][c] == Cell::Empty,
        before.opened(after, outcome, placed),
    ensures
        outcome != Outcome::Lost,
        after.shown()[before.coor[0] as int][before.coor[1] as int] == opened_text(),
        after.board()[before.coor[0] as int][before.coor[1] as int] == Cell::EmptyAndChecked,
{
    let rows = before.rows();
    let cols = before.cols();
    let r = before.coor[0] as int;
    let c = before.coor[1] as int;
    lemma_first_opening_safe(before, after, outcome, placed);
    let m = choose|m: Seq<Seq<Cell>>| #[trigger] before.mines_for_opening(m) && before.opened_on(after, m, outcome);
    // no mine lies next to the opened cell
    assert forall|nr: int, nc: int| -1 <= nr - r <= 1 && -1 <= nc - c <= 1 implies #[trigger] mine_at(
        m,
        rows,
        cols,
        nr,
        nc,
    ) == 0 by {
        if in_bounds(rows, cols, nr, nc) {
            assert(m[nr][nc] == before.board()[nr][nc] || may_hold_mine(rows, cols, r, c, false, nr, nc));
            assert(before.board()[nr][nc] == Cell::Empty);
        }
    }
    assert(mine_at(m, rows, cols, r - 1, c - 1) == 0);
    assert(mine_at(m, rows, cols, r - 1, c) == 0);
    assert(mine_at(m, rows, cols, r - 1, c + 1) == 0);
    assert(mine_at(m, rows, cols, r, c - 1) == 0);
    assert(mine_at(m, rows, cols, r, c + 1) == 0);
    assert(mine_at(m, rows, cols, r + 1, c - 1) == 0);
    assert(mine_at(m, rows, cols, r + 1, c) == 0);
    assert(mine_at(m, rows, cols, r + 1, c + 1) == 0);
    assert(m[r][c] == before.board()[r][c] || may_hold_mine(rows, cols, r, c, false, r, c));
    assert(zero_cell(m, rows, cols, r, c));
    assert(zero_walk_between(m, rows, cols, seq![(r, c)], r, c, r, c));
    assert(reaches(m, rows, cols, r, c, r, c));
    assert(after.board()[r][c] == Cell::EmptyAndChecked);
}

/// Pressing the flag key twice on a cell leaves its text as it was.
pub proof fn lemma_flag_twice(s: Seq<char>)
    ensures
        toggled(toggled(s)) == s,
{
}

/// The arrows move the cursor by one cell: up and left never below 0, down
/// and right never past one beyond the last row or column; other keys leave it.
pub proof fn lemma_cursor_moves(coor: [usize; 2], table_size: [usize; 2], key: Key)
    ensures
        ({
            let (r, c) = moved_cursor(coor, table_size, key);
            let r0 = coor[0] as int;
            let c0 = coor[1] as int;
            &&& key == Key::Up ==> c == c0 && (r0 > 0 ==> r == r0 - 1) && (r0 == 0 ==> r == 0)
            &&& key == Key::Down ==> c == c0 && (r0 < table_size[0] ==> r == r0 + 1) && (r0 >= table_size[0] ==> r
                == r0)
            &&& key == Key::Left ==> r == r0 && (c0 > 0 ==> c == c0 - 1) && (c0 == 0 ==> c == 0)
            &&& key == Key::Right ==> r == r0 && (c0 < table_size[1] ==> c == c0 + 1) && (c0 >= table_size[1] ==> c
                == c0)
            &&& !is_move(key) ==> r == r0 && c == c0
        }),
{
}

/// The flag key turns `*` into `P` and `P` into `*`, and leaves any other text.
pub proof fn lemma_flag_toggles(s: Seq<char>)
    ensures
        toggled(seq!['*']) == seq!['P'],
        toggled(seq!['P']) == seq!['*'],
        s != seq!['*'] && s != seq!['P'] ==> toggled(s) == s,
{
}

/// The cells still counted as not opened are exactly those shown `*` or `P`.
pub proof fn lemma_closed_cells(r: int, c: int, s: Seq<char>)
    ensures
        is_closed()(r, c, s) <==> (s == seq!['*'] || s == seq!['P']),
{
}

} // verus!
