use vstd::prelude::*;
use crate::cell::Cell;
use crate::game::{Game, single_chars};
use crate::grid::in_bounds;
use crate::menu::{Menu, size_for, mines_for};
use crate::text::{zero_padded, push_padded, code_digit, lemma_padded_two, lemma_padded_four, lemma_padded_two_len};

verus! {

// ---- the main menu ----
/// The three difficulty lines and the mine count line of the main menu.
pub open spec fn difficulty_lines(difficulty: i8) -> Seq<char> {
    if difficulty == 0 {
        "||         [EASY(9x9)]        ||\n ||        MEDIUM(16x16)       ||\n ||         HARD(25x25)        ||\n ||     ~~~~#MINES: 10~~~~     ||"@
    } else if difficulty == 1 {
        "||          EASY(9x9)         ||\n ||       [MEDIUM(16x16)]      ||\n ||         HARD(25x25)        ||\n ||     ~~~~#MINES: 50~~~~     ||"@
    } else {
        "||          EASY(9x9)         ||\n ||        MEDIUM(16x16)       ||\n ||        [HARD(25x25)]       ||\n ||     ~~~~#MINES:100~~~~     ||"@
    }
}

/// The head of both menus.
pub open spec fn menu_head() -> Seq<char> {
    " OO============================OO\n"@ + " || **** MINESWEEPER v0.2 **** ||\n"@ + " || -----------o00o----------- ||\n"@
        + " ||     VERSION 0.1. BY D.     ||\n"@ + " || -------------------------- ||\n"@
}

/// The main menu with `difficulty` selected.
pub open spec fn main_menu(difficulty: i8) -> Seq<char> {
    menu_head() + " ||     ****DIFFICULTY****     ||\n"@ + " "@ + difficulty_lines(difficulty) + "\n"@
        + " || -------------------------- ||\n"@ + " || [ENTER] Start / Open cell  ||\n"@
        + " || [^][v][<][>] Move cursor   ||\n"@ + " || [F] Flag selected cell     ||\n"@
        + " || [C] Custom mode            ||\n"@ + " || [Q] Quit game              ||\n"@
        + " OO============================OO\n"@
}

fn difficulty_str(difficulty: i8) -> (s: &'static str)
    ensures
        s@ == difficulty_lines(difficulty),
{
    match difficulty {
        0 => "||         [EASY(9x9)]        ||\n ||        MEDIUM(16x16)       ||\n ||         HARD(25x25)        ||\n ||     ~~~~#MINES: 10~~~~     ||",
        1 => "||          EASY(9x9)         ||\n ||       [MEDIUM(16x16)]      ||\n ||         HARD(25x25)        ||\n ||     ~~~~#MINES: 50~~~~     ||",
        _ => "||          EASY(9x9)         ||\n ||        MEDIUM(16x16)       ||\n ||        [HARD(25x25)]       ||\n ||     ~~~~#MINES:100~~~~     ||",
    }
}

fn push_menu_head(s: &mut String)
    ensures
        final(s)@ == old(s)@ + menu_head(),
{
    s.append(" OO============================OO\n");
    s.append(" || **** MINESWEEPER v0.2 **** ||\n");
    s.append(" || -----------o00o----------- ||\n");
    s.append(" ||     VERSION 0.1. BY D.     ||\n");
    s.append(" || -------------------------- ||\n");
    assert(final(s)@ =~= old(s)@ + menu_head());
}

/// The text of the main menu, one line per menu line.
pub fn main_menu_text(difficulty: i8) -> (s: String)
    ensures
        s@ == main_menu(difficulty),
{
    let mut s = String::new();
    push_menu_head(&mut s);
    s.append(" ||     ****DIFFICULTY****     ||\n");
    s.append(" ");
    s.append(difficulty_str(difficulty));
    s.append("\n");
    s.append(" || -------------------------- ||\n");
    s.append(" || [ENTER] Start / Open cell  ||\n");
    s.append(" || [^][v][<][>] Move cursor   ||\n");
    s.append(" || [F] Flag selected cell     ||\n");
    s.append(" || [C] Custom mode            ||\n");
    s.append(" || [Q] Quit game              ||\n");
    s.append(" OO============================OO\n");
    assert(s@ =~= main_menu(difficulty));
    s
}

// ---- the custom mode menu ----
/// The start of an entry line of the custom mode menu: marked when selected.
pub open spec fn entry_mark(selected: bool) -> Seq<char> {
    if selected {
        " ||>"@
    } else {
        " || "@
    }
}

/// The custom mode menu for `menu`.
pub open spec fn custom_menu(menu: Menu) -> Seq<char> {
    menu_head() + " ||     ***CUSTOM  MODE***     ||\n"@ + entry_mark(menu.choice == 0) + "# OF ROW(S) (2 to 50): "@
        + zero_padded(menu.table_size[0] as nat, 2) + "  ||\n"@ + entry_mark(menu.choice == 1)
        + "# OF COL(S) (2 to 50): "@ + zero_padded(menu.table_size[1] as nat, 2) + "  ||\n"@ + entry_mark(
        menu.choice != 0 && menu.choice != 1,
    ) + "# OF MINE(S)(1 to ROW*COL):||\n"@ + " ||(DEFAULT: 0.2 * #CELLS) "@ + zero_padded(
        menu.mines_count as nat,
        4,
    ) + "||\n"@ + " || -------------------------- ||\n"@ + " || [ENTER] Start game /       ||\n"@
        + " ||         Open selected cell ||\n"@ + " || [<][>] Select entry        ||\n"@
        + " || [^][v] Incr/Decr value     ||\n"@ + " || [Q] Return & Discard all   ||\n"@
        + " OO============================OO\n"@
}

fn push_entry_mark(s: &mut String, selected: bool)
    ensures
        final(s)@ == old(s)@ + entry_mark(selected),
{
    if selected {
        s.append(" ||>");
    } else {
        s.append(" || ");
    }
}

/// The text of the custom mode menu.
pub fn custom_menu_text(menu: &Menu) -> (s: String)
    requires
        menu.wf(),
    ensures
        s@ == custom_menu(*menu),
{
    let mut s = String::new();
    push_menu_head(&mut s);
    s.append(" ||     ***CUSTOM  MODE***     ||\n");
    push_entry_mark(&mut s, menu.choice == 0);
    s.append("# OF ROW(S) (2 to 50): ");
    push_padded(&mut s, menu.table_size[0] as u64, 2);
    s.append("  ||\n");
    push_entry_mark(&mut s, menu.choice == 1);
    s.append("# OF COL(S) (2 to 50): ");
    push_padded(&mut s, menu.table_size[1] as u64, 2);
    s.append("  ||\n");
    push_entry_mark(&mut s, menu.choice != 0 && menu.choice != 1);
    s.append("# OF MINE(S)(1 to ROW*COL):||\n");
    s.append(" ||(DEFAULT: 0.2 * #CELLS) ");
    push_padded(&mut s, menu.mines_count as u64, 4);
    s.append("||\n");
    s.append(" || -------------------------- ||\n");
    s.append(" || [ENTER] Start game /       ||\n");
    s.append(" ||         Open selected cell ||\n");
    s.append(" || [<][>] Select entry        ||\n");
    s.append(" || [^][v] Incr/Decr value     ||\n");
    s.append(" || [Q] Return & Discard all   ||\n");
    s.append(" OO============================OO\n");
    assert(s@ =~= custom_menu(*menu));
    s
}

// ---- the board ----
/// The column numbers of the board's first line: ` 00 01 ...` for `n` columns.
pub open spec fn column_header(n: nat) -> Seq<char>
    decreases n,
{
    if n == 0 {
        Seq::empty()
    } else {
        column_header((n - 1) as nat) + " "@ + zero_padded((n - 1) as nat, 2)
    }
}

/// `---` repeated `n` times.
pub open spec fn dashes(n: nat) -> Seq<char>
    decreases n,
{
    if n == 0 {
        Seq::empty()
    } else {
        dashes((n - 1) as nat) + "---"@
    }
}

/// How the cell `(r, c)` is drawn: its visible text between spaces, or
/// between brackets under the cursor; when `reveal`, `Q` for a mine and `_`
/// for any other cell.
pub open spec fn cell_picture(game: Game, reveal: bool, r: int, c: int) -> Seq<char> {
    if !reveal {
        if r == game.coor[0] && c == game.coor[1] {
            "["@ + game.shown()[r][c] + "]"@
        } else {
            " "@ + game.shown()[r][c] + " "@
        }
    } else if game.board()[r][c] == Cell::HasMine {
        " Q "@
    } else {
        " _ "@
    }
}

/// The first `n` cells of row `r`, drawn.
pub open spec fn row_picture(game: Game, reveal: bool, r: int, n: nat) -> Seq<char>
    decreases n,
{
    if n == 0 {
        Seq::empty()
    } else {
        row_picture(game, reveal, r, (n - 1) as nat) + cell_picture(game, reveal, r, n - 1)
    }
}

/// The first `n` rows, each as its number, ` | `, its cells and a line break.
pub open spec fn rows_picture(game: Game, reveal: bool, n: nat) -> Seq<char>
    decreases n,
{
    if n == 0 {
        Seq::empty()
    } else {
        rows_picture(game, reveal, (n - 1) as nat) + zero_padded((n - 1) as nat, 2) + " | "@ + row_picture(
            game,
            reveal,
            n - 1,
            game.table_size[1] as nat,
        ) + "\n"@
    }
}

/// The whole screen of a game: column numbers, a rule, the rows, a rule and
/// the status line with the cursor and the count of unopened or flagged cells.
pub open spec fn table_picture(game: Game, reveal: bool) -> Seq<char> {
    "\r^_^|"@ + column_header(game.table_size[1] as nat) + "\n---+"@ + dashes(game.table_size[1] as nat) + "\n"@
        + rows_picture(game, reveal, game.table_size[0] as nat) + "--------------------------------\n"@ + "["@
        + zero_padded(game.coor[0] as nat, 2) + ":"@ + zero_padded(game.coor[1] as nat, 2)
        + "] | Unopened / Flagged: "@ + zero_padded(game.unopened_count as nat, 2) + "\n"@
}

/// Draws the board: the visible cells with the cursor, or, when `reveal`,
/// where the mines are.
pub fn render_table(game: &Game, reveal: bool) -> (s: String)
    requires
        game.wf(),
    ensures
        s@ == table_picture(*game, reveal),
{
    let rows = game.table_size[0];
    let cols = game.table_size[1];
    // The borders and indices
    let mut s = String::new();
    s.append("\r^_^|");
    let ghost start = s@;
    let mut j: usize = 0;
    while j < cols
        invariant
            j <= cols,
            s@ == start + column_header(j as nat),
        decreases cols - j,
    {
        s.append(" ");
        push_padded(&mut s, j as u64, 2);
        assert(s@ =~= start + column_header((j + 1) as nat));
        j += 1;
    }
    s.append("\n---+");
    let ghost start = s@;
    let mut j: usize = 0;
    while j < cols
        invariant
            j <= cols,
            s@ == start + dashes(j as nat),
        decreases cols - j,
    {
        s.append("---");
        assert(s@ =~= start + dashes((j + 1) as nat));
        j += 1;
    }
    s.append("\n");
    // The (masked) cells
    let ghost start = s@;
    let mut i: usize = 0;
    while i < rows
        invariant
            game.wf(),
            rows == game.table_size[0],
            cols == game.table_size[1],
            i <= rows,
            s@ == start + rows_picture(*game, reveal, i as nat),
        decreases rows - i,
    {
        let ghost row_start = s@;
        push_padded(&mut s, i as u64, 2);
        s.append(" | ");
        let ghost cells_start = s@;
        assert(game.table@[i as int]@.len() == cols) by {
            assert(game.shown()[i as int].len() == cols);
        }
        assert(game.ref_table@[i as int]@.len() == cols) by {
            assert(game.board()[i as int].len() == cols);
        }
        let mut j: usize = 0;
        while j < cols
            invariant
                game.wf(),
                rows == game.table_size[0],
                cols == game.table_size[1],
                i < rows,
                j <= cols,
                game.table@[i as int]@.len() == cols,
                game.ref_table@[i as int]@.len() == cols,
                s@ == cells_start + row_picture(*game, reveal, i as int, j as nat),
            decreases cols - j,
        {
            let ghost before = s@;
            assert(game.shown()[i as int][j as int] == game.table@[i as int]@[j as int]@);
            assert(game.board()[i as int][j as int] == game.ref_table@[i as int]@[j as int]);
            if !reveal {
                if i == game.coor[0] && j == game.coor[1] {
                    s.append("[");
                    s.append(game.table[i][j].as_str());
                    s.append("]");
                } else {
                    s.append(" ");
                    s.append(game.table[i][j].as_str());
                    s.append(" ");
                }
            } else {
                if game.ref_table[i][j] == Cell::HasMine {
                    s.append(" Q ");
                } else {
                    s.append(" _ ");
                }
            }
            assert(s@ =~= before + cell_picture(*game, reveal, i as int, j as int));
            assert(s@ =~= cells_start + row_picture(*game, reveal, i as int, (j + 1) as nat));
            j += 1;
        }
        s.append("\n");
        assert(s@ =~= start + rows_picture(*game, reveal, (i + 1) as nat));
        i += 1;
    }
    // The bottom
    s.append("--------------------------------\n");
    s.append("[");
    push_padded(&mut s, game.coor[0] as u64, 2);
    s.append(":");
    push_padded(&mut s, game.coor[1] as u64, 2);
    s.append("] | Unopened / Flagged: ");
    push_padded(&mut s, game.unopened_count as u64, 2);
    s.append("\n");
    assert(s@ =~= table_picture(*game, reveal));
    s
}

// ---- the board as a list, for debugging ----
/// The first `n` cells of a row of the hidden board: `'Q',` for a mine, `'_',` else.
pub open spec fn dump_row(row: Seq<Cell>, n: nat) -> Seq<char>
    decreases n,
{
    if n == 0 {
        Seq::empty()
    } else {
        dump_row(row, (n - 1) as nat) + if row[n - 1] == Cell::HasMine {
            "'Q',"@
        } else {
            "'_',"@
        }
    }
}

/// The first `n` rows of the hidden board, each between brackets and ended by `,` and a line break.
pub open spec fn dump_rows(g: Seq<Seq<Cell>>, cols: nat, n: nat) -> Seq<char>
    decreases n,
{
    if n == 0 {
        Seq::empty()
    } else {
        dump_rows(g, cols, (n - 1) as nat) + "["@ + dump_row(g[n - 1], cols) + "],\n"@
    }
}

/// Where the mines lie, as a list of rows between brackets.
pub open spec fn mines_picture(game: Game) -> Seq<char> {
    "["@ + dump_rows(game.board(), game.table_size[1] as nat, game.table_size[0] as nat) + "]"@
}

/// Lists where the mines lie, row by row.
pub fn debug_dump(game: &Game) -> (s: String)
    requires
        game.wf(),
    ensures
        s@ == mines_picture(*game),
{
    let rows = game.table_size[0];
    let cols = game.table_size[1];
    let mut s = String::new();
    s.append("[");
    let ghost start = s@;
    let mut i: usize = 0;
    while i < rows
        invariant
            game.wf(),
            rows == game.table_size[0],
            cols == game.table_size[1],
            i <= rows,
            s@ == start + dump_rows(game.board(), cols as nat, i as nat),
        decreases rows - i,
    {
        s.append("[");
        let ghost cells_start = s@;
        assert(game.ref_table@[i as int]@.len() == cols) by {
            assert(game.board()[i as int].len() == cols);
        }
        assert(game.board()[i as int] == game.ref_table@[i as int]@);
        let mut j: usize = 0;
        while j < cols
            invariant
                game.wf(),
                rows == game.table_size[0],
                cols == game.table_size[1],
                i < rows,
                j <= cols,
                game.ref_table@[i as int]@.len() == cols,
                game.board()[i as int] == game.ref_table@[i as int]@,
                s@ == cells_start + dump_row(game.board()[i as int], j as nat),
            decreases cols - j,
        {
            if game.ref_table[i][j] == Cell::HasMine {
                s.append("'Q',");
            } else {
                s.append("'_',");
            }
            assert(s@ =~= cells_start + dump_row(game.board()[i as int], (j + 1) as nat));
            j += 1;
        }
        s.append("],\n");
        assert(s@ =~= start + dump_rows(game.board(), cols as nat, (i + 1) as nat));
        i += 1;
    }
    s.append("]");
    assert(s@ =~= mines_picture(*game));
    s
}

/// The custom mode menu marks exactly one entry line with `>`, the one of the
/// selected entry (0 rows, 1 columns, 2 mines), and shows the rows, the
/// columns (two digits each) and the mines (four digits) chosen.
#[verifier::rlimit(40)]
pub proof fn lemma_custom_menu_marks_choice(menu: Menu)
    requires
        menu.wf(),
    ensures
        custom_menu(menu)[207] == (if menu.choice == 0 { '>' } else { ' ' }),
        custom_menu(menu)[241] == (if menu.choice == 1 { '>' } else { ' ' }),
        custom_menu(menu)[275] == (if menu.choice == 2 { '>' } else { ' ' }),
        custom_menu(menu)[231] == code_digit((menu.table_size[0] / 10) as int),
        custom_menu(menu)[232] == code_digit((menu.table_size[0] % 10) as int),
        custom_menu(menu)[265] == code_digit((menu.table_size[1] / 10) as int),
        custom_menu(menu)[266] == code_digit((menu.table_size[1] % 10) as int),
        custom_menu(menu)[333] == code_digit(menu.mines_count / 1000),
        custom_menu(menu)[334] == code_digit(menu.mines_count / 100 % 10),
        custom_menu(menu)[335] == code_digit(menu.mines_count / 10 % 10),
        custom_menu(menu)[336] == code_digit((menu.mines_count % 10) as int),
{
    lemma_padded_two(menu.table_size[0] as nat);
    lemma_padded_two(menu.table_size[1] as nat);
    lemma_padded_four(menu.mines_count as nat);
    reveal_strlit(" OO============================OO\n");
    reveal_strlit(" || **** MINESWEEPER v0.2 **** ||\n");
    reveal_strlit(" || -----------o00o----------- ||\n");
    reveal_strlit(" ||     VERSION 0.1. BY D.     ||\n");
    reveal_strlit(" || -------------------------- ||\n");
    reveal_strlit(" ||     ***CUSTOM  MODE***     ||\n");
    reveal_strlit(" ||>");
    reveal_strlit(" || ");
    reveal_strlit("# OF ROW(S) (2 to 50): ");
    reveal_strlit("  ||\n");
    reveal_strlit("# OF COL(S) (2 to 50): ");
    reveal_strlit("# OF MINE(S)(1 to ROW*COL):||\n");
    reveal_strlit(" ||(DEFAULT: 0.2 * #CELLS) ");
    let head = menu_head();
    assert(head.len() == 170);
    let m0 = entry_mark(menu.choice == 0);
    let m1 = entry_mark(menu.choice == 1);
    let m2 = entry_mark(menu.choice != 0 && menu.choice != 1);
    let a = head + " ||     ***CUSTOM  MODE***     ||\n"@;
    let b = a + m0;
    let c = b + "# OF ROW(S) (2 to 50): "@;
    let d = c + zero_padded(menu.table_size[0] as nat, 2);
    let e = d + "  ||\n"@ + m1;
    let f = e + "# OF COL(S) (2 to 50): "@;
    let g = f + zero_padded(menu.table_size[1] as nat, 2);
    let h = g + "  ||\n"@ + m2;
    let i = h + "# OF MINE(S)(1 to ROW*COL):||\n"@ + " ||(DEFAULT: 0.2 * #CELLS) "@;
    let j = i + zero_padded(menu.mines_count as nat, 4);
    assert(a.len() == 204);
    assert(b.len() == 208 && b[207] == m0[3]);
    assert(d.len() == 233 && d[231] == zero_padded(menu.table_size[0] as nat, 2)[0] && d[232] == zero_padded(
        menu.table_size[0] as nat,
        2,
    )[1]);
    assert(e.len() == 242 && e[241] == m1[3]);
    assert(g.len() == 267 && g[265] == zero_padded(menu.table_size[1] as nat, 2)[0] && g[266] == zero_padded(
        menu.table_size[1] as nat,
        2,
    )[1]);
    assert(h.len() == 276 && h[275] == m2[3]);
    assert(i.len() == 333);
    assert(j.len() == 337);
    assert(j[333] == zero_padded(menu.mines_count as nat, 4)[0]);
    assert(j[334] == zero_padded(menu.mines_count as nat, 4)[1]);
    assert(j[335] == zero_padded(menu.mines_count as nat, 4)[2]);
    assert(j[336] == zero_padded(menu.mines_count as nat, 4)[3]);
    let whole = custom_menu(menu);
    assert(whole.len() >= 337);
    assert(whole.subrange(0, 337) =~= j);
    assert(whole[207] == j[207]);
    assert(whole[241] == j[241]);
    assert(whole[275] == j[275]);
    assert(whole[231] == j[231]);
    assert(whole[232] == j[232]);
    assert(whole[265] == j[265]);
    assert(whole[266] == j[266]);
    assert(whole[333] == j[333]);
    assert(whole[334] == j[334]);
    assert(whole[335] == j[335]);
    assert(whole[336] == j[336]);
}

/// The main menu for difficulty `d` (0 easy, 1 medium, 2 hard) brackets the
/// line of `d` only, shows each difficulty's board size, and announces the
/// number of mines that a game of difficulty `d` gets, right-aligned in three
/// characters after `#MINES:`.
#[verifier::rlimit(40)]
pub proof fn lemma_main_menu_matches_settings(d: i8, custom_size: usize, custom_mines: i16)
    requires
        0 <= d <= 2,
    ensures
        main_menu(d)[216] == '[' <==> d == 0,
        main_menu(d)[248] == '[' <==> d == 1,
        main_menu(d)[283] == '[' <==> d == 2,
        main_menu(d)[222] == code_digit(size_for(0, custom_size) as int),
        main_menu(d)[223] == 'x',
        main_menu(d)[224] == code_digit(size_for(0, custom_size) as int),
        main_menu(d)[256] == code_digit(size_for(1, custom_size) as int / 10),
        main_menu(d)[257] == code_digit(size_for(1, custom_size) as int % 10),
        main_menu(d)[258] == 'x',
        main_menu(d)[259] == code_digit(size_for(1, custom_size) as int / 10),
        main_menu(d)[260] == code_digit(size_for(1, custom_size) as int % 10),
        main_menu(d)[289] == code_digit(size_for(2, custom_size) as int / 10),
        main_menu(d)[290] == code_digit(size_for(2, custom_size) as int % 10),
        main_menu(d)[291] == 'x',
        main_menu(d)[292] == code_digit(size_for(2, custom_size) as int / 10),
        main_menu(d)[293] == code_digit(size_for(2, custom_size) as int % 10),
        main_menu(d).subrange(318, 325) == "#MINES:"@,
        ({
            let n = mines_for(size_for(d as int, custom_size), false, custom_mines) as int;
            &&& main_menu(d)[325] == (if n >= 100 { code_digit(n / 100) } else { ' ' })
            &&& main_menu(d)[326] == (if n >= 10 { code_digit(n / 10 % 10) } else { ' ' })
            &&& main_menu(d)[327] == code_digit(n % 10)
        }),
{
    reveal_strlit(" OO============================OO\n");
    reveal_strlit(" || **** MINESWEEPER v0.2 **** ||\n");
    reveal_strlit(" || -----------o00o----------- ||\n");
    reveal_strlit(" ||     VERSION 0.1. BY D.     ||\n");
    reveal_strlit(" || -------------------------- ||\n");
    reveal_strlit(" ||     ****DIFFICULTY****     ||\n");
    reveal_strlit(" ");
    reveal_strlit("#MINES:");
    reveal_strlit(
        "||         [EASY(9x9)]        ||\n ||        MEDIUM(16x16)       ||\n ||         HARD(25x25)        ||\n ||     ~~~~#MINES: 10~~~~     ||",
    );
    reveal_strlit(
        "||          EASY(9x9)         ||\n ||       [MEDIUM(16x16)]      ||\n ||         HARD(25x25)        ||\n ||     ~~~~#MINES: 50~~~~     ||",
    );
    reveal_strlit(
        "||          EASY(9x9)         ||\n ||        MEDIUM(16x16)       ||\n ||        [HARD(25x25)]       ||\n ||     ~~~~#MINES:100~~~~     ||",
    );
    let head = menu_head();
    let a = head + " ||     ****DIFFICULTY****     ||\n"@ + " "@;
    let block = difficulty_lines(d);
    let b = a + block;
    assert(a.len() == 205);
    assert(block.len() == 134);
    let whole = main_menu(d);
    assert(whole.subrange(0, 339) =~= b);
    assert forall|i: int| 205 <= i < 339 implies #[trigger] whole[i] == block[i - 205] by {
        assert(whole[i] == b[i]);
    }
    assert(whole.subrange(318, 325) =~= "#MINES:"@);
}

/// Characters of the row or column number `k` on the board screen.
pub open spec fn label_width(k: int) -> int {
    if k < 100 {
        2
    } else {
        3
    }
}

/// Where the drawing of cell `(r, c)` starts on the board screen of a board
/// with `cols` columns: after the 5-character corner, a space and a number per
/// column, a line break with `---+`, `---` per column and a line break, then
/// for each row before `r` its number, ` | `, three characters per cell and a
/// line break, then the number of row `r` and ` | `.
pub open spec fn cell_offset(cols: int, r: int, c: int) -> int {
    let header = 5 + 3 * cols + (if cols > 100 { cols - 100 } else { 0 }) + 5 + 3 * cols + 1;
    let before = r * (6 + 3 * cols) + (if r > 100 { r - 100 } else { 0 });
    header + before + label_width(r) + 3 + 3 * c
}

proof fn lemma_column_header_len(n: nat)
    requires
        n <= 1000,
    ensures
        column_header(n).len() == 3 * n + (if n > 100 { n - 100 } else { 0 }),
    decreases n,
{
    if n > 0 {
        lemma_column_header_len((n - 1) as nat);
        lemma_padded_two_len((n - 1) as nat);
        reveal_strlit(" ");
    }
}

proof fn lemma_dashes_len(n: nat)
    ensures
        dashes(n).len() == 3 * n,
    decreases n,
{
    if n > 0 {
        lemma_dashes_len((n - 1) as nat);
        reveal_strlit("---");
    }
}

proof fn lemma_cell_picture(game: Game, reveal: bool, r: int, c: int)
    requires
        game.wf(),
        single_chars(game),
        in_bounds(game.rows(), game.cols(), r, c),
    ensures
        cell_picture(game, reveal, r, c).len() == 3,
{
    reveal_strlit("[");
    reveal_strlit("]");
    reveal_strlit(" ");
    reveal_strlit(" Q ");
    reveal_strlit(" _ ");
    assert(game.shown()[r][c].len() == 1);
}

proof fn lemma_row_picture(game: Game, reveal: bool, r: int, n: nat, m: nat)
    requires
        game.wf(),
        single_chars(game),
        0 <= r < game.rows(),
        m <= n <= game.cols(),
    ensures
        row_picture(game, reveal, r, n).len() == 3 * n,
        forall|i: int| 0 <= i < 3 * m ==> #[trigger] row_picture(game, reveal, r, n)[i] == row_picture(game, reveal, r, m)[i],
    decreases n,
{
    if n > 0 {
        lemma_cell_picture(game, reveal, r, n - 1);
        if m < n {
            lemma_row_picture(game, reveal, r, (n - 1) as nat, m);
        } else {
            lemma_row_picture(game, reveal, r, (n - 1) as nat, (n - 1) as nat);
        }
    }
}

proof fn lemma_rows_picture(game: Game, reveal: bool, n: nat, m: nat)
    requires
        game.wf(),
        single_chars(game),
        m <= n <= game.rows(),
    ensures
        rows_picture(game, reveal, n).len() == n * (6 + 3 * game.cols()) + (if n > 100 { n - 100 } else { 0 }),
        forall|i: int| 0 <= i < rows_picture(game, reveal, m).len() ==> #[trigger] rows_picture(game, reveal, n)[i]
            == rows_picture(game, reveal, m)[i],
    decreases n,
{
    let cols = game.cols();
    if n > 0 {
        if m < n {
            lemma_rows_picture(game, reveal, (n - 1) as nat, m);
            lemma_rows_picture(game, reveal, m, m);
            assert(m * (6 + 3 * cols) <= (n - 1) * (6 + 3 * cols)) by (nonlinear_arith)
                requires
                    m <= n - 1,
                    0 <= cols,
            ;
        } else {
            lemma_rows_picture(game, reveal, (n - 1) as nat, (n - 1) as nat);
        }
        lemma_padded_two_len((n - 1) as nat);
        lemma_row_picture(game, reveal, n - 1, cols as nat, cols as nat);
        reveal_strlit(" | ");
        reveal_strlit("\n");
        assert((n - 1) * (6 + 3 * cols) + (6 + 3 * cols) == n * (6 + 3 * cols)) by (nonlinear_arith);
        let prev = rows_picture(game, reveal, (n - 1) as nat);
        assert(rows_picture(game, reveal, n) == prev + zero_padded((n - 1) as nat, 2) + " | "@ + row_picture(
            game,
            reveal,
            n - 1,
            cols as nat,
        ) + "\n"@);
        assert forall|i: int| 0 <= i < prev.len() implies #[trigger] rows_picture(game, reveal, n)[i] == prev[i] by {}
    }
}

/// Inside the rows of the board screen, cell `(r, c)` starts after `r` rows,
/// the number of row `r` and ` | `, and three characters per cell before it.
proof fn lemma_rows_cell(game: Game, reveal: bool, r: int, c: int, j: int)
    requires
        game.wf(),
        single_chars(game),
        in_bounds(game.rows(), game.cols(), r, c),
        0 <= j < 3,
    ensures
        ({
            let x = r * (6 + 3 * game.cols()) + (if r > 100 { r - 100 } else { 0 }) + label_width(r) + 3 + 3 * c;
            &&& x + j < rows_picture(game, reveal, game.rows() as nat).len()
            &&& rows_picture(game, reveal, game.rows() as nat)[x + j] == cell_picture(game, reveal, r, c)[j]
        }),
{
    let rows = game.rows();
    let cols = game.cols();
    reveal_strlit(" | ");
    reveal_strlit("\n");
    lemma_rows_picture(game, reveal, rows as nat, (r + 1) as nat);
    lemma_rows_picture(game, reveal, (r + 1) as nat, (r + 1) as nat);
    lemma_rows_picture(game, reveal, r as nat, r as nat);
    lemma_padded_two_len(r as nat);
    lemma_row_picture(game, reveal, r, cols as nat, (c + 1) as nat);
    lemma_row_picture(game, reveal, r, (c + 1) as nat, c as nat);
    lemma_cell_picture(game, reveal, r, c);
    let all = rows_picture(game, reveal, rows as nat);
    let upto = rows_picture(game, reveal, (r + 1) as nat);
    let before = rows_picture(game, reveal, r as nat);
    let label = zero_padded(r as nat, 2);
    let row = row_picture(game, reveal, r, cols as nat);
    let cell = cell_picture(game, reveal, r, c);
    assert(upto == before + label + " | "@ + row + "\n"@);
    let x = before.len() + label.len() + 3 + 3 * c;
    assert(x + j < upto.len());
    let k = 6 + 3 * cols;
    assert((r + 1) * k <= rows * k) by (nonlinear_arith)
        requires
            r + 1 <= rows,
            0 <= k,
    ;
    assert(upto.len() <= all.len());
    assert(row_picture(game, reveal, r, (c + 1) as nat) == row_picture(game, reveal, r, c as nat) + cell);
    assert(row[3 * c + j] == row_picture(game, reveal, r, (c + 1) as nat)[3 * c + j]);
    assert(upto[x + j] == row[3 * c + j]);
    assert(all[x + j] == upto[x + j]);
}

/// The rows of the board screen come after its two header lines.
proof fn lemma_picture_rows_at(game: Game, reveal: bool, y: int)
    requires
        game.wf(),
        0 <= y < rows_picture(game, reveal, game.rows() as nat).len(),
    ensures
        table_picture(game, reveal)[cell_offset(game.cols(), 0, 0) - label_width(0) - 3 + y] == rows_picture(
            game,
            reveal,
            game.rows() as nat,
        )[y],
{
    let cols = game.cols();
    reveal_strlit("\r^_^|");
    reveal_strlit("\n---+");
    reveal_strlit("\n");
    lemma_column_header_len(cols as nat);
    lemma_dashes_len(cols as nat);
    let p = "\r^_^|"@ + column_header(cols as nat) + "\n---+"@ + dashes(cols as nat) + "\n"@;
    let all = rows_picture(game, reveal, game.rows() as nat);
    let rest = "--------------------------------\n"@ + "["@ + zero_padded(game.coor[0] as nat, 2) + ":"@ + zero_padded(
        game.coor[1] as nat,
        2,
    ) + "] | Unopened / Flagged: "@ + zero_padded(game.unopened_count as nat, 2) + "\n"@;
    assert(table_picture(game, reveal) =~= p + all + rest);
    assert((p + all + rest)[p.len() + y] == all[y]);
}

/// On the board screen, cell `(r, c)` is drawn as three characters at
/// `cell_offset`: without `reveal`, its visible text between brackets when
/// the cursor is on it (row `coor[0]`, column `coor[1]`) and between spaces
/// otherwise; with `reveal`, `Q` for a mine and `_` for any other cell,
/// between spaces.
#[verifier::rlimit(40)]
pub proof fn lemma_board_cell_drawn(game: Game, reveal: bool, r: int, c: int)
    requires
        game.wf(),
        single_chars(game),
        in_bounds(game.rows(), game.cols(), r, c),
    ensures
        ({
            let s = table_picture(game, reveal);
            let o = cell_offset(game.cols(), r, c);
            let here = !reveal && r == game.coor[0] && c == game.coor[1];
            &&& s[o] == (if here { '[' } else { ' ' })
            &&& s[o + 1] == (if !reveal { game.shown()[r][c][0] } else if game.board()[r][c] == Cell::HasMine {
                'Q'
            } else {
                '_'
            })
            &&& s[o + 2] == (if here { ']' } else { ' ' })
        }),
{
    let cols = game.cols();
    let x = r * (6 + 3 * cols) + (if r > 100 { r - 100 } else { 0 }) + label_width(r) + 3 + 3 * c;
    lemma_rows_cell(game, reveal, r, c, 0);
    lemma_rows_cell(game, reveal, r, c, 1);
    lemma_rows_cell(game, reveal, r, c, 2);
    lemma_picture_rows_at(game, reveal, x);
    lemma_picture_rows_at(game, reveal, x + 1);
    lemma_picture_rows_at(game, reveal, x + 2);
    assert(cell_offset(cols, 0, 0) - label_width(0) - 3 + x == cell_offset(cols, r, c));
    reveal_strlit("[");
    reveal_strlit("]");
    reveal_strlit(" ");
    reveal_strlit(" Q ");
    reveal_strlit(" _ ");
}

/// Each row of the board screen starts with its number, two digits below
/// 100, followed by ` | `.
pub proof fn lemma_board_row_number(game: Game, reveal: bool, r: int)
    requires
        game.wf(),
        single_chars(game),
        0 <= r < game.rows(),
        r < 100,
    ensures
        ({
            let s = table_picture(game, reveal);
            let o = cell_offset(game.cols(), r, 0);
            &&& s[o - 5] == code_digit(r / 10)
            &&& s[o - 4] == code_digit(r % 10)
            &&& s[o - 3] == ' ' && s[o - 2] == '|' && s[o - 1] == ' '
        }),
{
    let rows = game.rows();
    let cols = game.cols();
    reveal_strlit(" | ");
    reveal_strlit("\n");
    lemma_rows_picture(game, reveal, rows as nat, (r + 1) as nat);
    lemma_rows_picture(game, reveal, (r + 1) as nat, (r + 1) as nat);
    lemma_rows_picture(game, reveal, r as nat, r as nat);
    lemma_padded_two(r as nat);
    lemma_row_picture(game, reveal, r, cols as nat, cols as nat);
    let all = rows_picture(game, reveal, rows as nat);
    let upto = rows_picture(game, reveal, (r + 1) as nat);
    let before = rows_picture(game, reveal, r as nat);
    let label = zero_padded(r as nat, 2);
    let row = row_picture(game, reveal, r, cols as nat);
    assert(upto == before + label + " | "@ + row + "\n"@);
    let k = 6 + 3 * cols;
    assert((r + 1) * k <= rows * k) by (nonlinear_arith)
        requires
            r + 1 <= rows,
            0 <= k,
    ;
    let x = before.len() as int;
    assert forall|j: int| 0 <= j < 5 implies #[trigger] all[x + j] == upto[x + j] by {}
    let base = cell_offset(cols, 0, 0) - label_width(0) - 3;
    assert(base + x + 5 == cell_offset(cols, r, 0));
    lemma_picture_rows_at(game, reveal, x);
    lemma_picture_rows_at(game, reveal, x + 1);
    lemma_picture_rows_at(game, reveal, x + 2);
    lemma_picture_rows_at(game, reveal, x + 3);
    lemma_picture_rows_at(game, reveal, x + 4);
    assert(all[x] == upto[x]);
    assert(all[x + 1] == upto[x + 1]);
    assert(all[x + 2] == upto[x + 2]);
    assert(all[x + 3] == upto[x + 3]);
    assert(all[x + 4] == upto[x + 4]);
}

/// Where the mark of cell `(r, c)` lies in the mine list: after `[`, `r`
/// rows of `[`, four characters per cell and `],` with a line break, then `[`
/// and four characters per cell before it, then the opening quote.
pub open spec fn dump_offset(cols: int, r: int, c: int) -> int {
    1 + r * (4 * cols + 4) + 1 + 4 * c + 1
}

proof fn lemma_dump_row(row: Seq<Cell>, n: nat, m: nat)
    requires
        m <= n <= row.len(),
    ensures
        dump_row(row, n).len() == 4 * n,
        forall|i: int| 0 <= i < 4 * m ==> #[trigger] dump_row(row, n)[i] == dump_row(row, m)[i],
    decreases n,
{
    reveal_strlit("'Q',");
    reveal_strlit("'_',");
    if n > 0 {
        if m < n {
            lemma_dump_row(row, (n - 1) as nat, m);
        } else {
            lemma_dump_row(row, (n - 1) as nat, (n - 1) as nat);
        }
    }
}

proof fn lemma_dump_rows(g: Seq<Seq<Cell>>, cols: nat, n: nat, m: nat)
    requires
        m <= n <= g.len(),
        forall|k: int| 0 <= k < g.len() ==> #[trigger] g[k].len() == cols,
    ensures
        dump_rows(g, cols, n).len() == n * (4 * cols + 4),
        forall|i: int| 0 <= i < m * (4 * cols + 4) ==> #[trigger] dump_rows(g, cols, n)[i] == dump_rows(g, cols, m)[i],
    decreases n,
{
    reveal_strlit("[");
    reveal_strlit("],\n");
    if n > 0 {
        lemma_dump_row(g[n - 1], cols, cols);
        if m < n {
            lemma_dump_rows(g, cols, (n - 1) as nat, m);
            assert(m * (4 * cols + 4) <= (n - 1) * (4 * cols + 4)) by (nonlinear_arith)
                requires
                    m <= n - 1,
            ;
        } else {
            lemma_dump_rows(g, cols, (n - 1) as nat, (n - 1) as nat);
        }
        assert((n - 1) * (4 * cols + 4) + (4 * cols + 4) == n * (4 * cols + 4)) by (nonlinear_arith);
    }
}

/// The mine list marks cell `(r, c)` with `Q` when it holds a mine and with `_` otherwise.
pub proof fn lemma_mine_list_marks(game: Game, r: int, c: int)
    requires
        game.wf(),
        in_bounds(game.rows(), game.cols(), r, c),
    ensures
        mines_picture(game)[dump_offset(game.cols(), r, c)] == (if game.board()[r][c] == Cell::HasMine {
            'Q'
        } else {
            '_'
        }),
{
    let g = game.board();
    let rows = game.rows();
    let cols = game.cols();
    reveal_strlit("[");
    reveal_strlit("]");
    reveal_strlit("],\n");
    reveal_strlit("'Q',");
    reveal_strlit("'_',");
    lemma_dump_rows(g, cols as nat, rows as nat, (r + 1) as nat);
    lemma_dump_rows(g, cols as nat, (r + 1) as nat, r as nat);
    lemma_dump_rows(g, cols as nat, r as nat, r as nat);
    lemma_dump_row(g[r], cols as nat, (c + 1) as nat);
    lemma_dump_row(g[r], (c + 1) as nat, c as nat);
    let all = dump_rows(g, cols as nat, rows as nat);
    let upto = dump_rows(g, cols as nat, (r + 1) as nat);
    let before = dump_rows(g, cols as nat, r as nat);
    let row = dump_row(g[r], cols as nat);
    assert(upto == before + "["@ + row + "],\n"@);
    let x = r * (4 * cols + 4) + 1 + 4 * c + 1;
    assert((r + 1) * (4 * cols + 4) <= rows * (4 * cols + 4)) by (nonlinear_arith)
        requires
            r + 1 <= rows,
            0 <= cols,
    ;
    assert(dump_row(g[r], (c + 1) as nat) == dump_row(g[r], c as nat) + if g[r][c] == Cell::HasMine {
        "'Q',"@
    } else {
        "'_',"@
    });
    assert(row[4 * c + 1] == dump_row(g[r], (c + 1) as nat)[4 * c + 1]);
    assert(upto[x] == row[4 * c + 1]);
    assert(all[x] == upto[x]);
    assert(mines_picture(game)[1 + x] == all[x]);
}

proof fn lemma_column_header_prefix(n: nat, m: nat)
    requires
        m <= n <= 1000,
    ensures
        forall|i: int| 0 <= i < column_header(m).len() ==> #[trigger] column_header(n)[i] == column_header(m)[i],
    decreases n,
{
    if n > m {
        lemma_column_header_prefix((n - 1) as nat, m);
        lemma_column_header_len((n - 1) as nat);
        lemma_column_header_len(m);
        let prev = column_header((n - 1) as nat);
        assert(column_header(n) == prev + " "@ + zero_padded((n - 1) as nat, 2));
        assert forall|i: int| 0 <= i < prev.len() implies #[trigger] column_header(n)[i] == prev[i] by {}
    }
}

#[verifier::rlimit(40)]
proof fn lemma_picture_starts_with_header(game: Game, reveal: bool)
    ensures
        table_picture(game, reveal).len() >= 5 + column_header(game.table_size[1] as nat).len(),
        table_picture(game, reveal).subrange(0, 5 + column_header(game.table_size[1] as nat).len() as int) == "\r^_^|"@
            + column_header(game.table_size[1] as nat),
{
    reveal_strlit("\r^_^|");
    let a = "\r^_^|"@ + column_header(game.table_size[1] as nat);
    let rest = "\n---+"@ + dashes(game.table_size[1] as nat) + "\n"@ + rows_picture(
        game,
        reveal,
        game.table_size[0] as nat,
    ) + "--------------------------------\n"@ + status_line(game);
    let s = table_picture(game, reveal);
    assert(s =~= a + rest);
    assert(s.subrange(0, a.len() as int) =~= a);
}

/// The first line of the board screen numbers the columns: column `k`
/// (below 100) appears as a space and two digits after the 5-character corner.
#[verifier::rlimit(40)]
pub proof fn lemma_board_column_number(game: Game, reveal: bool, k: int)
    requires
        game.wf(),
        0 <= k < game.cols(),
        k < 100,
    ensures
        ({
            let s = table_picture(game, reveal);
            &&& s[5 + 3 * k] == ' '
            &&& s[5 + 3 * k + 1] == code_digit(k / 10)
            &&& s[5 + 3 * k + 2] == code_digit(k % 10)
        }),
{
    let cols = game.cols();
    reveal_strlit("\r^_^|");
    reveal_strlit(" ");
    lemma_padded_two(k as nat);
    lemma_column_header_prefix(cols as nat, (k + 1) as nat);
    lemma_column_header_len(k as nat);
    lemma_column_header_len((k + 1) as nat);
    lemma_column_header_len(cols as nat);
    let h = column_header(cols as nat);
    let hk = column_header((k + 1) as nat);
    assert(hk == column_header(k as nat) + " "@ + zero_padded(k as nat, 2));
    let s = table_picture(game, reveal);
    let a = "\r^_^|"@ + h;
    lemma_picture_starts_with_header(game, reveal);
    assert forall|j: int| 0 <= j < 3 implies #[trigger] s[5 + 3 * k + j] == hk[3 * k + j] by {
        assert(s.subrange(0, a.len() as int)[5 + 3 * k + j] == a[5 + 3 * k + j]);
        assert(h[3 * k + j] == hk[3 * k + j]);
    }
    assert(s[5 + 3 * k] == hk[3 * k]);
    assert(s[5 + 3 * k + 1] == hk[3 * k + 1]);
    assert(s[5 + 3 * k + 2] == hk[3 * k + 2]);
}

/// The status line at the end of the board screen.
pub open spec fn status_line(game: Game) -> Seq<char> {
    "["@ + zero_padded(game.coor[0] as nat, 2) + ":"@ + zero_padded(game.coor[1] as nat, 2)
        + "] | Unopened / Flagged: "@ + zero_padded(game.unopened_count as nat, 2) + "\n"@
}

#[verifier::rlimit(40)]
proof fn lemma_picture_ends_with_status(game: Game, reveal: bool)
    ensures
        table_picture(game, reveal).len() >= status_line(game).len(),
        table_picture(game, reveal).subrange(
            table_picture(game, reveal).len() - status_line(game).len(),
            table_picture(game, reveal).len() as int,
        ) == status_line(game),
{
    let front = "\r^_^|"@ + column_header(game.table_size[1] as nat) + "\n---+"@ + dashes(game.table_size[1] as nat)
        + "\n"@ + rows_picture(game, reveal, game.table_size[0] as nat) + "--------------------------------\n"@;
    let s = table_picture(game, reveal);
    assert(s =~= front + status_line(game));
    assert(s.subrange(front.len() as int, s.len() as int) =~= status_line(game));
}

/// The last line of the board screen shows the cursor's row and column and
/// the count of cells not opened, two digits each (below 100), as
/// `[rr:cc] | Unopened / Flagged: nn` and a line break.
#[verifier::rlimit(40)]
pub proof fn lemma_board_status(game: Game, reveal: bool)
    requires
        game.wf(),
        game.coor[0] < 100,
        game.coor[1] < 100,
        game.unopened_count < 100,
    ensures
        ({
            let s = table_picture(game, reveal);
            let l = s.len() as int;
            let r0 = game.coor[0] as int;
            let c0 = game.coor[1] as int;
            let u = game.unopened_count as int;
            &&& s[l - 33] == '['
            &&& s[l - 32] == code_digit(r0 / 10)
            &&& s[l - 31] == code_digit(r0 % 10)
            &&& s[l - 30] == ':'
            &&& s[l - 29] == code_digit(c0 / 10)
            &&& s[l - 28] == code_digit(c0 % 10)
            &&& s[l - 27] == ']'
            &&& s[l - 3] == code_digit(u / 10)
            &&& s[l - 2] == code_digit(u % 10)
            &&& s[l - 1] == '\n'
        }),
{
    reveal_strlit("[");
    reveal_strlit(":");
    reveal_strlit("] | Unopened / Flagged: ");
    reveal_strlit("\n");
    lemma_padded_two(game.coor[0] as nat);
    lemma_padded_two(game.coor[1] as nat);
    lemma_padded_two(game.unopened_count as nat);
    lemma_picture_ends_with_status(game, reveal);
    let tail = status_line(game);
    assert(tail.len() == 33);
    let s = table_picture(game, reveal);
    let l = s.len() as int;
    assert forall|j: int| 0 <= j < 33 implies #[trigger] s[l - 33 + j] == tail[j] by {
        assert(s.subrange(l - 33, l)[j] == s[l - 33 + j]);
    }
    assert(s[l - 33] == tail[0]);
    assert(s[l - 32] == tail[1]);
    assert(s[l - 31] == tail[2]);
    assert(s[l - 30] == tail[3]);
    assert(s[l - 29] == tail[4]);
    assert(s[l - 28] == tail[5]);
    assert(s[l - 27] == tail[6]);
    assert(s[l - 3] == tail[30]);
    assert(s[l - 2] == tail[31]);
    assert(s[l - 1] == tail[32]);
}

} // verus!
