use vstd::prelude::*;
use crate::cell::Cell;
use crate::grid::{grid_view, well_shaped, in_bounds, count_rows, count_row, count_cells, set_cell, lemma_count_cells_update};
use crate::rng::{thread_rng, gen_index};

verus! {

/// `(r, c)` is at least three rows and three columns away from `(cr, cc)`.
pub open spec fn far_from(r: int, c: int, cr: int, cc: int) -> bool {
    (r - cr >= 3 || cr - r >= 3) && (c - cc >= 3 || cc - c >= 3)
}

/// A mine may be laid at `(r, c)` when the first click is at `(cr, cc)`:
/// on the board, not the clicked cell, and (out of custom mode) far from it.
pub open spec fn may_hold_mine(rows: int, cols: int, cr: int, cc: int, custom: bool, r: int, c: int) -> bool {
    &&& in_bounds(rows, cols, r, c)
    &&& !(r == cr && c == cc)
    &&& (custom || far_from(r, c, cr, cc))
}

/// The cells counted as mines.
pub open spec fn is_mine() -> spec_fn(int, int, Cell) -> bool {
    |r: int, c: int, x: Cell| x == Cell::HasMine
}

/// The cells where one more mine may be laid.
pub open spec fn mine_slot(rows: int, cols: int, cr: int, cc: int, custom: bool) -> spec_fn(int, int, Cell) -> bool {
    |r: int, c: int, x: Cell| x != Cell::HasMine && may_hold_mine(rows, cols, cr, cc, custom, r, c)
}

/// Number of cells where a mine may be laid.
pub open spec fn slot_count(g: Seq<Seq<Cell>>, rows: int, cols: int, cr: int, cc: int, custom: bool) -> nat {
    count_cells(g, mine_slot(rows, cols, cr, cc, custom))
}

/// `g` is `g0` with `n` more mines, each on a cell that may hold one.
pub open spec fn mines_laid(
    g0: Seq<Seq<Cell>>,
    g: Seq<Seq<Cell>>,
    rows: int,
    cols: int,
    cr: int,
    cc: int,
    custom: bool,
    n: int,
) -> bool {
    &&& well_shaped(g, rows, cols)
    &&& count_cells(g, is_mine()) == count_cells(g0, is_mine()) + n
    &&& forall|r: int, c: int|
        in_bounds(rows, cols, r, c) ==> {
            ||| #[trigger] g[r][c] == g0[r][c]
            ||| (g0[r][c] != Cell::HasMine && g[r][c] == Cell::HasMine && may_hold_mine(
                rows,
                cols,
                cr,
                cc,
                custom,
                r,
                c,
            ))
        }
}

fn may_hold_mine_at(r: usize, c: usize, coor: [usize; 2], custom: bool) -> (b: bool)
    ensures
        b == (!(r == coor[0] && c == coor[1]) && (custom || far_from(
            r as int,
            c as int,
            coor[0] as int,
            coor[1] as int,
        ))),
{
    if r == coor[0] && c == coor[1] {
        return false;
    }
    if custom {
        return true;
    }
    let dr = if r >= coor[0] {
        r - coor[0]
    } else {
        coor[0] - r
    };
    let dc = if c >= coor[1] {
        c - coor[1]
    } else {
        coor[1] - c
    };
    dr >= 3 && dc >= 3
}

/// Every cell where a mine may be laid, row by row.
fn mine_slots(ref_table: &Vec<Vec<Cell>>, table_size: &[usize; 2], coor: [usize; 2], custom: bool) -> (v: Vec<(usize, usize)>)
    requires
        well_shaped(grid_view(ref_table@), table_size[0] as int, table_size[1] as int),
    ensures
        v.len() == slot_count(
            grid_view(ref_table@),
            table_size[0] as int,
            table_size[1] as int,
            coor[0] as int,
            coor[1] as int,
            custom,
        ),
        forall|i: int|
            0 <= i < v.len() ==> {
                let (r, c) = #[trigger] v@[i];
                &&& in_bounds(table_size[0] as int, table_size[1] as int, r as int, c as int)
                &&& grid_view(ref_table@)[r as int][c as int] != Cell::HasMine
                &&& may_hold_mine(
                    table_size[0] as int,
                    table_size[1] as int,
                    coor[0] as int,
                    coor[1] as int,
                    custom,
                    r as int,
                    c as int,
                )
            },
{
    let ghost g = grid_view(ref_table@);
    let ghost rows = table_size[0] as int;
    let ghost cols = table_size[1] as int;
    let ghost f = mine_slot(rows, cols, coor[0] as int, coor[1] as int, custom);
    let mut v: Vec<(usize, usize)> = Vec::new();
    let mut r: usize = 0;
    while r < table_size[0]
        invariant
            g == grid_view(ref_table@),
            rows == table_size[0] as int,
            cols == table_size[1] as int,
            f == mine_slot(rows, cols, coor[0] as int, coor[1] as int, custom),
            well_shaped(g, rows, cols),
            r <= rows,
            v.len() == count_rows(g, f, r as int),
            forall|i: int|
                0 <= i < v.len() ==> {
                    let (x, y) = #[trigger] v@[i];
                    &&& in_bounds(rows, cols, x as int, y as int)
                    &&& g[x as int][y as int] != Cell::HasMine
                    &&& may_hold_mine(rows, cols, coor[0] as int, coor[1] as int, custom, x as int, y as int)
                },
        decreases table_size[0] - r,
    {
        assert(g[r as int].len() == cols);
        assert(ref_table@[r as int]@ == g[r as int]);
        let mut c: usize = 0;
        while c < table_size[1]
            invariant
                g == grid_view(ref_table@),
                rows == table_size[0] as int,
                cols == table_size[1] as int,
                f == mine_slot(rows, cols, coor[0] as int, coor[1] as int, custom),
                well_shaped(g, rows, cols),
                r < rows,
                c <= cols,
                ref_table@[r as int]@ == g[r as int],
                v.len() == count_rows(g, f, r as int) + count_row(g[r as int], r as int, f, c as int),
                forall|i: int|
                    0 <= i < v.len() ==> {
                        let (x, y) = #[trigger] v@[i];
                        &&& in_bounds(rows, cols, x as int, y as int)
                        &&& g[x as int][y as int] != Cell::HasMine
                        &&& may_hold_mine(rows, cols, coor[0] as int, coor[1] as int, custom, x as int, y as int)
                    },
            decreases table_size[1] - c,
        {
            if ref_table[r][c] != Cell::HasMine && may_hold_mine_at(r, c, coor, custom) {
                v.push((r, c));
            }
            c += 1;
        }
        r += 1;
    }
    v
}

/// Counts the cells where a mine may be laid when the first click is at `coor`.
pub fn count_mine_slots(ref_table: &Vec<Vec<Cell>>, table_size: &[usize; 2], coor: [usize; 2], custom: bool) -> (n: usize)
    requires
        well_shaped(grid_view(ref_table@), table_size[0] as int, table_size[1] as int),
    ensures
        n == slot_count(
            grid_view(ref_table@),
            table_size[0] as int,
            table_size[1] as int,
            coor[0] as int,
            coor[1] as int,
            custom,
        ),
{
    mine_slots(ref_table, table_size, coor, custom).len()
}

/// Lays `mines_count` mines at random on cells that may hold one: not the
/// clicked cell `coor`, not a cell that holds a mine already, and, out of
/// custom mode, at least three rows and three columns away from `coor`.
/// Each mine goes to a uniformly chosen cell among those left.
pub fn place_mines(
    ref_table: &mut Vec<Vec<Cell>>,
    table_size: &[usize; 2],
    coor: [usize; 2],
    mines_count: i16,
    custom: bool,
)
    requires
        well_shaped(grid_view(old(ref_table)@), table_size[0] as int, table_size[1] as int),
        mines_count <= slot_count(
            grid_view(old(ref_table)@),
            table_size[0] as int,
            table_size[1] as int,
            coor[0] as int,
            coor[1] as int,
            custom,
        ),
    ensures
        mines_laid(
            grid_view(old(ref_table)@),
            grid_view(final(ref_table)@),
            table_size[0] as int,
            table_size[1] as int,
            coor[0] as int,
            coor[1] as int,
            custom,
            if mines_count > 0 {
                mines_count as int
            } else {
                0
            },
        ),
{
    let ghost g0 = grid_view(ref_table@);
    let ghost rows = table_size[0] as int;
    let ghost cols = table_size[1] as int;
    let ghost cr = coor[0] as int;
    let ghost cc = coor[1] as int;
    let mut random = thread_rng();
    let mut placed: i16 = 0;
    while placed < mines_count
        invariant
            g0 == grid_view(old(ref_table)@),
            rows == table_size[0] as int,
            cols == table_size[1] as int,
            cr == coor[0] as int,
            cc == coor[1] as int,
            0 <= placed,
            placed <= mines_count || placed == 0,
            mines_count <= slot_count(g0, rows, cols, cr, cc, custom),
            mines_laid(g0, grid_view(ref_table@), rows, cols, cr, cc, custom, placed as int),
            slot_count(grid_view(ref_table@), rows, cols, cr, cc, custom) + placed == slot_count(
                g0,
                rows,
                cols,
                cr,
                cc,
                custom,
            ),
        decreases mines_count - placed,
    {
        let ghost g = grid_view(ref_table@);
        let slots = mine_slots(ref_table, table_size, coor, custom);
        let i = gen_index(&mut random, slots.len());
        let (x, y) = slots[i];
        assert(ref_table@[x as int]@ == g[x as int]);
        ref_table[x][y] = Cell::HasMine;
        proof {
            let g2 = grid_view(ref_table@);
            assert(g2 =~= set_cell(g, x as int, y as int, Cell::HasMine));
            lemma_count_cells_update(g, is_mine(), x as int, y as int, Cell::HasMine);
            lemma_count_cells_update(
                g,
                mine_slot(rows, cols, cr, cc, custom),
                x as int,
                y as int,
                Cell::HasMine,
            );
            assert forall|r: int, c: int| in_bounds(rows, cols, r, c) implies {
                ||| #[trigger] g2[r][c] == g0[r][c]
                ||| (g0[r][c] != Cell::HasMine && g2[r][c] == Cell::HasMine && may_hold_mine(
                    rows,
                    cols,
                    cr,
                    cc,
                    custom,
                    r,
                    c,
                ))
            } by {
                assert(g[r][c] == g0[r][c] || (g0[r][c] != Cell::HasMine && g[r][c] == Cell::HasMine));
                if r == x as int && c == y as int {
                } else if r == x as int {
                    assert(g2[r][c] == g[r][c]);
                } else {
                    assert(g2[r] == g[r]);
                }
            }
        }
        placed += 1;
    }
}

/// Out of custom mode, every mine laid lies at least three rows and at least
/// three columns away from the clicked cell; in any mode, never on it.
pub proof fn lemma_laid_mines_away(
    g0: Seq<Seq<Cell>>,
    g: Seq<Seq<Cell>>,
    rows: int,
    cols: int,
    cr: int,
    cc: int,
    custom: bool,
    n: int,
    r: int,
    c: int,
)
    requires
        mines_laid(g0, g, rows, cols, cr, cc, custom, n),
        in_bounds(rows, cols, r, c),
        g0[r][c] != Cell::HasMine,
        g[r][c] == Cell::HasMine,
    ensures
        !(r == cr && c == cc),
        !custom ==> (r <= cr - 3 || r >= cr + 3) && (c <= cc - 3 || c >= cc + 3),
{
    assert(g[r][c] == g0[r][c] || may_hold_mine(rows, cols, cr, cc, custom, r, c));
}

} // verus!
