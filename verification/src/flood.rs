use vstd::prelude::*;
use crate::cell::Cell;
use crate::grid::{
    grid_view, text_view, well_shaped, in_bounds, indicator, count_cells, set_cell,
    lemma_count_cells_update,
};
use crate::text::{digit_char, digit_str};

verus! {

/// 1 when `(r, c)` lies on the board and holds a mine, else 0.
pub open spec fn mine_at(g: Seq<Seq<Cell>>, rows: int, cols: int, r: int, c: int) -> int {
    indicator(in_bounds(rows, cols, r, c) && g[r][c] == Cell::HasMine)
}

/// The number of mines among the (up to eight) neighbours of `(r, c)`.
pub open spec fn nearby_count(g: Seq<Seq<Cell>>, rows: int, cols: int, r: int, c: int) -> int {
    mine_at(g, rows, cols, r - 1, c - 1) + mine_at(g, rows, cols, r - 1, c) + mine_at(
        g,
        rows,
        cols,
        r - 1,
        c + 1,
    ) + mine_at(g, rows, cols, r, c - 1) + mine_at(g, rows, cols, r, c + 1) + mine_at(
        g,
        rows,
        cols,
        r + 1,
        c - 1,
    ) + mine_at(g, rows, cols, r + 1, c) + mine_at(g, rows, cols, r + 1, c + 1)
}

/// `(r2, c2)` is `(r1, c1)` itself or one of its eight neighbours.
pub open spec fn near(r1: int, c1: int, r2: int, c2: int) -> bool {
    -1 <= r2 - r1 <= 1 && -1 <= c2 - c1 <= 1
}

/// An unopened safe cell on the board with no mine around it.
pub open spec fn zero_cell(g: Seq<Seq<Cell>>, rows: int, cols: int, r: int, c: int) -> bool {
    &&& in_bounds(rows, cols, r, c)
    &&& g[r][c] == Cell::Empty
    &&& nearby_count(g, rows, cols, r, c) == 0
}

/// Step `i` of the walk `p` goes to a neighbour.
pub open spec fn walk_step(p: Seq<(int, int)>, i: int) -> bool {
    near(p[i].0, p[i].1, p[i + 1].0, p[i + 1].1)
}

/// `p` is a non-empty walk through zero cells, each step to a neighbour.
pub open spec fn zero_walk(g: Seq<Seq<Cell>>, rows: int, cols: int, p: Seq<(int, int)>) -> bool {
    &&& p.len() > 0
    &&& forall|i: int| #![trigger p[i]] 0 <= i < p.len() ==> zero_cell(g, rows, cols, p[i].0, p[i].1)
    &&& forall|i: int| 0 <= i < p.len() - 1 ==> #[trigger] walk_step(p, i)
}

/// `p` is a zero walk from `(sr, sc)` to `(r, c)`.
pub open spec fn zero_walk_between(
    g: Seq<Seq<Cell>>,
    rows: int,
    cols: int,
    p: Seq<(int, int)>,
    sr: int,
    sc: int,
    r: int,
    c: int,
) -> bool {
    &&& zero_walk(g, rows, cols, p)
    &&& p[0] == (sr, sc)
    &&& p.last() == (r, c)
}

/// The flood fill started at `(sr, sc)` spreads to `(r, c)`: a walk through
/// unopened cells without mines around them leads there.
pub open spec fn reaches(g: Seq<Seq<Cell>>, rows: int, cols: int, sr: int, sc: int, r: int, c: int) -> bool {
    exists|p: Seq<(int, int)>| #[trigger] zero_walk_between(g, rows, cols, p, sr, sc, r, c)
}

/// An unopened safe cell that the fill does not spread to but shows a number on:
/// the start cell itself, or a neighbour of a cell that the fill spreads to.
pub open spec fn on_border(g: Seq<Seq<Cell>>, rows: int, cols: int, sr: int, sc: int, r: int, c: int) -> bool {
    &&& in_bounds(rows, cols, r, c)
    &&& g[r][c] == Cell::Empty
    &&& !reaches(g, rows, cols, sr, sc, r, c)
    &&& ((r == sr && c == sc) || exists|nr: int, nc: int|
        #[trigger] reaches(g, rows, cols, sr, sc, nr, nc) && near(nr, nc, r, c))
}

/// The text of an opened cell with no mine around it.
pub open spec fn opened_text() -> Seq<char> {
    seq!['_']
}

/// The text of an opened cell with `n` mines around it (`1 <= n <= 8`).
pub open spec fn count_text(n: int) -> Seq<char> {
    seq![digit_char(n)]
}

/// The hidden cell at `(r, c)` after revealing from `(sr, sc)`.
pub open spec fn revealed_cell(g: Seq<Seq<Cell>>, rows: int, cols: int, sr: int, sc: int, r: int, c: int) -> Cell {
    if reaches(g, rows, cols, sr, sc, r, c) {
        Cell::EmptyAndChecked
    } else {
        g[r][c]
    }
}

/// The visible text at `(r, c)` after revealing from `(sr, sc)`.
pub open spec fn revealed_text(
    g: Seq<Seq<Cell>>,
    t: Seq<Seq<Seq<char>>>,
    rows: int,
    cols: int,
    sr: int,
    sc: int,
    r: int,
    c: int,
) -> Seq<char> {
    if reaches(g, rows, cols, sr, sc, r, c) {
        opened_text()
    } else if on_border(g, rows, cols, sr, sc, r, c) {
        count_text(nearby_count(g, rows, cols, r, c))
    } else {
        t[r][c]
    }
}

/// The predicate counted by `unexplored`.
pub open spec fn is_unexplored() -> spec_fn(int, int, Cell) -> bool {
    |r: int, c: int, x: Cell| x == Cell::Empty
}

/// Number of safe cells that the fill has not opened yet.
pub open spec fn unexplored(g: Seq<Seq<Cell>>) -> nat {
    count_cells(g, is_unexplored())
}

// ---- what one call of the fill establishes, in a form that composes ----
spec fn newly(g0: Seq<Seq<Cell>>, g: Seq<Seq<Cell>>, r: int, c: int) -> bool {
    g0[r][c] == Cell::Empty && g[r][c] == Cell::EmptyAndChecked
}

/// Off the board, not an unopened safe cell, or showing its number.
spec fn settled(g: Seq<Seq<Cell>>, t: Seq<Seq<Seq<char>>>, rows: int, cols: int, r: int, c: int) -> bool {
    ||| !in_bounds(rows, cols, r, c)
    ||| g[r][c] != Cell::Empty
    ||| (nearby_count(g, rows, cols, r, c) > 0 && t[r][c] == count_text(nearby_count(g, rows, cols, r, c)))
}

spec fn touched(g0: Seq<Seq<Cell>>, g: Seq<Seq<Cell>>, rows: int, cols: int, sr: int, sc: int, r: int, c: int) -> bool {
    ||| (r == sr && c == sc)
    ||| exists|nr: int, nc: int|
        #![trigger newly(g0, g, nr, nc), near(nr, nc, r, c)]
        in_bounds(rows, cols, nr, nc) && newly(g0, g, nr, nc) && near(nr, nc, r, c)
}

spec fn cell_step(
    g0: Seq<Seq<Cell>>,
    t0: Seq<Seq<Seq<char>>>,
    g: Seq<Seq<Cell>>,
    t: Seq<Seq<Seq<char>>>,
    rows: int,
    cols: int,
    sr: int,
    sc: int,
    r: int,
    c: int,
) -> bool {
    &&& (g[r][c] == g0[r][c] || (newly(g0, g, r, c) && nearby_count(g0, rows, cols, r, c) == 0))
    &&& (newly(g0, g, r, c) ==> t[r][c] == opened_text())
    &&& (g[r][c] == g0[r][c] ==> (t[r][c] == t0[r][c] || (g0[r][c] == Cell::Empty && nearby_count(
        g0,
        rows,
        cols,
        r,
        c,
    ) > 0 && t[r][c] == count_text(nearby_count(g0, rows, cols, r, c)) && touched(
        g0,
        g,
        rows,
        cols,
        sr,
        sc,
        r,
        c,
    ))))
}

spec fn all_steps(
    g0: Seq<Seq<Cell>>,
    t0: Seq<Seq<Seq<char>>>,
    g: Seq<Seq<Cell>>,
    t: Seq<Seq<Seq<char>>>,
    rows: int,
    cols: int,
    sr: int,
    sc: int,
) -> bool {
    &&& well_shaped(g, rows, cols)
    &&& well_shaped(t, rows, cols)
    &&& forall|r: int, c: int|
        in_bounds(rows, cols, r, c) ==> #[trigger] cell_step(g0, t0, g, t, rows, cols, sr, sc, r, c)
    &&& forall|r: int, c: int|
        in_bounds(rows, cols, r, c) && #[trigger] newly(g0, g, r, c) ==> reaches(g0, rows, cols, sr, sc, r, c)
}

spec fn closed_except(
    g0: Seq<Seq<Cell>>,
    g: Seq<Seq<Cell>>,
    t: Seq<Seq<Seq<char>>>,
    rows: int,
    cols: int,
    sr: int,
    sc: int,
) -> bool {
    forall|r: int, c: int, nr: int, nc: int|
        #![trigger newly(g0, g, r, c), near(r, c, nr, nc)]
        in_bounds(rows, cols, r, c) && newly(g0, g, r, c) && !(r == sr && c == sc) && near(r, c, nr, nc)
            ==> settled(g, t, rows, cols, nr, nc)
}

spec fn fill_post(
    g0: Seq<Seq<Cell>>,
    t0: Seq<Seq<Seq<char>>>,
    g: Seq<Seq<Cell>>,
    t: Seq<Seq<Seq<char>>>,
    rows: int,
    cols: int,
    sr: int,
    sc: int,
) -> bool {
    &&& all_steps(g0, t0, g, t, rows, cols, sr, sc)
    &&& closed_except(g0, g, t, rows, cols, sr, sc)
    &&& (in_bounds(rows, cols, sr, sc) && newly(g0, g, sr, sc) ==> forall|nr: int, nc: int|
        #[trigger] near(sr, sc, nr, nc) ==> settled(g, t, rows, cols, nr, nc))
    &&& settled(g, t, rows, cols, sr, sc)
    &&& unexplored(g) <= unexplored(g0)
}


/// Hidden board `g` and visible board `t` are what revealing from `(sr, sc)`
/// makes of `g0` and `t0`.
pub open spec fn revealed(
    g0: Seq<Seq<Cell>>,
    t0: Seq<Seq<Seq<char>>>,
    g: Seq<Seq<Cell>>,
    t: Seq<Seq<Seq<char>>>,
    rows: int,
    cols: int,
    sr: int,
    sc: int,
) -> bool {
    &&& well_shaped(g, rows, cols)
    &&& well_shaped(t, rows, cols)
    &&& forall|r: int, c: int|
        in_bounds(rows, cols, r, c) ==> {
            &&& #[trigger] g[r][c] == revealed_cell(g0, rows, cols, sr, sc, r, c)
            &&& t[r][c] == revealed_text(g0, t0, rows, cols, sr, sc, r, c)
        }
}

spec fn same_mines(g0: Seq<Seq<Cell>>, g: Seq<Seq<Cell>>, rows: int, cols: int) -> bool {
    forall|r: int, c: int|
        in_bounds(rows, cols, r, c) ==> (#[trigger] g[r][c] == Cell::HasMine) == (g0[r][c] == Cell::HasMine)
}

proof fn lemma_same_mines_count(g0: Seq<Seq<Cell>>, g: Seq<Seq<Cell>>, rows: int, cols: int)
    requires
        same_mines(g0, g, rows, cols),
    ensures
        forall|r: int, c: int| #[trigger]
            nearby_count(g, rows, cols, r, c) == nearby_count(g0, rows, cols, r, c),
{
    assert forall|r: int, c: int| mine_at(g, rows, cols, r, c) == #[trigger] mine_at(g0, rows, cols, r, c) by {
        if in_bounds(rows, cols, r, c) {
            assert((g[r][c] == Cell::HasMine) == (g0[r][c] == Cell::HasMine));
        }
    }
}

proof fn lemma_steps_same_mines(
    g0: Seq<Seq<Cell>>,
    t0: Seq<Seq<Seq<char>>>,
    g: Seq<Seq<Cell>>,
    t: Seq<Seq<Seq<char>>>,
    rows: int,
    cols: int,
    sr: int,
    sc: int,
)
    requires
        all_steps(g0, t0, g, t, rows, cols, sr, sc),
    ensures
        same_mines(g0, g, rows, cols),
        forall|r: int, c: int| #[trigger]
            nearby_count(g, rows, cols, r, c) == nearby_count(g0, rows, cols, r, c),
        forall|r: int, c: int|
            in_bounds(rows, cols, r, c) && #[trigger] g[r][c] == Cell::Empty ==> g0[r][c] == Cell::Empty,
{
    assert forall|r: int, c: int| in_bounds(rows, cols, r, c) implies (#[trigger] g[r][c] == Cell::HasMine) == (
    g0[r][c] == Cell::HasMine) by {
        assert(cell_step(g0, t0, g, t, rows, cols, sr, sc, r, c));
    }
    assert forall|r: int, c: int|
        in_bounds(rows, cols, r, c) && #[trigger] g[r][c] == Cell::Empty implies g0[r][c] == Cell::Empty by {
        assert(cell_step(g0, t0, g, t, rows, cols, sr, sc, r, c));
    }
    lemma_same_mines_count(g0, g, rows, cols);
}

/// A zero walk stays one on a board with at least as many unopened cells and the same mines.
proof fn lemma_walk_weaken(g0: Seq<Seq<Cell>>, g: Seq<Seq<Cell>>, rows: int, cols: int, p: Seq<(int, int)>)
    requires
        zero_walk(g, rows, cols, p),
        forall|r: int, c: int|
            in_bounds(rows, cols, r, c) && #[trigger] g[r][c] == Cell::Empty ==> g0[r][c] == Cell::Empty,
        forall|r: int, c: int| #[trigger]
            nearby_count(g, rows, cols, r, c) == nearby_count(g0, rows, cols, r, c),
    ensures
        zero_walk(g0, rows, cols, p),
{
    assert forall|i: int| #![trigger p[i]] 0 <= i < p.len() implies zero_cell(g0, rows, cols, p[i].0, p[i].1) by {
        assert(zero_cell(g, rows, cols, p[i].0, p[i].1));
        assert(g[p[i].0][p[i].1] == Cell::Empty);
        assert(nearby_count(g, rows, cols, p[i].0, p[i].1) == nearby_count(g0, rows, cols, p[i].0, p[i].1));
    }
}

/// A zero cell next to the start of a zero walk extends it.
proof fn lemma_walk_prepend(g: Seq<Seq<Cell>>, rows: int, cols: int, p: Seq<(int, int)>, sr: int, sc: int)
    requires
        zero_walk(g, rows, cols, p),
        zero_cell(g, rows, cols, sr, sc),
        near(sr, sc, p[0].0, p[0].1),
    ensures
        zero_walk(g, rows, cols, seq![(sr, sc)] + p),
        (seq![(sr, sc)] + p)[0] == (sr, sc),
        (seq![(sr, sc)] + p).last() == p.last(),
{
    let q = seq![(sr, sc)] + p;
    assert forall|i: int| #![trigger q[i]] 0 <= i < q.len() implies zero_cell(g, rows, cols, q[i].0, q[i].1) by {
        if i > 0 {
            assert(q[i] == p[i - 1]);
        }
    }
    assert forall|i: int| 0 <= i < q.len() - 1 implies #[trigger] walk_step(q, i) by {
        if i > 0 {
            assert(walk_step(p, i - 1));
            assert(q[i] == p[i - 1]);
            assert(q[i + 1] == p[i]);
        }
    }
}

/// Every cell of a zero walk from the start is opened by a completed fill.
proof fn lemma_walk_opened(
    g0: Seq<Seq<Cell>>,
    t0: Seq<Seq<Seq<char>>>,
    g: Seq<Seq<Cell>>,
    t: Seq<Seq<Seq<char>>>,
    rows: int,
    cols: int,
    sr: int,
    sc: int,
    p: Seq<(int, int)>,
    i: int,
)
    requires
        fill_post(g0, t0, g, t, rows, cols, sr, sc),
        zero_walk(g0, rows, cols, p),
        p[0] == (sr, sc),
        0 <= i < p.len(),
    ensures
        newly(g0, g, p[i].0, p[i].1),
    decreases i,
{
    lemma_steps_same_mines(g0, t0, g, t, rows, cols, sr, sc);
    let (r, c) = p[i];
    assert(zero_cell(g0, rows, cols, r, c));
    if i == 0 {
        assert(settled(g, t, rows, cols, sr, sc));
    } else {
        lemma_walk_opened(g0, t0, g, t, rows, cols, sr, sc, p, i - 1);
        let (pr, pc) = p[i - 1];
        assert(walk_step(p, i - 1));
        assert(near(pr, pc, r, c));
        if pr == sr && pc == sc {
            assert(settled(g, t, rows, cols, r, c));
        } else {
            assert(newly(g0, g, pr, pc));
            assert(settled(g, t, rows, cols, r, c));
        }
    }
    assert(nearby_count(g, rows, cols, r, c) == 0);
    assert(cell_step(g0, t0, g, t, rows, cols, sr, sc, r, c));
}

/// A completed fill is exactly the reveal from its start.
proof fn lemma_fill_reveals(
    g0: Seq<Seq<Cell>>,
    t0: Seq<Seq<Seq<char>>>,
    g: Seq<Seq<Cell>>,
    t: Seq<Seq<Seq<char>>>,
    rows: int,
    cols: int,
    sr: int,
    sc: int,
)
    requires
        fill_post(g0, t0, g, t, rows, cols, sr, sc),
    ensures
        revealed(g0, t0, g, t, rows, cols, sr, sc),
{
    lemma_steps_same_mines(g0, t0, g, t, rows, cols, sr, sc);
    assert forall|r: int, c: int| in_bounds(rows, cols, r, c) && reaches(g0, rows, cols, sr, sc, r, c) implies
        #[trigger] newly(g0, g, r, c) by {
        let p = choose|p: Seq<(int, int)>| #[trigger] zero_walk_between(g0, rows, cols, p, sr, sc, r, c);
        lemma_walk_opened(g0, t0, g, t, rows, cols, sr, sc, p, p.len() - 1);
    }
    assert forall|r: int, c: int| in_bounds(rows, cols, r, c) implies {
        &&& #[trigger] g[r][c] == revealed_cell(g0, rows, cols, sr, sc, r, c)
        &&& t[r][c] == revealed_text(g0, t0, rows, cols, sr, sc, r, c)
    } by {
        assert(cell_step(g0, t0, g, t, rows, cols, sr, sc, r, c));
        if reaches(g0, rows, cols, sr, sc, r, c) {
            assert(newly(g0, g, r, c));
        } else {
            if newly(g0, g, r, c) {
                assert(reaches(g0, rows, cols, sr, sc, r, c));
            }
            assert(g[r][c] == g0[r][c]);
            if on_border(g0, rows, cols, sr, sc, r, c) {
                if r == sr && c == sc {
                    assert(settled(g, t, rows, cols, r, c));
                } else {
                    let (nr, nc) = choose|nr: int, nc: int|
                        #[trigger] reaches(g0, rows, cols, sr, sc, nr, nc) && near(nr, nc, r, c);
                    let p = choose|p: Seq<(int, int)>| #[trigger]
                        zero_walk_between(g0, rows, cols, p, sr, sc, nr, nc);
                    assert(p[p.len() - 1] == (nr, nc));
                    assert(zero_cell(g0, rows, cols, nr, nc));
                    assert(newly(g0, g, nr, nc));
                    if nr == sr && nc == sc {
                        assert(near(sr, sc, r, c));
                    } else {
                        assert(near(nr, nc, r, c));
                    }
                    assert(settled(g, t, rows, cols, r, c));
                }
            } else {
                if t[r][c] != t0[r][c] {
                    assert(touched(g0, g, rows, cols, sr, sc, r, c));
                    if !(r == sr && c == sc) {
                        let (nr, nc) = choose|nr: int, nc: int|
                            #![trigger newly(g0, g, nr, nc), near(nr, nc, r, c)]
                            in_bounds(rows, cols, nr, nc) && newly(g0, g, nr, nc) && near(nr, nc, r, c);
                        assert(reaches(g0, rows, cols, sr, sc, nr, nc));
                    }
                    assert(on_border(g0, rows, cols, sr, sc, r, c));
                }
            }
        }
    }
}

proof fn lemma_settled_kept(
    g1: Seq<Seq<Cell>>,
    t1: Seq<Seq<Seq<char>>>,
    g2: Seq<Seq<Cell>>,
    t2: Seq<Seq<Seq<char>>>,
    rows: int,
    cols: int,
    nr: int,
    nc: int,
)
    requires
        all_steps(g1, t1, g2, t2, rows, cols, nr, nc),
    ensures
        forall|r: int, c: int| #[trigger]
            settled(g1, t1, rows, cols, r, c) ==> settled(g2, t2, rows, cols, r, c),
{
    lemma_steps_same_mines(g1, t1, g2, t2, rows, cols, nr, nc);
    assert forall|r: int, c: int| #[trigger] settled(g1, t1, rows, cols, r, c) implies settled(
        g2,
        t2,
        rows,
        cols,
        r,
        c,
    ) by {
        if in_bounds(rows, cols, r, c) {
            assert(cell_step(g1, t1, g2, t2, rows, cols, nr, nc, r, c));
        }
    }
}

/// Folding one neighbour's fill into the fill of its parent cell.
proof fn lemma_child_fill(
    g0: Seq<Seq<Cell>>,
    t0: Seq<Seq<Seq<char>>>,
    g1: Seq<Seq<Cell>>,
    t1: Seq<Seq<Seq<char>>>,
    g2: Seq<Seq<Cell>>,
    t2: Seq<Seq<Seq<char>>>,
    rows: int,
    cols: int,
    sr: int,
    sc: int,
    nr: int,
    nc: int,
)
    requires
        all_steps(g0, t0, g1, t1, rows, cols, sr, sc),
        closed_except(g0, g1, t1, rows, cols, sr, sc),
        newly(g0, g1, sr, sc),
        zero_cell(g0, rows, cols, sr, sc),
        near(sr, sc, nr, nc),
        fill_post(g1, t1, g2, t2, rows, cols, nr, nc),
    ensures
        all_steps(g0, t0, g2, t2, rows, cols, sr, sc),
        closed_except(g0, g2, t2, rows, cols, sr, sc),
        newly(g0, g2, sr, sc),
        settled(g2, t2, rows, cols, nr, nc),
        forall|r: int, c: int| #[trigger]
            settled(g1, t1, rows, cols, r, c) ==> settled(g2, t2, rows, cols, r, c),
        unexplored(g2) <= unexplored(g1),
{
    lemma_steps_same_mines(g0, t0, g1, t1, rows, cols, sr, sc);
    lemma_steps_same_mines(g1, t1, g2, t2, rows, cols, nr, nc);
    lemma_settled_kept(g1, t1, g2, t2, rows, cols, nr, nc);
    assert(cell_step(g1, t1, g2, t2, rows, cols, nr, nc, sr, sc));
    assert forall|r: int, c: int| in_bounds(rows, cols, r, c) && #[trigger] newly(g0, g1, r, c) implies newly(
        g0,
        g2,
        r,
        c,
    ) by {
        assert(cell_step(g1, t1, g2, t2, rows, cols, nr, nc, r, c));
    }
    assert forall|r: int, c: int| in_bounds(rows, cols, r, c) && #[trigger] newly(g1, g2, r, c) implies newly(
        g0,
        g2,
        r,
        c,
    ) by {
        assert(cell_step(g0, t0, g1, t1, rows, cols, sr, sc, r, c));
    }
    // every cell changes as a parent's fill may change it
    assert forall|r: int, c: int| in_bounds(rows, cols, r, c) implies #[trigger] cell_step(
        g0,
        t0,
        g2,
        t2,
        rows,
        cols,
        sr,
        sc,
        r,
        c,
    ) by {
        assert(cell_step(g0, t0, g1, t1, rows, cols, sr, sc, r, c));
        assert(cell_step(g1, t1, g2, t2, rows, cols, nr, nc, r, c));
        if g2[r][c] == g0[r][c] && t2[r][c] != t0[r][c] {
            assert(g1[r][c] == g0[r][c]);
            if t1[r][c] != t0[r][c] {
                assert(touched(g0, g1, rows, cols, sr, sc, r, c));
                if !(r == sr && c == sc) {
                    let (xr, xc) = choose|xr: int, xc: int|
                        #![trigger newly(g0, g1, xr, xc), near(xr, xc, r, c)]
                        in_bounds(rows, cols, xr, xc) && newly(g0, g1, xr, xc) && near(xr, xc, r, c);
                    assert(newly(g0, g2, xr, xc));
                }
                assert(touched(g0, g2, rows, cols, sr, sc, r, c));
            } else {
                assert(touched(g1, g2, rows, cols, nr, nc, r, c));
                if r == nr && c == nc {
                    assert(newly(g0, g2, sr, sc));
                    assert(near(sr, sc, r, c));
                } else {
                    let (xr, xc) = choose|xr: int, xc: int|
                        #![trigger newly(g1, g2, xr, xc), near(xr, xc, r, c)]
                        in_bounds(rows, cols, xr, xc) && newly(g1, g2, xr, xc) && near(xr, xc, r, c);
                    assert(newly(g0, g2, xr, xc));
                }
                assert(touched(g0, g2, rows, cols, sr, sc, r, c));
            }
        }
    }
    // every newly opened cell is reached from the parent
    assert forall|r: int, c: int| in_bounds(rows, cols, r, c) && #[trigger] newly(g0, g2, r, c) implies reaches(
        g0,
        rows,
        cols,
        sr,
        sc,
        r,
        c,
    ) by {
        assert(cell_step(g0, t0, g1, t1, rows, cols, sr, sc, r, c));
        if newly(g0, g1, r, c) {
        } else {
            assert(newly(g1, g2, r, c));
            assert(reaches(g1, rows, cols, nr, nc, r, c));
            let p = choose|p: Seq<(int, int)>| #[trigger] zero_walk_between(g1, rows, cols, p, nr, nc, r, c);
            lemma_walk_weaken(g0, g1, rows, cols, p);
            lemma_walk_prepend(g0, rows, cols, p, sr, sc);
            let q = seq![(sr, sc)] + p;
            assert(zero_walk_between(g0, rows, cols, q, sr, sc, r, c));
        }
    }
    // the neighbours of every newly opened cell but the parent are settled
    assert forall|r: int, c: int, xr: int, xc: int|
        #![trigger newly(g0, g2, r, c), near(r, c, xr, xc)]
        in_bounds(rows, cols, r, c) && newly(g0, g2, r, c) && !(r == sr && c == sc) && near(r, c, xr, xc)
            implies settled(g2, t2, rows, cols, xr, xc) by {
        assert(cell_step(g0, t0, g1, t1, rows, cols, sr, sc, r, c));
        if newly(g0, g1, r, c) {
            assert(settled(g1, t1, rows, cols, xr, xc));
        } else {
            assert(newly(g1, g2, r, c));
            if r == nr && c == nc {
                assert(near(nr, nc, xr, xc));
            } else {
                assert(near(r, c, xr, xc));
            }
        }
    }
}

/// The text showing `n` mines around a cell.
fn count_string(n: i8) -> (s: String)
    requires
        1 <= n <= 8,
    ensures
        s@ == count_text(n as int),
{
    String::from_str(digit_str(n as u8))
}

proof fn lemma_nothing_opened(g0: Seq<Seq<Cell>>, t0: Seq<Seq<Seq<char>>>, rows: int, cols: int, sr: int, sc: int)
    requires
        well_shaped(g0, rows, cols),
        well_shaped(t0, rows, cols),
        !(in_bounds(rows, cols, sr, sc) && g0[sr][sc] == Cell::Empty),
    ensures
        fill_post(g0, t0, g0, t0, rows, cols, sr, sc),
{
    assert forall|r: int, c: int| in_bounds(rows, cols, r, c) implies #[trigger] cell_step(
        g0,
        t0,
        g0,
        t0,
        rows,
        cols,
        sr,
        sc,
        r,
        c,
    ) by {}
}

proof fn lemma_rows_have_cols<A>(v: Seq<Vec<A>>, rows: int, cols: int)
    requires
        well_shaped(Seq::new(v.len(), |i: int| v[i]@), rows, cols),
    ensures
        forall|i: int| 0 <= i < rows ==> (#[trigger] v[i])@.len() == cols,
{
    let g = Seq::new(v.len(), |i: int| v[i]@);
    assert forall|i: int| 0 <= i < rows implies (#[trigger] v[i])@.len() == cols by {
        assert(g[i].len() == cols);
    }
}

proof fn lemma_text_rows(v: Seq<Vec<String>>, rows: int, cols: int)
    requires
        well_shaped(text_view(v), rows, cols),
    ensures
        forall|i: int| 0 <= i < rows ==> (#[trigger] v[i])@.len() == cols,
{
    assert forall|i: int| 0 <= i < rows implies (#[trigger] v[i])@.len() == cols by {
        assert(text_view(v)[i].len() == cols);
    }
}

/// Counts the mines around the cell at `coor_i8`, which lies on the board.
fn nearby_mines(ref_table: &Vec<Vec<Cell>>, table_size: &[usize; 2], coor_i8: [i8; 2]) -> (count: i8)
    requires
        table_size[0] <= 127,
        table_size[1] <= 127,
        well_shaped(grid_view(ref_table@), table_size[0] as int, table_size[1] as int),
        in_bounds(table_size[0] as int, table_size[1] as int, coor_i8[0] as int, coor_i8[1] as int),
    ensures
        count as int == nearby_count(
            grid_view(ref_table@),
            table_size[0] as int,
            table_size[1] as int,
            coor_i8[0] as int,
            coor_i8[1] as int,
        ),
{
    proof {
        lemma_rows_have_cols(ref_table@, table_size[0] as int, table_size[1] as int);
    }
    let ghost g = grid_view(ref_table@);
    let ghost rows = table_size[0] as int;
    let ghost cols = table_size[1] as int;
    let ghost sr = coor_i8[0] as int;
    let ghost sc = coor_i8[1] as int;
    let mut count: i8 = 0;
    let r = coor_i8[0] as usize;
    let c = coor_i8[1] as usize;
    if coor_i8[0] - 1 >= 0 && coor_i8[1] - 1 >= 0 && ref_table[r - 1][c - 1] == Cell::HasMine {
        count += 1;
    }
    assert(count == mine_at(g, rows, cols, sr - 1, sc - 1));
    if coor_i8[0] - 1 >= 0 && ref_table[r - 1][c] == Cell::HasMine {
        count += 1;
    }
    assert(count == mine_at(g, rows, cols, sr - 1, sc - 1) + mine_at(g, rows, cols, sr - 1, sc));
    if coor_i8[0] - 1 >= 0 && c + 1 < table_size[1] && ref_table[r - 1][c + 1] == Cell::HasMine {
        count += 1;
    }
    let ghost above = mine_at(g, rows, cols, sr - 1, sc - 1) + mine_at(g, rows, cols, sr - 1, sc) + mine_at(
        g,
        rows,
        cols,
        sr - 1,
        sc + 1,
    );
    assert(count == above);
    if coor_i8[1] - 1 >= 0 && ref_table[r][c - 1] == Cell::HasMine {
        count += 1;
    }
    assert(count == above + mine_at(g, rows, cols, sr, sc - 1));
    if c + 1 < table_size[1] && ref_table[r][c + 1] == Cell::HasMine {
        count += 1;
    }
    let ghost beside = above + mine_at(g, rows, cols, sr, sc - 1) + mine_at(g, rows, cols, sr, sc + 1);
    assert(count == beside);
    if r + 1 < table_size[0] && coor_i8[1] - 1 >= 0 && ref_table[r + 1][c - 1] == Cell::HasMine {
        count += 1;
    }
    assert(count == beside + mine_at(g, rows, cols, sr + 1, sc - 1));
    if r + 1 < table_size[0] && ref_table[r + 1][c] == Cell::HasMine {
        count += 1;
    }
    assert(count == beside + mine_at(g, rows, cols, sr + 1, sc - 1) + mine_at(g, rows, cols, sr + 1, sc));
    if r + 1 < table_size[0] && c + 1 < table_size[1] && ref_table[r + 1][c + 1] == Cell::HasMine {
        count += 1;
    }
    count
}

/// The recursive flood fill from `coor_i8`, in the form that composes.
fn fill_from(
    table: &mut Vec<Vec<String>>,
    ref_table: &mut Vec<Vec<Cell>>,
    table_size: &[usize; 2],
    coor_i8: [i8; 2],
)
    requires
        1 <= table_size[0] <= 127,
        1 <= table_size[1] <= 127,
        well_shaped(grid_view(old(ref_table)@), table_size[0] as int, table_size[1] as int),
        well_shaped(text_view(old(table)@), table_size[0] as int, table_size[1] as int),
    ensures
        fill_post(
            grid_view(old(ref_table)@),
            text_view(old(table)@),
            grid_view(final(ref_table)@),
            text_view(final(table)@),
            table_size[0] as int,
            table_size[1] as int,
            coor_i8[0] as int,
            coor_i8[1] as int,
        ),
    decreases unexplored(grid_view(old(ref_table)@)),
{
    let ghost g0 = grid_view(ref_table@);
    let ghost t0 = text_view(table@);
    let ghost rows = table_size[0] as int;
    let ghost cols = table_size[1] as int;
    let ghost sr = coor_i8[0] as int;
    let ghost sc = coor_i8[1] as int;
    let coor: [usize; 2] = [#[verifier::truncate] (coor_i8[0] as usize), #[verifier::truncate] (coor_i8[1] as usize)];

    // Out of the board: nothing to open
    if coor_i8[0] < 0 || coor_i8[1] < 0 || coor[0] > table_size[0] - 1 || coor[1] > table_size[1] - 1 {
        proof {
            lemma_nothing_opened(g0, t0, rows, cols, sr, sc);
        }
        return ;
    }
    let r = coor[0];
    let c = coor[1];
    assert(r as int == sr && c as int == sc);
    proof {
        lemma_rows_have_cols(ref_table@, rows, cols);
        lemma_text_rows(table@, rows, cols);
    }
    // Opened before, or a mine: stop here
    if ref_table[r][c] != Cell::Empty {
        proof {
            lemma_nothing_opened(g0, t0, rows, cols, sr, sc);
        }
        return ;
    }
    let count = nearby_mines(ref_table, table_size, coor_i8);
    assert(count as int == nearby_count(g0, rows, cols, sr, sc));
    if count != 0 {
        // Show the number of mines around
        table[r][c] = count_string(count);
        proof {
            let g = grid_view(ref_table@);
            let t = text_view(table@);
            assert(g =~= g0);
            assert forall|i: int, j: int| in_bounds(rows, cols, i, j) implies #[trigger] cell_step(
                g0,
                t0,
                g,
                t,
                rows,
                cols,
                sr,
                sc,
                i,
                j,
            ) by {
                if i != sr {
                    assert(t[i] == t0[i]);
                }
            }
        }
    } else {
        // Open this cell, then every neighbour
        proof {
            reveal_strlit("_");
        }
        table[r][c] = String::from_str("_");
        ref_table[r][c] = Cell::EmptyAndChecked;
        proof {
            let g1 = grid_view(ref_table@);
            let t1 = text_view(table@);
            assert(g1 =~= set_cell(g0, sr, sc, Cell::EmptyAndChecked));
            assert(t1[sr][sc] =~= opened_text());
            lemma_count_cells_update(g0, is_unexplored(), sr, sc, Cell::EmptyAndChecked);
            let p = seq![(sr, sc)];
            assert(zero_walk_between(g0, rows, cols, p, sr, sc, sr, sc));
            assert forall|i: int, j: int| in_bounds(rows, cols, i, j) implies #[trigger] cell_step(
                g0,
                t0,
                g1,
                t1,
                rows,
                cols,
                sr,
                sc,
                i,
                j,
            ) by {
                if i != sr {
                    assert(t1[i] == t0[i]);
                    assert(g1[i] == g0[i]);
                } else if j != sc {
                    assert(t1[i][j] == t0[i][j]);
                    assert(g1[i][j] == g0[i][j]);
                }
            }
        }
        let ghost gb = grid_view(ref_table@);
        let ghost tb = text_view(table@);
        fill_from(table, ref_table, table_size, [coor_i8[0] - 1, coor_i8[1] - 1]);
        proof {
            lemma_child_fill(g0, t0, gb, tb, grid_view(ref_table@), text_view(table@), rows, cols, sr, sc, sr - 1, sc - 1);
        }
        let ghost gb = grid_view(ref_table@);
        let ghost tb = text_view(table@);
        fill_from(table, ref_table, table_size, [coor_i8[0] - 1, coor_i8[1]]);
        proof {
            lemma_child_fill(g0, t0, gb, tb, grid_view(ref_table@), text_view(table@), rows, cols, sr, sc, sr - 1, sc);
        }
        let ghost gb = grid_view(ref_table@);
        let ghost tb = text_view(table@);
        fill_from(table, ref_table, table_size, [coor_i8[0] - 1, coor_i8[1] + 1]);
        proof {
            lemma_child_fill(g0, t0, gb, tb, grid_view(ref_table@), text_view(table@), rows, cols, sr, sc, sr - 1, sc + 1);
        }
        let ghost gb = grid_view(ref_table@);
        let ghost tb = text_view(table@);
        fill_from(table, ref_table, table_size, [coor_i8[0], coor_i8[1] - 1]);
        proof {
            lemma_child_fill(g0, t0, gb, tb, grid_view(ref_table@), text_view(table@), rows, cols, sr, sc, sr, sc - 1);
        }
        let ghost gb = grid_view(ref_table@);
        let ghost tb = text_view(table@);
        fill_from(table, ref_table, table_size, [coor_i8[0], coor_i8[1] + 1]);
        proof {
            lemma_child_fill(g0, t0, gb, tb, grid_view(ref_table@), text_view(table@), rows, cols, sr, sc, sr, sc + 1);
        }
        let ghost gb = grid_view(ref_table@);
        let ghost tb = text_view(table@);
        fill_from(table, ref_table, table_size, [coor_i8[0] + 1, coor_i8[1] - 1]);
        proof {
            lemma_child_fill(g0, t0, gb, tb, grid_view(ref_table@), text_view(table@), rows, cols, sr, sc, sr + 1, sc - 1);
        }
        let ghost gb = grid_view(ref_table@);
        let ghost tb = text_view(table@);
        fill_from(table, ref_table, table_size, [coor_i8[0] + 1, coor_i8[1]]);
        proof {
            lemma_child_fill(g0, t0, gb, tb, grid_view(ref_table@), text_view(table@), rows, cols, sr, sc, sr + 1, sc);
        }
        let ghost gb = grid_view(ref_table@);
        let ghost tb = text_view(table@);
        fill_from(table, ref_table, table_size, [coor_i8[0] + 1, coor_i8[1] + 1]);
        proof {
            lemma_child_fill(g0, t0, gb, tb, grid_view(ref_table@), text_view(table@), rows, cols, sr, sc, sr + 1, sc + 1);
        }
        proof {
            let g = grid_view(ref_table@);
            let t = text_view(table@);
            assert forall|nr: int, nc: int| #[trigger] near(sr, sc, nr, nc) implies settled(g, t, rows, cols, nr, nc) by {
                if nr == sr && nc == sc {
                }
            }
        }
    }
}

/// Opens the cell at `coor_i8` and, when no mine lies around it, spreads to
/// its neighbours, recursively.
///
/// `ref_table` is the hidden board and `table` the visible one, both of
/// `table_size[0]` rows of `table_size[1]` cells. A cell off the board, with
/// a mine, or opened before is left as it is. A safe unopened cell with mines
/// around shows their number; one without shows `_`, is marked opened and
/// its neighbours are opened in turn.
///
/// Coordinates are `i8`, so a board has at most 127 rows and columns.
pub fn count_nearby_mines(
    table: &mut Vec<Vec<String>>,
    ref_table: &mut Vec<Vec<Cell>>,
    table_size: &[usize; 2],
    coor_i8: [i8; 2],
)
    requires
        table_size[0] <= 127,
        table_size[1] <= 127,
        well_shaped(grid_view(old(ref_table)@), table_size[0] as int, table_size[1] as int),
        well_shaped(text_view(old(table)@), table_size[0] as int, table_size[1] as int),
        coor_i8[0] >= 0 && coor_i8[1] >= 0 ==> table_size[0] >= 1,
        coor_i8[0] >= 0 && coor_i8[1] >= 0 && coor_i8[0] < table_size[0] ==> table_size[1] >= 1,
    ensures
        revealed(
            grid_view(old(ref_table)@),
            text_view(old(table)@),
            grid_view(final(ref_table)@),
            text_view(final(table)@),
            table_size[0] as int,
            table_size[1] as int,
            coor_i8[0] as int,
            coor_i8[1] as int,
        ),
{
    if table_size[0] == 0 || table_size[1] == 0 {
        return ;
    }
    fill_from(table, ref_table, table_size, coor_i8);
    proof {
        lemma_fill_reveals(
            grid_view(old(ref_table)@),
            text_view(old(table)@),
            grid_view(ref_table@),
            text_view(table@),
            table_size[0] as int,
            table_size[1] as int,
            coor_i8[0] as int,
            coor_i8[1] as int,
        );
    }
}

/// Revealing never closes an opened cell, never lays or removes a mine, and
/// only turns unopened safe cells into opened ones.
pub proof fn lemma_reveal_monotone(
    g0: Seq<Seq<Cell>>,
    t0: Seq<Seq<Seq<char>>>,
    g: Seq<Seq<Cell>>,
    t: Seq<Seq<Seq<char>>>,
    rows: int,
    cols: int,
    sr: int,
    sc: int,
)
    requires
        well_shaped(g0, rows, cols),
        revealed(g0, t0, g, t, rows, cols, sr, sc),
    ensures
        forall|r: int, c: int|
            in_bounds(rows, cols, r, c) ==> {
                &&& (#[trigger] g[r][c] == Cell::HasMine) == (g0[r][c] == Cell::HasMine)
                &&& (g0[r][c] == Cell::EmptyAndChecked ==> g[r][c] == Cell::EmptyAndChecked)
                &&& (g[r][c] == g0[r][c] || (g0[r][c] == Cell::Empty && g[r][c] == Cell::EmptyAndChecked))
            },
{
    assert forall|r: int, c: int| in_bounds(rows, cols, r, c) implies {
        &&& (#[trigger] g[r][c] == Cell::HasMine) == (g0[r][c] == Cell::HasMine)
        &&& (g0[r][c] == Cell::EmptyAndChecked ==> g[r][c] == Cell::EmptyAndChecked)
        &&& (g[r][c] == g0[r][c] || (g0[r][c] == Cell::Empty && g[r][c] == Cell::EmptyAndChecked))
    } by {
        if reaches(g0, rows, cols, sr, sc, r, c) {
            let p = choose|p: Seq<(int, int)>| #[trigger] zero_walk_between(g0, rows, cols, p, sr, sc, r, c);
            assert(p[p.len() - 1] == (r, c));
            assert(zero_cell(g0, rows, cols, r, c));
        }
    }
}

/// Nothing is reached from a start that is not an unopened safe cell
/// without mines around it.
proof fn lemma_no_reach_from(g: Seq<Seq<Cell>>, rows: int, cols: int, sr: int, sc: int, r: int, c: int)
    requires
        !zero_cell(g, rows, cols, sr, sc),
    ensures
        !reaches(g, rows, cols, sr, sc, r, c),
{
    if reaches(g, rows, cols, sr, sc, r, c) {
        let p = choose|p: Seq<(int, int)>| #[trigger] zero_walk_between(g, rows, cols, p, sr, sc, r, c);
        assert(p[0] == (sr, sc));
        assert(zero_cell(g, rows, cols, p[0].0, p[0].1));
    }
}

/// Revealing the same cell a second time changes nothing.
pub proof fn lemma_reveal_idempotent(
    g0: Seq<Seq<Cell>>,
    t0: Seq<Seq<Seq<char>>>,
    g1: Seq<Seq<Cell>>,
    t1: Seq<Seq<Seq<char>>>,
    g2: Seq<Seq<Cell>>,
    t2: Seq<Seq<Seq<char>>>,
    rows: int,
    cols: int,
    sr: int,
    sc: int,
)
    requires
        well_shaped(g0, rows, cols),
        well_shaped(t0, rows, cols),
        revealed(g0, t0, g1, t1, rows, cols, sr, sc),
        revealed(g1, t1, g2, t2, rows, cols, sr, sc),
    ensures
        g2 == g1,
        t2 == t1,
{
    lemma_reveal_monotone(g0, t0, g1, t1, rows, cols, sr, sc);
    let mines_same = forall|r: int, c: int|
        in_bounds(rows, cols, r, c) ==> (#[trigger] g1[r][c] == Cell::HasMine) == (g0[r][c] == Cell::HasMine);
    assert(mines_same);
    assert forall|r: int, c: int| mine_at(g1, rows, cols, r, c) == #[trigger] mine_at(g0, rows, cols, r, c) by {
        if in_bounds(rows, cols, r, c) {
            assert((g1[r][c] == Cell::HasMine) == (g0[r][c] == Cell::HasMine));
        }
    }
    // the start is no zero cell any more, so the second reveal spreads nowhere
    if in_bounds(rows, cols, sr, sc) {
        assert(g1[sr][sc] == revealed_cell(g0, rows, cols, sr, sc, sr, sc));
        if zero_cell(g0, rows, cols, sr, sc) {
            assert(zero_walk_between(g0, rows, cols, seq![(sr, sc)], sr, sc, sr, sc));
        }
    }
    assert(!zero_cell(g1, rows, cols, sr, sc));
    assert forall|r: int, c: int| in_bounds(rows, cols, r, c) implies #[trigger] g2[r][c] == g1[r][c] && t2[r][c]
        == t1[r][c] by {
        lemma_no_reach_from(g1, rows, cols, sr, sc, r, c);
        assert(g2[r][c] == revealed_cell(g1, rows, cols, sr, sc, r, c));
        if on_border(g1, rows, cols, sr, sc, r, c) {
            if !(r == sr && c == sc) {
                let (nr, nc) = choose|nr: int, nc: int|
                    #[trigger] reaches(g1, rows, cols, sr, sc, nr, nc) && near(nr, nc, r, c);
                lemma_no_reach_from(g1, rows, cols, sr, sc, nr, nc);
            }
            // the start is unopened in both boards, so the first reveal spread nowhere either
            assert(g1[sr][sc] == Cell::Empty);
            assert(g1[sr][sc] == revealed_cell(g0, rows, cols, sr, sc, sr, sc));
            assert(!reaches(g0, rows, cols, sr, sc, sr, sc));
            assert(g0[sr][sc] == Cell::Empty);
            assert(nearby_count(g1, rows, cols, sr, sc) == nearby_count(g0, rows, cols, sr, sc));
            if zero_cell(g0, rows, cols, sr, sc) {
                assert(zero_walk_between(g0, rows, cols, seq![(sr, sc)], sr, sc, sr, sc));
            }
            assert(on_border(g0, rows, cols, sr, sc, sr, sc));
        }
    }
    assert(g2 =~= g1) by {
        assert forall|r: int| 0 <= r < g2.len() implies #[trigger] g2[r] =~= g1[r] by {
            assert forall|c: int| 0 <= c < g2[r].len() implies #[trigger] g2[r][c] == g1[r][c] by {
                assert(in_bounds(rows, cols, r, c));
            }
        }
    }
    assert(t2 =~= t1) by {
        assert forall|r: int| 0 <= r < t2.len() implies #[trigger] t2[r] =~= t1[r] by {
            assert forall|c: int| 0 <= c < t2[r].len() implies #[trigger] t2[r][c] == t1[r][c] by {
                assert(in_bounds(rows, cols, r, c));
                assert(g2[r][c] == g1[r][c]);
            }
        }
    }
}

/// Mines among the first `k` squares of the 3 by 3 square centred on
/// `(r, c)`, taken row by row, the centre left out.
pub open spec fn mines_in_square(g: Seq<Seq<Cell>>, rows: int, cols: int, r: int, c: int, k: int) -> int
    decreases k,
{
    if k <= 0 {
        0
    } else {
        let dr = (k - 1) / 3 - 1;
        let dc = (k - 1) % 3 - 1;
        mines_in_square(g, rows, cols, r, c, k - 1) + if (dr != 0 || dc != 0) && 0 <= r + dr < rows && 0 <= c
            + dc < cols && g[r + dr][c + dc] == Cell::HasMine {
            1int
        } else {
            0int
        }
    }
}

proof fn lemma_square_is_nearby(g: Seq<Seq<Cell>>, rows: int, cols: int, r: int, c: int)
    ensures
        mines_in_square(g, rows, cols, r, c, 9) == nearby_count(g, rows, cols, r, c),
{
    reveal_with_fuel(mines_in_square, 10);
}

/// A zero walk to `(r, c)` ends on a zero cell.
proof fn lemma_reached_is_zero(g: Seq<Seq<Cell>>, rows: int, cols: int, sr: int, sc: int, r: int, c: int)
    requires
        reaches(g, rows, cols, sr, sc, r, c),
    ensures
        zero_cell(g, rows, cols, r, c),
{
    let p = choose|p: Seq<(int, int)>| #[trigger] zero_walk_between(g, rows, cols, p, sr, sc, r, c);
    assert(p[p.len() - 1] == (r, c));
}

/// A zero walk extends by a neighbouring zero cell.
proof fn lemma_reach_step(
    g: Seq<Seq<Cell>>,
    rows: int,
    cols: int,
    sr: int,
    sc: int,
    r: int,
    c: int,
    nr: int,
    nc: int,
)
    requires
        reaches(g, rows, cols, sr, sc, r, c),
        near(r, c, nr, nc),
        zero_cell(g, rows, cols, nr, nc),
    ensures
        reaches(g, rows, cols, sr, sc, nr, nc),
{
    let p = choose|p: Seq<(int, int)>| #[trigger] zero_walk_between(g, rows, cols, p, sr, sc, r, c);
    let q = p.push((nr, nc));
    assert forall|i: int| #![trigger q[i]] 0 <= i < q.len() implies zero_cell(g, rows, cols, q[i].0, q[i].1) by {
        if i < p.len() {
            assert(q[i] == p[i]);
        }
    }
    assert forall|i: int| 0 <= i < q.len() - 1 implies #[trigger] walk_step(q, i) by {
        if i < p.len() - 1 {
            assert(walk_step(p, i));
        } else {
            assert(q[i] == p[p.len() - 1]);
        }
    }
    assert(zero_walk_between(g, rows, cols, q, sr, sc, nr, nc));
}

/// The digit character of `n` (0 to 9).
pub open spec fn digit_of(n: int) -> char {
    (48 + n) as char
}

/// After a reveal, a cell shows `_` exactly when the reveal opened it and no
/// mine lies in the 3 by 3 square around it; a safe cell the reveal leaves
/// closed but draws shows its number of mines as a digit.
/// Here: the start cell, if unopened and safe, is either opened with `_` and
/// no mine around, or keeps closed and shows how many mines are around it.
pub proof fn lemma_reveal_start_shown(
    g0: Seq<Seq<Cell>>,
    t0: Seq<Seq<Seq<char>>>,
    g: Seq<Seq<Cell>>,
    t: Seq<Seq<Seq<char>>>,
    rows: int,
    cols: int,
    sr: int,
    sc: int,
)
    requires
        well_shaped(g0, rows, cols),
        revealed(g0, t0, g, t, rows, cols, sr, sc),
        0 <= sr < rows,
        0 <= sc < cols,
        g0[sr][sc] == Cell::Empty,
    ensures
        g[sr][sc] == Cell::EmptyAndChecked && t[sr][sc] == seq!['_'] && mines_in_square(g0, rows, cols, sr, sc, 9)
            == 0 || g[sr][sc] == Cell::Empty && 0 < mines_in_square(g0, rows, cols, sr, sc, 9) && t[sr][sc] == seq![
            digit_of(mines_in_square(g0, rows, cols, sr, sc, 9)),
        ],
{
    lemma_square_is_nearby(g0, rows, cols, sr, sc);
    assert(g[sr][sc] == revealed_cell(g0, rows, cols, sr, sc, sr, sc));
    if zero_cell(g0, rows, cols, sr, sc) {
        assert(zero_walk_between(g0, rows, cols, seq![(sr, sc)], sr, sc, sr, sc));
    } else {
        if reaches(g0, rows, cols, sr, sc, sr, sc) {
            lemma_reached_is_zero(g0, rows, cols, sr, sc, sr, sc);
        }
        assert(on_border(g0, rows, cols, sr, sc, sr, sc));
        let n = nearby_count(g0, rows, cols, sr, sc);
        assert(digit_char(n) == digit_of(n));
    }
}

/// The reveal spreads to all eight neighbours, diagonals included: every
/// safe cell on the board next to a cell that the reveal opened is opened too
/// (with `_`, when it was unopened) or shows its number of mines as a digit.
pub proof fn lemma_reveal_eight_neighbours(
    g0: Seq<Seq<Cell>>,
    t0: Seq<Seq<Seq<char>>>,
    g: Seq<Seq<Cell>>,
    t: Seq<Seq<Seq<char>>>,
    rows: int,
    cols: int,
    sr: int,
    sc: int,
    r: int,
    c: int,
    dr: int,
    dc: int,
)
    requires
        well_shaped(g0, rows, cols),
        revealed(g0, t0, g, t, rows, cols, sr, sc),
        0 <= r < rows,
        0 <= c < cols,
        g0[r][c] == Cell::Empty,
        g[r][c] == Cell::EmptyAndChecked,
        -1 <= dr <= 1,
        -1 <= dc <= 1,
        0 <= r + dr < rows,
        0 <= c + dc < cols,
        g0[r + dr][c + dc] != Cell::HasMine,
    ensures
        t[r][c] == seq!['_'],
        mines_in_square(g0, rows, cols, r, c, 9) == 0,
        g[r + dr][c + dc] == Cell::EmptyAndChecked || 0 < mines_in_square(g0, rows, cols, r + dr, c + dc, 9)
            && t[r + dr][c + dc] == seq![digit_of(mines_in_square(g0, rows, cols, r + dr, c + dc, 9))],
        g0[r + dr][c + dc] == Cell::Empty && g[r + dr][c + dc] == Cell::EmptyAndChecked ==> t[r + dr][c + dc]
            == seq!['_'],
{
    let nr = r + dr;
    let nc = c + dc;
    lemma_square_is_nearby(g0, rows, cols, r, c);
    lemma_square_is_nearby(g0, rows, cols, nr, nc);
    assert(g[r][c] == revealed_cell(g0, rows, cols, sr, sc, r, c));
    assert(reaches(g0, rows, cols, sr, sc, r, c));
    lemma_reached_is_zero(g0, rows, cols, sr, sc, r, c);
    assert(near(r, c, nr, nc));
    assert(g[nr][nc] == revealed_cell(g0, rows, cols, sr, sc, nr, nc));
    if zero_cell(g0, rows, cols, nr, nc) {
        lemma_reach_step(g0, rows, cols, sr, sc, r, c, nr, nc);
    } else {
        if reaches(g0, rows, cols, sr, sc, nr, nc) {
            lemma_reached_is_zero(g0, rows, cols, sr, sc, nr, nc);
        }
        if g0[nr][nc] == Cell::Empty {
            assert(on_border(g0, rows, cols, sr, sc, nr, nc));
            let n = nearby_count(g0, rows, cols, nr, nc);
            assert(digit_char(n) == digit_of(n));
        }
    }
}

} // verus!
