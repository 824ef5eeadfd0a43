use vstd::prelude::*;
use crate::cell::Cell;

verus! {

/// The hidden board seen as rows of cells.
pub open spec fn grid_view(g: Seq<Vec<Cell>>) -> Seq<Seq<Cell>> {
    Seq::new(g.len(), |i: int| g[i]@)
}

/// The visible board seen as rows of texts.
pub open spec fn text_view(t: Seq<Vec<String>>) -> Seq<Seq<Seq<char>>> {
    Seq::new(t.len(), |i: int| Seq::new(t[i]@.len(), |j: int| t[i]@[j]@))
}

/// `g` has `rows` rows of `cols` entries each.
pub open spec fn well_shaped<A>(g: Seq<Seq<A>>, rows: int, cols: int) -> bool {
    &&& g.len() == rows
    &&& forall|r: int| 0 <= r < rows ==> #[trigger] g[r].len() == cols
}

pub open spec fn in_bounds(rows: int, cols: int, r: int, c: int) -> bool {
    0 <= r < rows && 0 <= c < cols
}

pub open spec fn indicator(b: bool) -> int {
    if b { 1 } else { 0 }
}

/// Number of positions `(r, c)` of row `r` below `n` whose cell satisfies `f`.
pub open spec fn count_row<A>(row: Seq<A>, r: int, f: spec_fn(int, int, A) -> bool, n: int) -> nat
    decreases n,
{
    if n <= 0 {
        0
    } else {
        count_row(row, r, f, n - 1) + if f(r, n - 1, row[n - 1]) {
            1nat
        } else {
            0nat
        }
    }
}

/// Number of positions in the first `m` rows whose cell satisfies `f`.
pub open spec fn count_rows<A>(g: Seq<Seq<A>>, f: spec_fn(int, int, A) -> bool, m: int) -> nat
    decreases m,
{
    if m <= 0 {
        0
    } else {
        count_rows(g, f, m - 1) + count_row(g[m - 1], m - 1, f, g[m - 1].len() as int)
    }
}

/// Number of positions of the board whose cell satisfies `f`.
pub open spec fn count_cells<A>(g: Seq<Seq<A>>, f: spec_fn(int, int, A) -> bool) -> nat {
    count_rows(g, f, g.len() as int)
}

/// `g` with the cell at `(r, c)` replaced by `v`.
pub open spec fn set_cell<A>(g: Seq<Seq<A>>, r: int, c: int, v: A) -> Seq<Seq<A>> {
    g.update(r, g[r].update(c, v))
}

pub proof fn lemma_count_row_update<A>(row: Seq<A>, r: int, f: spec_fn(int, int, A) -> bool, n: int, c: int, v: A)
    requires
        0 <= c < row.len(),
        n <= row.len(),
    ensures
        count_row(row.update(c, v), r, f, n) == count_row(row, r, f, n) + (if 0 <= c < n {
            indicator(f(r, c, v)) - indicator(f(r, c, row[c]))
        } else {
            0
        }),
    decreases n,
{
    if n > 0 {
        lemma_count_row_update(row, r, f, n - 1, c, v);
    }
}

pub proof fn lemma_count_rows_update<A>(g: Seq<Seq<A>>, f: spec_fn(int, int, A) -> bool, m: int, r: int, c: int, v: A)
    requires
        0 <= r < g.len(),
        0 <= c < g[r].len(),
        m <= g.len(),
    ensures
        count_rows(set_cell(g, r, c, v), f, m) == count_rows(g, f, m) + (if 0 <= r < m {
            indicator(f(r, c, v)) - indicator(f(r, c, g[r][c]))
        } else {
            0
        }),
    decreases m,
{
    if m > 0 {
        lemma_count_rows_update(g, f, m - 1, r, c, v);
        let g2 = set_cell(g, r, c, v);
        if m - 1 == r {
            lemma_count_row_update(g[r], r, f, g[r].len() as int, c, v);
        } else {
            assert(g2[m - 1] == g[m - 1]);
        }
    }
}

/// Replacing one cell changes a count by what that one cell contributes.
pub proof fn lemma_count_cells_update<A>(g: Seq<Seq<A>>, f: spec_fn(int, int, A) -> bool, r: int, c: int, v: A)
    requires
        0 <= r < g.len(),
        0 <= c < g[r].len(),
    ensures
        count_cells(set_cell(g, r, c, v), f) == count_cells(g, f) + indicator(f(r, c, v)) - indicator(
            f(r, c, g[r][c]),
        ),
{
    lemma_count_rows_update(g, f, g.len() as int, r, c, v);
}

} // verus!
