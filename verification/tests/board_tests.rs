use minesweeper::cell::Cell;
use minesweeper::flood::count_nearby_mines;
use minesweeper::game::count_closed;
use minesweeper::mines::{count_mine_slots, place_mines};

fn board(rows: usize, cols: usize, mines: &[(usize, usize)]) -> Vec<Vec<Cell>> {
    let mut g = vec![vec![Cell::Empty; cols]; rows];
    for &(r, c) in mines {
        g[r][c] = Cell::HasMine;
    }
    g
}

fn unopened(rows: usize, cols: usize) -> Vec<Vec<String>> {
    vec![vec!["*".to_string(); cols]; rows]
}

fn texts(rows: &[&[&str]]) -> Vec<Vec<String>> {
    rows.iter().map(|r| r.iter().map(|s| s.to_string()).collect()).collect()
}

fn mines_of(g: &Vec<Vec<Cell>>) -> usize {
    g.iter().flatten().filter(|c| **c == Cell::HasMine).count()
}

#[test]
fn reveal_spreads_over_zero_region_and_numbers_its_border() {
    let mut g = board(3, 3, &[(0, 0)]);
    let mut t = unopened(3, 3);
    count_nearby_mines(&mut t, &mut g, &[3, 3], [2, 2]);
    assert_eq!(t, texts(&[&["*", "1", "_"], &["1", "1", "_"], &["_", "_", "_"]]));
    let c = Cell::EmptyAndChecked;
    let e = Cell::Empty;
    assert_eq!(g, vec![vec![Cell::HasMine, e, c], vec![e, e, c], vec![c, c, c]]);
}

#[test]
fn reveal_shows_count_of_mines_around() {
    // one mine at the upper left counts once, as the README says
    let mut g = board(3, 3, &[(0, 0)]);
    let mut t = unopened(3, 3);
    count_nearby_mines(&mut t, &mut g, &[3, 3], [1, 1]);
    assert_eq!(t[1][1], "1");
    assert_eq!(g[1][1], Cell::Empty);
    // only the start cell changed
    let mut expected = unopened(3, 3);
    expected[1][1] = "1".to_string();
    assert_eq!(t, expected);
}

#[test]
fn reveal_counts_all_eight_neighbours() {
    let mines = [(0, 0), (0, 1), (0, 2), (1, 0), (1, 2), (2, 0), (2, 1), (2, 2)];
    let mut g = board(3, 3, &mines);
    let mut t = unopened(3, 3);
    count_nearby_mines(&mut t, &mut g, &[3, 3], [1, 1]);
    assert_eq!(t[1][1], "8");
}

#[test]
fn reveal_on_mine_or_off_board_changes_nothing() {
    let mut g = board(3, 3, &[(0, 0)]);
    let mut t = unopened(3, 3);
    count_nearby_mines(&mut t, &mut g, &[3, 3], [0, 0]);
    count_nearby_mines(&mut t, &mut g, &[3, 3], [-1, 2]);
    count_nearby_mines(&mut t, &mut g, &[3, 3], [3, 0]);
    count_nearby_mines(&mut t, &mut g, &[3, 3], [0, 5]);
    assert_eq!(t, unopened(3, 3));
    assert_eq!(g, board(3, 3, &[(0, 0)]));
}

#[test]
fn reveal_stops_at_opened_cells() {
    // the opened cell in the middle column is not opened again and blocks the fill
    let mut g = board(1, 3, &[]);
    g[0][1] = Cell::EmptyAndChecked;
    let mut t = texts(&[&["*", "_", "*"]]);
    count_nearby_mines(&mut t, &mut g, &[1, 3], [0, 0]);
    assert_eq!(t, texts(&[&["_", "_", "*"]]));
    assert_eq!(g[0][2], Cell::Empty);
}

#[test]
fn reveal_twice_changes_nothing_the_second_time() {
    let mut g = board(4, 4, &[(0, 3), (3, 0)]);
    let mut t = unopened(4, 4);
    count_nearby_mines(&mut t, &mut g, &[4, 4], [1, 1]);
    let (g1, t1) = (g.clone(), t.clone());
    count_nearby_mines(&mut t, &mut g, &[4, 4], [1, 1]);
    assert_eq!(g, g1);
    assert_eq!(t, t1);
}

#[test]
fn reveal_keeps_mines_and_opened_cells() {
    let mut g = board(4, 4, &[(0, 3), (3, 0)]);
    let mut t = unopened(4, 4);
    count_nearby_mines(&mut t, &mut g, &[4, 4], [0, 0]);
    let opened_before: Vec<(usize, usize)> = (0..4)
        .flat_map(|r| (0..4).map(move |c| (r, c)))
        .filter(|&(r, c)| g[r][c] == Cell::EmptyAndChecked)
        .collect();
    count_nearby_mines(&mut t, &mut g, &[4, 4], [3, 3]);
    assert_eq!(g[0][3], Cell::HasMine);
    assert_eq!(g[3][0], Cell::HasMine);
    for (r, c) in opened_before {
        assert_eq!(g[r][c], Cell::EmptyAndChecked);
    }
}

#[test]
fn count_closed_counts_unopened_and_flagged() {
    let t = texts(&[&["*", "P", "_"], &["1", "*", "_"]]);
    assert_eq!(count_closed(&t, &[2, 3]), 3);
}

#[test]
fn mine_slots_exclude_click_and_close_cells() {
    let g = board(9, 9, &[]);
    // out of custom mode: rows 0,1,7,8 and columns 0,1,7,8 around (4, 4)
    assert_eq!(count_mine_slots(&g, &[9, 9], [4, 4], false), 16);
    // in custom mode: every cell but the clicked one
    assert_eq!(count_mine_slots(&g, &[9, 9], [4, 4], true), 80);
    let g = board(2, 2, &[(1, 1)]);
    assert_eq!(count_mine_slots(&g, &[2, 2], [0, 0], true), 2);
}

#[test]
fn place_mines_lays_exactly_the_count_far_from_the_click() {
    for _ in 0..20 {
        let mut g = board(9, 9, &[]);
        place_mines(&mut g, &[9, 9], [4, 4], 10, false);
        assert_eq!(mines_of(&g), 10);
        for r in 0..9usize {
            for c in 0..9usize {
                if g[r][c] == Cell::HasMine {
                    assert!(r.abs_diff(4) >= 3 && c.abs_diff(4) >= 3);
                }
            }
        }
    }
}

#[test]
fn place_mines_fills_every_slot_when_asked() {
    let mut g = board(2, 2, &[]);
    place_mines(&mut g, &[2, 2], [0, 0], 3, true);
    assert_eq!(g, board(2, 2, &[(0, 1), (1, 0), (1, 1)]));
}

#[test]
fn place_mines_with_no_mines_changes_nothing() {
    let mut g = board(3, 3, &[]);
    place_mines(&mut g, &[3, 3], [1, 1], 0, true);
    assert_eq!(g, board(3, 3, &[]));
    place_mines(&mut g, &[3, 3], [1, 1], -4, true);
    assert_eq!(g, board(3, 3, &[]));
}
