//! End-to-end session scenarios over a fixed 20-site board.

use voronoi_mines::board::Board;
use voronoi_mines::diagram::Diagram;
use voronoi_mines::geometry::{Coord, Rect};
use voronoi_mines::session::{Game, Phase};
use voronoi_mines::ErrorKind;

fn sites20() -> Vec<Coord> {
    let mut v = Vec::new();
    for k in 0..20i64 {
        v.push(Coord {
            x: (k % 5) * 100,
            y: (k / 5) * 100,
        });
    }
    v
}

/// A 20-cell graph whose cells {0,1,2,4,5,6} form an isolated connected
/// component, so that with mines at {3,7,12} they are a six-cell
/// zero-adjacency region. Cell 0's list carries a ghost index (25).
fn raw_neighbors20() -> Vec<Vec<usize>> {
    let mut raw: Vec<Vec<usize>> = vec![Vec::new(); 20];
    raw[0] = vec![1, 4, 25];
    raw[1] = vec![0, 2];
    raw[2] = vec![1, 5];
    raw[4] = vec![0, 5];
    raw[5] = vec![2, 4, 6];
    raw[6] = vec![5];
    raw[3] = vec![9];
    raw[7] = vec![8];
    raw[8] = vec![7, 9];
    raw[9] = vec![3, 8];
    for k in 10..20usize {
        if k > 10 {
            raw[k].push(k - 1);
        }
        if k < 19 {
            raw[k].push(k + 1);
        }
    }
    raw
}

fn bounds() -> Rect {
    Rect {
        min: Coord { x: 0, y: 0 },
        max: Coord { x: 500, y: 400 },
    }
}

fn fresh_game() -> Game {
    let sites = sites20();
    let polys: Vec<Vec<Coord>> = vec![Vec::new(); 20];
    let d = Diagram::build(&sites, bounds(), &raw_neighbors20(), polys).unwrap();
    let board = Board::new(&sites, d);
    Game::new(board)
}

/// Draws that put mines exactly at indices 3, 7 and 12.
fn draws_mines_3_7_12() -> Vec<u64> {
    let mut draws = vec![99u64; 20];
    draws[3] = 0;
    draws[7] = 0;
    draws[12] = 0;
    draws
}

fn covered_set(g: &Game) -> Vec<usize> {
    (0..g.board.cells.len())
        .filter(|&i| !g.board.cells[i].covered)
        .collect()
}

#[test]
fn setup_phase_and_mine_placement() {
    let mut g = fresh_game();
    assert_eq!(g.phase, Phase::Setup);
    g.place_mines_with_draws(&draws_mines_3_7_12());
    assert_eq!(g.phase, Phase::FirstClickPending);
    for i in 0..20 {
        assert_eq!(g.board.cells[i].is_mine, i == 3 || i == 7 || i == 12);
        assert!(g.board.cells[i].covered);
        assert!(!g.board.cells[i].flagged);
    }
}

#[test]
fn first_reveal_uncovers_exactly_the_zero_region() {
    let mut g = fresh_game();
    g.place_mines_with_draws(&draws_mines_3_7_12());
    g.reveal_action(0).unwrap();
    assert_eq!(g.phase, Phase::InProgress);
    assert_eq!(covered_set(&g), vec![0, 1, 2, 4, 5, 6]);
    // Cell 10 has a zero count too, but sits in another component.
    assert_eq!(g.board.cells[10].adjacent_mines, 0);
    assert!(g.board.cells[10].covered);
}

#[test]
fn first_click_on_a_mine_is_corrected() {
    let mut g = fresh_game();
    g.place_mines_with_draws(&draws_mines_3_7_12());
    assert!(g.board.cells[3].is_mine);
    g.reveal_action(3).unwrap();
    assert_eq!(g.phase, Phase::InProgress);
    assert!(!g.board.cells[3].is_mine);
    assert!(!g.board.cells[3].covered);
    // The other mines stay, and counts were finalized after the correction.
    assert!(g.board.cells[7].is_mine);
    assert!(g.board.cells[12].is_mine);
    assert_eq!(g.board.cells[9].adjacent_mines, 0);
    assert_eq!(g.board.cells[8].adjacent_mines, 1);
}

#[test]
fn revealing_a_mine_after_first_click_loses_without_cascade() {
    let mut g = fresh_game();
    g.place_mines_with_draws(&draws_mines_3_7_12());
    g.reveal_action(0).unwrap();
    let before = g.board.cells.clone();
    g.reveal_action(3).unwrap();
    assert_eq!(g.phase, Phase::Lost);
    assert!(!g.board.cells[3].covered);
    for i in 0..20 {
        if i != 3 {
            assert_eq!(g.board.cells[i], before[i]);
        }
    }
}

#[test]
fn revealing_an_uncovered_cell_changes_nothing() {
    let mut g = fresh_game();
    g.place_mines_with_draws(&draws_mines_3_7_12());
    g.reveal_action(0).unwrap();
    let cells_before = g.board.cells.clone();
    let phase_before = g.phase;
    g.reveal_action(0).unwrap();
    assert_eq!(g.board.cells, cells_before);
    assert_eq!(g.phase, phase_before);
}

#[test]
fn cascade_does_not_cross_a_flagged_cell() {
    let mut g = fresh_game();
    g.place_mines_with_draws(&draws_mines_3_7_12());
    g.flag_action(5).unwrap();
    assert!(g.board.cells[5].flagged);
    g.reveal_action(0).unwrap();
    assert_eq!(g.phase, Phase::InProgress);
    // 5 is flagged, so it stays covered and 6 (reachable only through 5) too.
    assert_eq!(covered_set(&g), vec![0, 1, 2, 4]);
}

#[test]
fn reveal_on_a_covered_nonzero_cell_uncovers_it_alone() {
    let mut g = fresh_game();
    g.place_mines_with_draws(&draws_mines_3_7_12());
    g.reveal_action(0).unwrap();
    // Cell 8 borders mine 7: count 1, no cascade.
    g.reveal_action(8).unwrap();
    assert_eq!(g.phase, Phase::InProgress);
    assert_eq!(g.board.cells[8].adjacent_mines, 1);
    assert_eq!(covered_set(&g), vec![0, 1, 2, 4, 5, 6, 8]);
}

#[test]
fn flagging_all_mines_and_nothing_else_wins() {
    let mut g = fresh_game();
    g.place_mines_with_draws(&draws_mines_3_7_12());
    g.flag_action(3).unwrap();
    assert_eq!(g.phase, Phase::FirstClickPending);
    g.flag_action(7).unwrap();
    assert_eq!(g.phase, Phase::FirstClickPending);
    g.flag_action(12).unwrap();
    assert_eq!(g.phase, Phase::Won);
    // Terminal: further actions are ignored.
    let cells_before = g.board.cells.clone();
    g.reveal_action(0).unwrap();
    g.flag_action(0).unwrap();
    assert_eq!(g.board.cells, cells_before);
    assert_eq!(g.phase, Phase::Won);
}

#[test]
fn an_extra_flag_on_a_safe_cell_blocks_the_win() {
    let mut g = fresh_game();
    g.place_mines_with_draws(&draws_mines_3_7_12());
    g.flag_action(3).unwrap();
    g.flag_action(7).unwrap();
    g.flag_action(0).unwrap();
    g.flag_action(12).unwrap();
    assert_eq!(g.phase, Phase::FirstClickPending);
    g.flag_action(0).unwrap();
    assert_eq!(g.phase, Phase::Won);
}

#[test]
fn flagging_an_uncovered_cell_is_a_no_op() {
    let mut g = fresh_game();
    g.place_mines_with_draws(&draws_mines_3_7_12());
    g.reveal_action(0).unwrap();
    let cells_before = g.board.cells.clone();
    g.flag_action(0).unwrap();
    assert_eq!(g.board.cells, cells_before);
    assert!(!g.board.cells[0].flagged);
}

#[test]
fn out_of_range_actions_are_rejected() {
    let mut g = fresh_game();
    g.place_mines_with_draws(&draws_mines_3_7_12());
    assert_eq!(g.reveal_action(20), Err(ErrorKind::IndexOutOfRange));
    assert_eq!(g.flag_action(99), Err(ErrorKind::IndexOutOfRange));
    assert_eq!(g.phase, Phase::FirstClickPending);
}

#[test]
fn random_placement_still_yields_a_safe_first_click() {
    let mut g = fresh_game();
    g.place_mines();
    assert_eq!(g.phase, Phase::FirstClickPending);
    g.reveal_action(13).unwrap();
    assert_eq!(g.phase, Phase::InProgress);
    assert!(!g.board.cells[13].is_mine);
    assert!(!g.board.cells[13].covered);
}
