//! Board construction, adjacency finalization, win detection and display
//! states, plus the diagram builder's validation and filtering.

use voronoi_mines::board::{Board, CellState, RevealOutcome};
use voronoi_mines::diagram::Diagram;
use voronoi_mines::geometry::{Coord, Rect};
use voronoi_mines::ErrorKind;

fn bounds() -> Rect {
    Rect {
        min: Coord { x: 0, y: 0 },
        max: Coord { x: 1000, y: 1000 },
    }
}

fn tri_sites() -> Vec<Coord> {
    vec![
        Coord { x: 0, y: 0 },
        Coord { x: 100, y: 0 },
        Coord { x: 0, y: 100 },
    ]
}

fn tri_diagram() -> Diagram {
    let raw = vec![vec![1, 2], vec![0, 2], vec![0, 1]];
    let polys = vec![Vec::new(), Vec::new(), Vec::new()];
    Diagram::build(&tri_sites(), bounds(), &raw, polys).unwrap()
}

#[test]
fn build_rejects_fewer_than_three_sites() {
    let sites = vec![Coord { x: 0, y: 0 }, Coord { x: 1, y: 1 }];
    let raw = vec![vec![1], vec![0]];
    let polys = vec![Vec::new(), Vec::new()];
    let r = Diagram::build(&sites, bounds(), &raw, polys);
    assert!(matches!(r, Err(ErrorKind::DegenerateInput)));
}

#[test]
fn build_rejects_coincident_sites() {
    let mut sites = tri_sites();
    sites[2] = sites[0];
    let raw = vec![vec![1, 2], vec![0, 2], vec![0, 1]];
    let polys = vec![Vec::new(), Vec::new(), Vec::new()];
    let r = Diagram::build(&sites, bounds(), &raw, polys);
    assert!(matches!(r, Err(ErrorKind::DegenerateInput)));
}

#[test]
fn build_rejects_out_of_range_coordinates() {
    let mut sites = tri_sites();
    sites[1] = Coord {
        x: 2_000_000,
        y: 0,
    };
    let raw = vec![vec![1, 2], vec![0, 2], vec![0, 1]];
    let polys = vec![Vec::new(), Vec::new(), Vec::new()];
    let r = Diagram::build(&sites, bounds(), &raw, polys);
    assert!(matches!(r, Err(ErrorKind::DegenerateInput)));
}

#[test]
fn build_rejects_mismatched_tessellation_output() {
    let raw = vec![vec![1, 2], vec![0, 2]];
    let polys = vec![Vec::new(), Vec::new(), Vec::new()];
    let r = Diagram::build(&tri_sites(), bounds(), &raw, polys);
    assert!(matches!(r, Err(ErrorKind::DegenerateInput)));
}

#[test]
fn build_filters_ghosts_and_symmetrizes() {
    // Ghost indices (7, 40) must vanish; the one-sided 2 -> 1 entry must
    // gain its mirror; self-loops are dropped.
    let raw = vec![vec![1, 7, 0], vec![0, 40], vec![1]];
    let polys = vec![Vec::new(), Vec::new(), Vec::new()];
    let d = Diagram::build(&tri_sites(), bounds(), &raw, polys).unwrap();
    assert_eq!(d.neighbors, vec![vec![1], vec![0, 2], vec![1]]);
    for i in 0..3 {
        for &j in &d.neighbors[i] {
            assert!(j < 3 && j != i);
            assert!(d.neighbors[j].contains(&i));
        }
    }
}

#[test]
fn build_keeps_one_polygon_per_site() {
    let raw = vec![vec![1, 2], vec![0, 2], vec![0, 1]];
    let polys = vec![
        vec![Coord { x: 0, y: 0 }, Coord { x: 50, y: 0 }],
        Vec::new(),
        Vec::new(),
    ];
    let d = Diagram::build(&tri_sites(), bounds(), &raw, polys).unwrap();
    assert_eq!(d.polygons.len(), 3);
    assert_eq!(d.polygons[0].len(), 2);
}

#[test]
fn adjacency_counts_follow_the_mine_layout() {
    let mut b = Board::new(&tri_sites(), tri_diagram());
    // Mine at 0 only: draws below 15 percent of 100.
    b.place_mines_with_draws(&vec![3, 99, 99]);
    b.finalize_adjacency();
    assert_eq!(b.cells[0].adjacent_mines, 0);
    assert_eq!(b.cells[1].adjacent_mines, 1);
    assert_eq!(b.cells[2].adjacent_mines, 1);
}

#[test]
fn mine_threshold_sits_at_fifteen_percent() {
    let mut b = Board::new(&tri_sites(), tri_diagram());
    b.place_mines_with_draws(&vec![14, 15, 114]);
    assert!(b.cells[0].is_mine);
    assert!(!b.cells[1].is_mine);
    assert!(b.cells[2].is_mine);
}

#[test]
fn uncover_reports_mines_and_idempotence() {
    let mut b = Board::new(&tri_sites(), tri_diagram());
    b.place_mines_with_draws(&vec![0, 99, 99]);
    assert_eq!(b.uncover(1), RevealOutcome::Safe);
    assert_eq!(b.uncover(1), RevealOutcome::AlreadyUncovered);
    assert_eq!(b.uncover(0), RevealOutcome::Mine);
}

#[test]
fn check_win_is_exact_flag_mine_agreement() {
    let mut b = Board::new(&tri_sites(), tri_diagram());
    b.place_mines_with_draws(&vec![0, 99, 99]);
    assert!(!b.check_win());
    b.toggle_flag(0);
    assert!(b.check_win());
    // One mismatched flag on a safe cell breaks it.
    b.toggle_flag(2);
    assert!(!b.check_win());
    b.toggle_flag(2);
    assert!(b.check_win());
}

#[test]
fn a_board_with_no_mines_and_no_flags_is_won() {
    let b = Board::new(&tri_sites(), tri_diagram());
    assert!(b.check_win());
}

#[test]
fn toggle_flag_skips_uncovered_cells() {
    let mut b = Board::new(&tri_sites(), tri_diagram());
    b.uncover(1);
    b.toggle_flag(1);
    assert!(!b.cells[1].flagged);
    b.toggle_flag(2);
    assert!(b.cells[2].flagged);
    b.toggle_flag(2);
    assert!(!b.cells[2].flagged);
}

#[test]
fn display_states_cover_the_four_looks() {
    let mut b = Board::new(&tri_sites(), tri_diagram());
    b.place_mines_with_draws(&vec![0, 99, 99]);
    assert_eq!(b.cells[1].display_state(), CellState::Covered);
    b.toggle_flag(2);
    assert_eq!(b.cells[2].display_state(), CellState::Flagged);
    b.uncover(1);
    assert_eq!(b.cells[1].display_state(), CellState::RevealedSafe);
    b.uncover(0);
    assert_eq!(b.cells[0].display_state(), CellState::RevealedMine);
}
