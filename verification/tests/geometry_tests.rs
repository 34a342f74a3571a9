//! Locator, distance and site-layout behavior.

use voronoi_mines::geometry::{dist_sq, locate, sites_from_draws, Coord};
use voronoi_mines::ErrorKind;

#[test]
fn squared_distance_is_exact() {
    let a = Coord { x: 3, y: -4 };
    let b = Coord { x: 0, y: 0 };
    assert_eq!(dist_sq(&a, &b), 25);
    assert_eq!(dist_sq(&a, &a), 0);
}

#[test]
fn locate_at_a_site_returns_that_site_with_distance_zero() {
    let sites = vec![
        Coord { x: 10, y: 10 },
        Coord { x: 200, y: 50 },
        Coord { x: -30, y: 70 },
    ];
    let q = Coord { x: 200, y: 50 };
    assert_eq!(locate(&q, &sites), Ok((1, 0)));
}

#[test]
fn locate_picks_the_nearest_site() {
    let sites = vec![
        Coord { x: 0, y: 0 },
        Coord { x: 100, y: 0 },
        Coord { x: 0, y: 100 },
    ];
    let q = Coord { x: 90, y: 10 };
    assert_eq!(locate(&q, &sites), Ok((1, 200)));
}

#[test]
fn locate_breaks_ties_by_first_occurrence() {
    let sites = vec![
        Coord { x: -10, y: 0 },
        Coord { x: 10, y: 0 },
        Coord { x: 0, y: 10 },
    ];
    // Equidistant from sites 0 and 1; the first wins.
    let q = Coord { x: 0, y: 0 };
    assert_eq!(locate(&q, &sites), Ok((0, 100)));
}

#[test]
fn locate_on_an_empty_board_fails() {
    let sites: Vec<Coord> = Vec::new();
    let q = Coord { x: 0, y: 0 };
    assert_eq!(locate(&q, &sites), Err(ErrorKind::EmptyBoard));
}

#[test]
fn site_layout_follows_the_jittered_grid_formula() {
    // Two by two grid over a 1000 x 800 canvas with a 100 margin:
    // steps of 400 and 300. A draw of 100 means zero jitter.
    let draws = vec![100u64; 8];
    let sites = sites_from_draws(2, 2, 1000, 800, 100, &draws);
    assert_eq!(
        sites,
        vec![
            Coord { x: 100, y: 100 },
            Coord { x: 100, y: 400 },
            Coord { x: 500, y: 100 },
            Coord { x: 500, y: 400 },
        ]
    );
}

#[test]
fn jitter_spans_plus_minus_one_hundred() {
    // Draw 0 is the most negative jitter, 200 the most positive, and the
    // draw is reduced modulo 201 (so 201 wraps to -100 and 301 to 0).
    let draws = vec![0u64, 200, 201, 301, 100, 100, 100, 100];
    let sites = sites_from_draws(2, 2, 1000, 800, 100, &draws);
    assert_eq!(sites[0], Coord { x: 0, y: 200 });
    assert_eq!(sites[1], Coord { x: 0, y: 400 });
    assert_eq!(sites[2], Coord { x: 500, y: 100 });
}
