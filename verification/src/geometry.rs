//! Integer plane geometry: coordinates, squared distances, and the
//! nearest-site locator that maps a query point to a board index.

use crate::ErrorKind;
use vstd::prelude::*;

verus! {

/// Largest coordinate magnitude the library accepts. Keeping every component
/// within this bound guarantees that squared distances fit in an `i64`.
pub const COORD_LIMIT: i64 = 1_000_000;

/// A position on the plane in integer units (for instance, pixels).
#[derive(Clone, Copy, Debug, PartialEq, Eq, Structural)]
pub struct Coord {
    pub x: i64,
    pub y: i64,
}

impl Coord {
    /// Both components are small enough that squared distances cannot
    /// overflow an `i64`.
    pub open spec fn bounded(self) -> bool {
        -COORD_LIMIT <= self.x <= COORD_LIMIT && -COORD_LIMIT <= self.y <= COORD_LIMIT
    }
}

/// The axis-aligned rectangle the tessellation was clipped to.
#[derive(Clone, Copy, Debug, PartialEq, Eq, Structural)]
pub struct Rect {
    pub min: Coord,
    pub max: Coord,
}

/// Squared Euclidean distance between two coordinates, as a mathematical
/// integer.
pub open spec fn spec_dist_sq(a: Coord, b: Coord) -> int {
    (a.x - b.x) * (a.x - b.x) + (a.y - b.y) * (a.y - b.y)
}

/// A squared distance is never negative, and is zero exactly for coincident
/// points.
pub proof fn lemma_dist_sq_zero(a: Coord, b: Coord)
    ensures
        spec_dist_sq(a, b) >= 0,
        spec_dist_sq(a, b) == 0 <==> a == b,
{
    let dx = a.x - b.x;
    let dy = a.y - b.y;
    assert(dx * dx >= 0 && dy * dy >= 0 && (dx * dx + dy * dy == 0 ==> dx == 0 && dy == 0) && (dx
        == 0 && dy == 0 ==> dx * dx + dy * dy == 0)) by (nonlinear_arith);
}

/// Squared Euclidean distance between two bounded coordinates.
pub fn dist_sq(a: &Coord, b: &Coord) -> (r: i64)
    requires
        a.bounded(),
        b.bounded(),
    ensures
        r == spec_dist_sq(*a, *b),
        r >= 0,
{
    let dx: i64 = a.x - b.x;
    let dy: i64 = a.y - b.y;
    proof {
        assert(dx * dx >= 0 && dx * dx <= 4_000_000_000_000) by (nonlinear_arith)
            requires
                -2_000_000 <= dx <= 2_000_000,
        ;
        assert(dy * dy >= 0 && dy * dy <= 4_000_000_000_000) by (nonlinear_arith)
            requires
                -2_000_000 <= dy <= 2_000_000,
        ;
    }
    dx * dx + dy * dy
}

/// The signed jitter a raw draw denotes: the draw reduced modulo 201 and
/// centered, giving a displacement in `[-100, 100]`.
pub open spec fn spec_jitter(draw: u64) -> int {
    (draw % 201) - 100
}

/// The position of grid line `g` of `c` lines over a span with `pad` margin,
/// displaced by `jitter`.
pub open spec fn spec_axis_pos(g: int, step: int, pad: int, jitter: int) -> int {
    pad + g * step + jitter
}

/// The site layout the original board uses: a `cx` by `cy` grid of sites over
/// a `w` by `h` canvas with a `pad` margin on every side, each site displaced
/// by a jitter taken from two raw draws (x then y). Site `k` sits at grid
/// column `k / cy` and row `k % cy`.
pub fn sites_from_draws(cx: usize, cy: usize, w: i64, h: i64, pad: i64, draws: &Vec<u64>) -> (r:
    Vec<Coord>)
    requires
        1 <= cx <= 1000,
        1 <= cy <= 1000,
        0 <= pad,
        2 * pad < w <= 100_000,
        2 * pad < h <= 100_000,
        draws@.len() == 2 * (cx * cy),
    ensures
        r@.len() == cx * cy,
        forall|k: int| 0 <= k < r@.len() ==> (#[trigger] r@[k]).bounded(),
        forall|k: int|
            0 <= k < r@.len() ==> (#[trigger] r@[k]) == (Coord {
                x: spec_axis_pos(
                    k / (cy as int),
                    (w - 2 * pad) / (cx as int),
                    pad as int,
                    spec_jitter(draws@[2 * k]),
                ) as i64,
                y: spec_axis_pos(
                    k % (cy as int),
                    (h - 2 * pad) / (cy as int),
                    pad as int,
                    spec_jitter(draws@[2 * k + 1]),
                ) as i64,
            }),
{
    let span_x = w - 2 * pad;
    let span_y = h - 2 * pad;
    let step_x = span_x / (cx as i64);
    let step_y = span_y / (cy as i64);
    proof {
        vstd::arithmetic::div_mod::lemma_fundamental_div_mod(span_x as int, cx as int);
        vstd::arithmetic::div_mod::lemma_fundamental_div_mod(span_y as int, cy as int);
        assert((cx as int) * (step_x as int) <= span_x && step_x >= 0 && (cy as int) * (step_y
            as int) <= span_y && step_y >= 0) by (nonlinear_arith)
            requires
                1 <= cx <= 1000,
                1 <= cy <= 1000,
                0 < span_x <= 100_000,
                0 < span_y <= 100_000,
                span_x == (cx as int) * (step_x as int) + (span_x as int % (cx as int)),
                span_y == (cy as int) * (step_y as int) + (span_y as int % (cy as int)),
                0 <= span_x as int % (cx as int),
                0 <= span_y as int % (cy as int),
        ;
    }
    let mut r: Vec<Coord> = Vec::new();
    let mut gx: usize = 0;
    while gx < cx
        invariant
            gx <= cx,
            r@.len() == gx * cy,
            1 <= cx <= 1000,
            1 <= cy <= 1000,
            0 <= pad,
            2 * pad < w <= 100_000,
            2 * pad < h <= 100_000,
            draws@.len() == 2 * (cx * cy),
            span_x == w - 2 * pad,
            span_y == h - 2 * pad,
            step_x == span_x as int / (cx as int),
            step_y == span_y as int / (cy as int),
            0 <= step_x,
            0 <= step_y,
            (cx as int) * (step_x as int) <= span_x,
            (cy as int) * (step_y as int) <= span_y,
            forall|k: int| 0 <= k < r@.len() ==> (#[trigger] r@[k]).bounded(),
            forall|k: int|
                0 <= k < r@.len() ==> (#[trigger] r@[k]) == (Coord {
                    x: spec_axis_pos(
                        k / (cy as int),
                        step_x as int,
                        pad as int,
                        spec_jitter(draws@[2 * k]),
                    ) as i64,
                    y: spec_axis_pos(
                        k % (cy as int),
                        step_y as int,
                        pad as int,
                        spec_jitter(draws@[2 * k + 1]),
                    ) as i64,
                }),
        decreases cx - gx,
    {
        let mut gy: usize = 0;
        proof {
            assert((gx + 1) * cy == gx * cy + cy) by (nonlinear_arith);
            assert(gx * cy + cy <= cx * cy) by (nonlinear_arith)
                requires
                    gx < cx,
                    1 <= cy,
            ;
            assert(0 <= gx * cy) by (nonlinear_arith)
                requires
                    0 <= gx,
                    0 <= cy,
            ;
            assert(cx * cy <= 1_000_000) by (nonlinear_arith)
                requires
                    cx <= 1000,
                    cy <= 1000,
            ;
        }
        while gy < cy
            invariant
                gy <= cy,
                gx < cx,
                r@.len() == gx * cy + gy,
                gx * cy + cy <= cx * cy,
                0 <= gx * cy,
                cx * cy <= 1_000_000,
                1 <= cx <= 1000,
                1 <= cy <= 1000,
                0 <= pad,
                2 * pad < w <= 100_000,
                2 * pad < h <= 100_000,
                draws@.len() == 2 * (cx * cy),
                span_x == w - 2 * pad,
                span_y == h - 2 * pad,
                0 <= step_x,
                0 <= step_y,
                (cx as int) * (step_x as int) <= span_x,
                (cy as int) * (step_y as int) <= span_y,
                forall|k: int| 0 <= k < r@.len() ==> (#[trigger] r@[k]).bounded(),
                forall|k: int|
                    0 <= k < r@.len() ==> (#[trigger] r@[k]) == (Coord {
                        x: spec_axis_pos(
                            k / (cy as int),
                            step_x as int,
                            pad as int,
                            spec_jitter(draws@[2 * k]),
                        ) as i64,
                        y: spec_axis_pos(
                            k % (cy as int),
                            step_y as int,
                            pad as int,
                            spec_jitter(draws@[2 * k + 1]),
                        ) as i64,
                    }),
            decreases cy - gy,
        {
            let k = gx * cy + gy;
            let jx = (draws[2 * k] % 201) as i64 - 100;
            let jy = (draws[2 * k + 1] % 201) as i64 - 100;
            proof {
                assert((gx as int) * (step_x as int) <= span_x && 0 <= (gx as int) * (step_x
                    as int)) by (nonlinear_arith)
                    requires
                        0 <= gx < cx,
                        0 <= step_x,
                        (cx as int) * (step_x as int) <= span_x,
                ;
                assert((gy as int) * (step_y as int) <= span_y && 0 <= (gy as int) * (step_y
                    as int)) by (nonlinear_arith)
                    requires
                        0 <= gy < cy,
                        0 <= step_y,
                        (cy as int) * (step_y as int) <= span_y,
                ;
            }
            let x = pad + (gx as i64) * step_x + jx;
            let y = pad + (gy as i64) * step_y + jy;
            r.push(Coord { x, y });
            proof {
                vstd::arithmetic::div_mod::lemma_fundamental_div_mod_converse(
                    k as int,
                    cy as int,
                    gx as int,
                    gy as int,
                );
            }
            gy = gy + 1;
        }
        gx = gx + 1;
        proof {
            assert((gx - 1) * cy + cy == gx * cy) by (nonlinear_arith);
        }
    }
    proof {
        assert(cx * cy == (cx as int) * (cy as int)) by (nonlinear_arith);
    }
    r
}

/// Random site layout: the jittered grid with fresh draws. Where each site
/// lands depends on the generator; the count and the bounds hold always.
pub fn generate_sites(cx: usize, cy: usize, w: i64, h: i64, pad: i64) -> (r: Vec<Coord>)
    requires
        1 <= cx <= 1000,
        1 <= cy <= 1000,
        0 <= pad,
        2 * pad < w <= 100_000,
        2 * pad < h <= 100_000,
    ensures
        r@.len() == cx * cy,
        forall|k: int| 0 <= k < r@.len() ==> (#[trigger] r@[k]).bounded(),
{
    proof {
        assert(cx * cy <= 1_000_000) by (nonlinear_arith)
            requires
                cx <= 1000,
                cy <= 1000,
        ;
    }
    let total = 2 * (cx * cy);
    let mut draws: Vec<u64> = Vec::new();
    let mut i: usize = 0;
    while i < total
        invariant
            draws@.len() == i,
            i <= total,
        decreases total - i,
    {
        let d: u64 = rand::random::<u64>();
        draws.push(d);
        i = i + 1;
    }
    sites_from_draws(cx, cy, w, h, pad, &draws)
}

/// Nearest-site locator: the index of the site closest to `q` under squared
/// Euclidean distance, together with that squared distance. Ties are broken
/// by the first occurrence in the site order. An empty site list is a setup
/// error, reported rather than given a sentinel.
pub fn locate(q: &Coord, sites: &Vec<Coord>) -> (r: Result<(usize, i64), ErrorKind>)
    requires
        q.bounded(),
        forall|i: int| 0 <= i < sites@.len() ==> (#[trigger] sites@[i]).bounded(),
    ensures
        r is Err <==> sites@.len() == 0,
        r is Err ==> r->Err_0 == ErrorKind::EmptyBoard,
        r is Ok ==> 0 <= r->Ok_0.0 < sites@.len(),
        r is Ok ==> r->Ok_0.1 == spec_dist_sq(*q, sites@[r->Ok_0.0 as int]),
        r is Ok ==> forall|j: int|
            0 <= j < sites@.len() ==> spec_dist_sq(*q, #[trigger] sites@[j]) >= r->Ok_0.1,
        r is Ok ==> forall|j: int|
            0 <= j < r->Ok_0.0 ==> spec_dist_sq(*q, #[trigger] sites@[j]) > r->Ok_0.1,
        (exists|i: int| 0 <= i < sites@.len() && sites@[i] == *q) ==> r is Ok && r->Ok_0.1 == 0
            && sites@[r->Ok_0.0 as int] == *q,
{
    if sites.len() == 0 {
        return Err(ErrorKind::EmptyBoard);
    }
    let mut best_i: usize = 0;
    let mut best_d: i64 = dist_sq(q, &sites[0]);
    let mut k: usize = 1;
    while k < sites.len()
        invariant
            1 <= k <= sites@.len(),
            0 <= best_i < k,
            q.bounded(),
            forall|i: int| 0 <= i < sites@.len() ==> (#[trigger] sites@[i]).bounded(),
            best_d == spec_dist_sq(*q, sites@[best_i as int]),
            forall|j: int| 0 <= j < k ==> spec_dist_sq(*q, #[trigger] sites@[j]) >= best_d,
            forall|j: int| 0 <= j < best_i ==> spec_dist_sq(*q, #[trigger] sites@[j]) > best_d,
        decreases sites@.len() - k,
    {
        let d = dist_sq(q, &sites[k]);
        if d < best_d {
            best_d = d;
            best_i = k;
        }
        k = k + 1;
    }
    proof {
        if exists|i: int| 0 <= i < sites@.len() && sites@[i] == *q {
            let w = choose|i: int| 0 <= i < sites@.len() && sites@[i] == *q;
            lemma_dist_sq_zero(*q, sites@[w]);
            lemma_dist_sq_zero(*q, sites@[best_i as int]);
        }
    }
    Ok((best_i, best_d))
}

} // verus!
