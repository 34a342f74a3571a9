//! The tessellation side of the board: per-site polygons and the neighbor
//! graph. Raw tessellation output may reference ghost sites (artifacts of
//! boundary clipping) and is not trusted to be symmetric; construction
//! range-filters and symmetrizes it, so that a well-formed `Diagram` always
//! carries a symmetric, in-range, duplicate-free neighbor relation.

use crate::geometry::{Coord, Rect};
use crate::ErrorKind;
use vstd::prelude::*;

verus! {

/// A planar Voronoi tessellation reduced to what the game logic reads: one
/// polygon and one neighbor set per site, all indexed by site order.
pub struct Diagram {
    /// For each site, the indices of the sites whose cells share an edge.
    pub neighbors: Vec<Vec<usize>>,
    /// For each site, the vertices of its cell, clipped to `bounds`.
    pub polygons: Vec<Vec<Coord>>,
    /// The rectangle the tessellation was clipped to.
    pub bounds: Rect,
}

/// The neighbor relation present in raw tessellation output, made symmetric
/// and restricted to real (in-range, non-self) sites.
pub open spec fn spec_raw_edge(raw: Seq<Seq<usize>>, n: int, i: int, j: int) -> bool {
    &&& 0 <= i < n
    &&& 0 <= j < n
    &&& i != j
    &&& (raw[i].contains(j as usize) || raw[j].contains(i as usize))
}

/// Inputs on which the tessellation is undefined and construction must fail:
/// fewer than three sites, coincident sites, coordinates outside the
/// representable range, or raw output whose shape does not match the sites.
pub open spec fn spec_degenerate(sites: Seq<Coord>, n_nbrs: int, n_polys: int) -> bool {
    ||| sites.len() < 3
    ||| exists|i: int, j: int| 0 <= i < j < sites.len() && sites[i] == sites[j]
    ||| exists|i: int| 0 <= i < sites.len() && !(#[trigger] sites[i]).bounded()
    ||| n_nbrs != sites.len()
    ||| n_polys != sites.len()
}

impl Diagram {
    /// Number of sites (one neighbor set per site).
    pub open spec fn n(self) -> int {
        self.neighbors@.len() as int
    }

    /// Sites `i` and `j` are adjacent: their cells share an edge.
    pub open spec fn edge(self, i: int, j: int) -> bool {
        &&& 0 <= i < self.n()
        &&& 0 <= j < self.n()
        &&& self.neighbors@[i]@.contains(j as usize)
    }

    /// Well-formedness: at least three sites, one polygon per site, and a
    /// neighbor relation that is in-range, irreflexive, duplicate-free and
    /// symmetric.
    pub open spec fn wf(self) -> bool {
        &&& self.n() >= 3
        &&& self.polygons@.len() == self.n()
        &&& forall|i: int|
            0 <= i < self.n() ==> (#[trigger] self.neighbors@[i])@.no_duplicates()
        &&& forall|i: int, k: int|
            0 <= i < self.n() && 0 <= k < self.neighbors@[i]@.len() ==> (
            #[trigger] self.neighbors@[i]@[k]) < self.n() && self.neighbors@[i]@[k] as int != i
        &&& forall|i: int, j: int| #[trigger] self.edge(i, j) ==> self.edge(j, i)
    }

    /// The Diagram Builder. `raw_neighbors` and `raw_polygons` are the raw
    /// per-site tessellation output for `sites` clipped to `bounds`; ghost
    /// neighbor indices are dropped here, once, so no later consumer needs to
    /// range-check. Fails exactly on degenerate input; on success the result
    /// has one polygon and one neighbor set per site, and its neighbor
    /// relation is the symmetrized raw relation.
    pub fn build(
        sites: &Vec<Coord>,
        bounds: Rect,
        raw_neighbors: &Vec<Vec<usize>>,
        raw_polygons: Vec<Vec<Coord>>,
    ) -> (r: Result<Diagram, ErrorKind>)
        ensures
            r is Err <==> spec_degenerate(
                sites@,
                raw_neighbors@.len() as int,
                raw_polygons@.len() as int,
            ),
            r is Err ==> r->Err_0 == ErrorKind::DegenerateInput,
            r is Ok ==> r->Ok_0.wf(),
            r is Ok ==> r->Ok_0.n() == sites@.len(),
            r is Ok ==> r->Ok_0.polygons@ == raw_polygons@,
            r is Ok ==> r->Ok_0.bounds == bounds,
            r is Ok ==> forall|i: int, j: int|
                r->Ok_0.edge(i, j) <==> spec_raw_edge(
                    raw_neighbors@.map_values(|v: Vec<usize>| v@),
                    sites@.len() as int,
                    i,
                    j,
                ),
            r is Ok ==> forall|i: int, j: int|
                r->Ok_0.edge(i, j) <==> r->Ok_0.edge(j, i),
    {
        let n = sites.len();
        if n < 3 || raw_neighbors.len() != n || raw_polygons.len() != n {
            return Err(ErrorKind::DegenerateInput);
        }
        let mut i: usize = 0;
        while i < n
            invariant
                n == sites@.len(),
                forall|k: int| 0 <= k < i ==> (#[trigger] sites@[k]).bounded(),
            decreases n - i,
        {
            let s = sites[i];
            if s.x < -crate::geometry::COORD_LIMIT || s.x > crate::geometry::COORD_LIMIT
                || s.y < -crate::geometry::COORD_LIMIT || s.y > crate::geometry::COORD_LIMIT {
                return Err(ErrorKind::DegenerateInput);
            }
            i = i + 1;
        }
        let mut i: usize = 0;
        while i < n
            invariant
                n == sites@.len(),
                forall|a: int, b: int| 0 <= a < b < sites@.len() && a < i ==> sites@[a]
                    != sites@[b],
            decreases n - i,
        {
            let mut j: usize = i + 1;
            while j < n
                invariant
                    n == sites@.len(),
                    i < n,
                    i < j,
                    forall|b: int| i < b < j ==> sites@[i as int] != sites@[b],
                decreases n - j,
            {
                if sites[i] == sites[j] {
                    return Err(ErrorKind::DegenerateInput);
                }
                j = j + 1;
            }
            i = i + 1;
        }
        let ghost raw: Seq<Seq<usize>> = raw_neighbors@.map_values(|v: Vec<usize>| v@);
        let mut neighbors: Vec<Vec<usize>> = Vec::new();
        let mut i: usize = 0;
        while i < n
            invariant
                n == sites@.len(),
                n == raw_neighbors@.len(),
                n >= 3,
                raw == raw_neighbors@.map_values(|v: Vec<usize>| v@),
                neighbors@.len() == i,
                i <= n,
                forall|a: int|
                    0 <= a < i ==> (#[trigger] neighbors@[a])@.no_duplicates(),
                forall|a: int, j: int|
                    0 <= a < i ==> (neighbors@[a]@.contains(j as usize) && 0 <= j <= usize::MAX
                        <==> #[trigger] spec_raw_edge(raw, n as int, a, j)),
            decreases n - i,
        {
            let mut row: Vec<usize> = Vec::new();
            let mut j: usize = 0;
            while j < n
                invariant
                    n == sites@.len(),
                    n == raw_neighbors@.len(),
                    i < n,
                    j <= n,
                    raw == raw_neighbors@.map_values(|v: Vec<usize>| v@),
                    forall|k: int| 0 <= k < row@.len() ==> (#[trigger] row@[k]) < j,
                    forall|k1: int, k2: int|
                        0 <= k1 < k2 < row@.len() ==> (#[trigger] row@[k1]) < (
                        #[trigger] row@[k2]),
                    forall|b: int|
                        row@.contains(b as usize) && 0 <= b <= usize::MAX <==> (spec_raw_edge(
                            raw,
                            n as int,
                            i as int,
                            b,
                        ) && b < j),
                decreases n - j,
            {
                proof {
                    assert(raw[i as int] == raw_neighbors@[i as int]@);
                    assert(raw[j as int] == raw_neighbors@[j as int]@);
                }
                if j != i && (contains_index(&raw_neighbors[i], j) || contains_index(
                    &raw_neighbors[j],
                    i,
                )) {
                    let ghost old_row = row@;
                    row.push(j);
                    proof {
                        assert forall|b: int|
                            row@.contains(b as usize) && 0 <= b
                                <= usize::MAX implies (spec_raw_edge(raw, n as int, i as int, b)
                            && b < j + 1) by {
                            if b != j {
                                let k = choose|k: int|
                                    0 <= k < row@.len() && row@[k] == b as usize;
                                assert(old_row[k] == b as usize);
                                assert(old_row.contains(b as usize));
                            }
                        }
                        assert forall|b: int|
                            spec_raw_edge(raw, n as int, i as int, b) && b < j
                                + 1 implies row@.contains(b as usize) by {
                            if b == j {
                                assert(row@[row@.len() - 1] == j);
                            } else {
                                assert(old_row.contains(b as usize));
                                let k = choose|k: int|
                                    0 <= k < old_row.len() && old_row[k] == b as usize;
                                assert(row@[k] == b as usize);
                            }
                        }
                    }
                }
                j = j + 1;
            }
            neighbors.push(row);
            i = i + 1;
        }
        let d = Diagram { neighbors, polygons: raw_polygons, bounds };
        proof {
            assert forall|a: int, b: int| #[trigger] d.edge(a, b) implies spec_raw_edge(
                raw,
                n as int,
                a,
                b,
            ) by {
                assert(d.neighbors@[a]@.contains(b as usize));
            }
            assert forall|a: int, b: int|
                spec_raw_edge(raw, n as int, a, b) implies d.edge(a, b) by {
                assert(d.neighbors@[a]@.contains(b as usize));
            }
            assert forall|a: int, k: int|
                0 <= a < d.n() && 0 <= k < d.neighbors@[a]@.len() implies (
            #[trigger] d.neighbors@[a]@[k]) < d.n() && d.neighbors@[a]@[k] as int != a by {
                let b = d.neighbors@[a]@[k];
                assert(d.neighbors@[a]@.contains(b));
                assert(spec_raw_edge(raw, n as int, a, b as int));
            }
        }
        Ok(d)
    }
}

/// Whether `x` occurs in `v`, by linear scan.
pub fn contains_index(v: &Vec<usize>, x: usize) -> (r: bool)
    ensures
        r == v@.contains(x),
{
    let mut k: usize = 0;
    while k < v.len()
        invariant
            k <= v@.len(),
            forall|m: int| 0 <= m < k ==> v@[m] != x,
        decreases v@.len() - k,
    {
        if v[k] == x {
            return true;
        }
        k = k + 1;
    }
    false
}

} // verus!
