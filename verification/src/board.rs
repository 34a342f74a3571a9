//! Board state: the per-site cell attributes (mine, covered, flagged,
//! adjacent-mine count) keyed by the same index space as the neighbor graph,
//! and the mutation rules over them.

use crate::diagram::Diagram;
use crate::geometry::Coord;
use vstd::pervasive::VecAdditionalExecFns;
use vstd::prelude::*;

verus! {

/// Percentage of cells that receive a mine at placement time.
pub const MINE_PERCENT: u64 = 15;

/// One Voronoi cell's attributes.
#[derive(Clone, Copy, Debug, PartialEq, Eq, Structural)]
pub struct Cell {
    /// The site position, fixed at creation.
    pub pos: Coord,
    /// Mutable exactly once, during first-click resolution.
    pub is_mine: bool,
    /// Initially true; becomes false only by a reveal.
    pub covered: bool,
    /// Toggled by the flag action; a flagged cell is still covered.
    pub flagged: bool,
    /// Valid only after adjacency finalization.
    pub adjacent_mines: usize,
}

/// What a cell looks like, derived once per frame from the three booleans.
#[derive(Clone, Copy, Debug, PartialEq, Eq, Structural)]
pub enum CellState {
    Covered,
    Flagged,
    RevealedSafe,
    RevealedMine,
}

impl Cell {
    /// The display state the three booleans denote.
    pub open spec fn spec_display_state(self) -> CellState {
        if self.covered {
            if self.flagged {
                CellState::Flagged
            } else {
                CellState::Covered
            }
        } else {
            if self.is_mine {
                CellState::RevealedMine
            } else {
                CellState::RevealedSafe
            }
        }
    }

    /// Closed enumeration of how a cell is drawn.
    pub fn display_state(&self) -> (r: CellState)
        ensures
            r == self.spec_display_state(),
    {
        if self.covered {
            if self.flagged {
                CellState::Flagged
            } else {
                CellState::Covered
            }
        } else {
            if self.is_mine {
                CellState::RevealedMine
            } else {
                CellState::RevealedSafe
            }
        }
    }
}

/// The mine layout alone: what adjacency counts are a function of.
pub open spec fn mines_of(cells: Seq<Cell>) -> Seq<bool> {
    Seq::new(cells.len(), |i: int| cells[i].is_mine)
}

/// How many entries of `nbrs` name a mined cell, counting an entry only when
/// it is in range.
pub open spec fn count_mines(mines: Seq<bool>, nbrs: Seq<usize>) -> nat
    decreases nbrs.len(),
{
    if nbrs.len() == 0 {
        0
    } else {
        count_mines(mines, nbrs.drop_last()) + (if nbrs.last() < mines.len()
            && mines[nbrs.last() as int] {
            1nat
        } else {
            0nat
        })
    }
}

/// The result of a direct reveal of one cell.
#[derive(Clone, Copy, Debug, PartialEq, Eq, Structural)]
pub enum RevealOutcome {
    /// The cell was already uncovered; nothing changed.
    AlreadyUncovered,
    /// The cell was covered and held a mine.
    Mine,
    /// The cell was covered and safe.
    Safe,
}

/// The ordered cells plus the neighbor graph they were constructed with.
/// The two share one index space and are never resized or reordered
/// independently.
pub struct Board {
    pub cells: Vec<Cell>,
    pub diagram: Diagram,
}

impl Board {
    /// Number of cells.
    pub open spec fn n(self) -> int {
        self.cells@.len() as int
    }

    /// The cells and the graph agree on the index space, the graph is
    /// well-formed, and every site position is representable.
    pub open spec fn wf(self) -> bool {
        &&& self.diagram.wf()
        &&& self.n() == self.diagram.n()
        &&& forall|i: int| 0 <= i < self.n() ==> (#[trigger] self.cells@[i]).pos.bounded()
    }

    /// Every cell's recorded adjacency count equals the number of mined
    /// neighbors in the graph: no count is stale.
    pub open spec fn counts_accurate(self) -> bool {
        forall|i: int|
            0 <= i < self.n() ==> (#[trigger] self.cells@[i]).adjacent_mines as nat == count_mines(
                mines_of(self.cells@),
                self.diagram.neighbors@[i]@,
            )
    }

    /// A fresh board over a diagram: every cell covered, unflagged, mine-free,
    /// with a zero count, at its site's position.
    pub fn new(sites: &Vec<Coord>, diagram: Diagram) -> (r: Board)
        requires
            diagram.wf(),
            sites@.len() == diagram.n(),
            forall|i: int| 0 <= i < sites@.len() ==> (#[trigger] sites@[i]).bounded(),
        ensures
            r.wf(),
            r.diagram == diagram,
            r.n() == sites@.len(),
            forall|i: int|
                0 <= i < r.n() ==> (#[trigger] r.cells@[i]) == (Cell {
                    pos: sites@[i],
                    is_mine: false,
                    covered: true,
                    flagged: false,
                    adjacent_mines: 0,
                }),
    {
        let mut cells: Vec<Cell> = Vec::new();
        let mut i: usize = 0;
        while i < sites.len()
            invariant
                i <= sites@.len(),
                cells@.len() == i,
                forall|k: int| 0 <= k < sites@.len() ==> (#[trigger] sites@[k]).bounded(),
                forall|k: int|
                    0 <= k < i ==> (#[trigger] cells@[k]) == (Cell {
                        pos: sites@[k],
                        is_mine: false,
                        covered: true,
                        flagged: false,
                        adjacent_mines: 0,
                    }),
            decreases sites@.len() - i,
        {
            cells.push(
                Cell {
                    pos: sites[i],
                    is_mine: false,
                    covered: true,
                    flagged: false,
                    adjacent_mines: 0,
                },
            );
            i = i + 1;
        }
        Board { cells, diagram }
    }

    /// Whether `draw` assigns a mine, at the configured density.
    pub open spec fn spec_mine_from_draw(draw: u64) -> bool {
        draw % 100 < MINE_PERCENT
    }

    /// Assigns mine flags from the given raw draws, one per cell; nothing
    /// else changes. Called once, before the first reveal.
    pub fn place_mines_with_draws(&mut self, draws: &Vec<u64>)
        requires
            old(self).wf(),
            draws@.len() == old(self).n(),
        ensures
            final(self).wf(),
            final(self).diagram == old(self).diagram,
            final(self).n() == old(self).n(),
            forall|i: int|
                0 <= i < final(self).n() ==> (#[trigger] final(self).cells@[i]) == (Cell {
                    is_mine: Board::spec_mine_from_draw(draws@[i]),
                    ..old(self).cells@[i]
                }),
    {
        let mut i: usize = 0;
        while i < self.cells.len()
            invariant
                self.wf(),
                self.diagram == old(self).diagram,
                self.n() == old(self).n(),
                draws@.len() == self.n(),
                i <= self.n(),
                forall|k: int|
                    i <= k < self.n() ==> (#[trigger] self.cells@[k]) == old(self).cells@[k],
                forall|k: int|
                    0 <= k < i ==> (#[trigger] self.cells@[k]) == (Cell {
                        is_mine: Board::spec_mine_from_draw(draws@[k]),
                        ..old(self).cells@[k]
                    }),
            decreases self.n() - i,
        {
            let mut c = self.cells[i];
            c.is_mine = draws[i] % 100 < MINE_PERCENT;
            self.cells.set(i, c);
            i = i + 1;
        }
    }

    /// Assigns mine flags from fresh random draws; nothing else changes.
    /// Which cells are mined depends on the generator, so only the frame is
    /// stated; every consumer is verified for all layouts.
    pub fn place_mines(&mut self)
        requires
            old(self).wf(),
        ensures
            final(self).wf(),
            final(self).diagram == old(self).diagram,
            final(self).n() == old(self).n(),
            forall|i: int|
                0 <= i < final(self).n() ==> (#[trigger] final(self).cells@[i]) == (Cell {
                    is_mine: final(self).cells@[i].is_mine,
                    ..old(self).cells@[i]
                }),
    {
        let n = self.cells.len();
        let mut draws: Vec<u64> = Vec::new();
        let mut i: usize = 0;
        while i < n
            invariant
                draws@.len() == i,
                i <= n,
            decreases n - i,
        {
            let d: u64 = rand::random::<u64>();
            draws.push(d);
            i = i + 1;
        }
        self.place_mines_with_draws(&draws);
    }

    /// Counts the mined cells among `nbrs`, dropping out-of-range entries.
    fn count_neighbor_mines(cells: &Vec<Cell>, nbrs: &Vec<usize>) -> (r: usize)
        ensures
            r as nat == count_mines(mines_of(cells@), nbrs@),
            r <= nbrs@.len(),
    {
        let mut r: usize = 0;
        let mut k: usize = 0;
        while k < nbrs.len()
            invariant
                k <= nbrs@.len(),
                r <= k,
                r as nat == count_mines(mines_of(cells@), nbrs@.take(k as int)),
            decreases nbrs@.len() - k,
        {
            let j = nbrs[k];
            proof {
                assert(nbrs@.take(k + 1).drop_last() =~= nbrs@.take(k as int));
                assert(nbrs@.take(k + 1).last() == nbrs@[k as int]);
            }
            if j < cells.len() && cells[j].is_mine {
                r = r + 1;
            }
            k = k + 1;
        }
        proof {
            assert(nbrs@.take(nbrs@.len() as int) =~= nbrs@);
        }
        r
    }

    /// Recomputes every cell's adjacency count from the graph and the current
    /// mine layout. Must be re-invoked whenever mine flags change; afterwards
    /// no count is stale.
    pub fn finalize_adjacency(&mut self)
        requires
            old(self).wf(),
        ensures
            final(self).wf(),
            final(self).counts_accurate(),
            final(self).diagram == old(self).diagram,
            final(self).n() == old(self).n(),
            forall|i: int|
                0 <= i < final(self).n() ==> (#[trigger] final(self).cells@[i]) == (Cell {
                    adjacent_mines: final(self).cells@[i].adjacent_mines,
                    ..old(self).cells@[i]
                }),
    {
        let ghost mines0 = mines_of(old(self).cells@);
        let mut i: usize = 0;
        while i < self.cells.len()
            invariant
                self.wf(),
                self.diagram == old(self).diagram,
                self.n() == old(self).n(),
                i <= self.n(),
                mines0 == mines_of(old(self).cells@),
                mines_of(self.cells@) =~= mines0,
                forall|k: int|
                    i <= k < self.n() ==> (#[trigger] self.cells@[k]) == old(self).cells@[k],
                forall|k: int|
                    0 <= k < i ==> (#[trigger] self.cells@[k]) == (Cell {
                        adjacent_mines: self.cells@[k].adjacent_mines,
                        ..old(self).cells@[k]
                    }),
                forall|k: int|
                    0 <= k < i ==> (#[trigger] self.cells@[k]).adjacent_mines as nat == count_mines(
                        mines0,
                        self.diagram.neighbors@[k]@,
                    ),
            decreases self.n() - i,
        {
            let count = Board::count_neighbor_mines(&self.cells, &self.diagram.neighbors[i]);
            let mut c = self.cells[i];
            c.adjacent_mines = count;
            self.cells.set(i, c);
            proof {
                assert(mines_of(self.cells@) =~= mines0);
            }
            i = i + 1;
        }
    }

    /// Flips the flag on a covered cell; a no-op on an uncovered cell.
    pub fn toggle_flag(&mut self, i: usize)
        requires
            old(self).wf(),
            i < old(self).n(),
        ensures
            final(self).wf(),
            final(self).diagram == old(self).diagram,
            final(self).n() == old(self).n(),
            old(self).cells@[i as int].covered ==> final(self).cells@[i as int] == (Cell {
                flagged: !old(self).cells@[i as int].flagged,
                ..old(self).cells@[i as int]
            }),
            !old(self).cells@[i as int].covered ==> final(self).cells@[i as int] == old(
                self,
            ).cells@[i as int],
            forall|k: int|
                0 <= k < final(self).n() && k != i ==> (#[trigger] final(self).cells@[k]) == old(
                    self,
                ).cells@[k],
    {
        if self.cells[i].covered {
            let mut c = self.cells[i];
            c.flagged = !c.flagged;
            self.cells.set(i, c);
        }
    }

    /// Uncovers cell `i` and reports whether it held a mine; a no-op that
    /// reports `AlreadyUncovered` when the cell is not covered, so revealing
    /// an uncovered cell never changes state or re-triggers anything.
    pub fn uncover(&mut self, i: usize) -> (r: RevealOutcome)
        requires
            old(self).wf(),
            i < old(self).n(),
        ensures
            final(self).wf(),
            final(self).diagram == old(self).diagram,
            final(self).n() == old(self).n(),
            !old(self).cells@[i as int].covered ==> r == RevealOutcome::AlreadyUncovered
                && *final(self) == *old(self),
            old(self).cells@[i as int].covered ==> final(self).cells@[i as int] == (Cell {
                covered: false,
                ..old(self).cells@[i as int]
            }),
            old(self).cells@[i as int].covered ==> r == (if old(self).cells@[i as int].is_mine {
                RevealOutcome::Mine
            } else {
                RevealOutcome::Safe
            }),
            forall|k: int|
                0 <= k < final(self).n() && k != i ==> (#[trigger] final(self).cells@[k]) == old(
                    self,
                ).cells@[k],
    {
        if !self.cells[i].covered {
            return RevealOutcome::AlreadyUncovered;
        }
        let mut c = self.cells[i];
        c.covered = false;
        self.cells.set(i, c);
        if c.is_mine {
            RevealOutcome::Mine
        } else {
            RevealOutcome::Safe
        }
    }

    /// Adjacency counts stay accurate under any change that leaves the mine
    /// layout, the recorded counts and the graph alone (reveals and flags).
    pub proof fn lemma_counts_accurate_congruent(b1: Board, b2: Board)
        requires
            b1.counts_accurate(),
            b2.diagram == b1.diagram,
            b2.cells@.len() == b1.cells@.len(),
            forall|j: int|
                0 <= j < b1.n() ==> (#[trigger] b2.cells@[j]).is_mine == b1.cells@[j].is_mine
                    && b2.cells@[j].adjacent_mines == b1.cells@[j].adjacent_mines,
        ensures
            b2.counts_accurate(),
    {
        assert(mines_of(b2.cells@) =~= mines_of(b1.cells@));
    }

    /// Win test: true exactly when every cell's flag matches its mine flag —
    /// all mines flagged and no safe cell flagged.
    pub fn check_win(&self) -> (r: bool)
        ensures
            r <==> forall|i: int|
                0 <= i < self.n() ==> (#[trigger] self.cells@[i]).flagged == self.cells@[i].is_mine,
    {
        let mut i: usize = 0;
        while i < self.cells.len()
            invariant
                i <= self.n(),
                forall|k: int|
                    0 <= k < i ==> (#[trigger] self.cells@[k]).flagged == self.cells@[k].is_mine,
            decreases self.n() - i,
        {
            if self.cells[i].flagged != self.cells[i].is_mine {
                return false;
            }
            i = i + 1;
        }
        true
    }
}

} // verus!
