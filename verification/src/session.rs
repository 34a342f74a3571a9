//! The game session controller: a state machine over the board that owns
//! first-click deferral, win/loss detection, and dispatch to the reveal
//! engine. It processes one action at a time to completion; terminal phases
//! ignore all further actions.

use crate::board::{count_mines, mines_of, Board, Cell, RevealOutcome};
use crate::cascade::{cascade_reveal, cascaded};
use crate::diagram::Diagram;
use crate::ErrorKind;
use vstd::pervasive::VecAdditionalExecFns;
use vstd::prelude::*;

verus! {

/// The lifecycle of one game.
#[derive(Clone, Copy, Debug, PartialEq, Eq, Structural)]
pub enum Phase {
    /// Board built, mines not yet placed.
    Setup,
    /// Mines placed; the first reveal will correct the layout and finalize
    /// adjacency before uncovering anything.
    FirstClickPending,
    /// Normal play.
    InProgress,
    /// Every flag matches a mine; terminal.
    Won,
    /// A mine was revealed; terminal.
    Lost,
}

/// `cells` with the mine at `i` reassigned to non-mine (first-click safety).
pub open spec fn with_mine_cleared(cells: Seq<Cell>, i: int) -> Seq<Cell> {
    cells.update(i, Cell { is_mine: false, ..cells[i] })
}

/// `cells` with every adjacency count recomputed from the graph.
pub open spec fn with_counts(cells: Seq<Cell>, g: Diagram) -> Seq<Cell> {
    Seq::new(
        cells.len(),
        |j: int|
            Cell {
                adjacent_mines: count_mines(mines_of(cells), g.neighbors@[j]@) as usize,
                ..cells[j]
            },
    )
}

/// `cells` with the cover cleared at `i` alone.
pub open spec fn after_single_uncover(cells: Seq<Cell>, i: int) -> Seq<Cell> {
    cells.update(i, Cell { covered: false, ..cells[i] })
}

/// `cells` after the flood fill from `start` has cleared the cover of every
/// cascade member.
pub open spec fn cascade_result(cells: Seq<Cell>, g: Diagram, start: int) -> Seq<Cell> {
    Seq::new(
        cells.len(),
        |j: int|
            Cell { covered: cells[j].covered && !cascaded(cells, g, start, j), ..cells[j] },
    )
}

/// The effect of one reveal on a safe cell `i`: the cell is uncovered, and
/// when its adjacency count is zero the cascade runs from it.
pub open spec fn spec_after_reveal_step(cells: Seq<Cell>, g: Diagram, i: int) -> Seq<Cell> {
    let u = after_single_uncover(cells, i);
    if cells[i].adjacent_mines == 0 {
        cascade_result(u, g, i)
    } else {
        u
    }
}

/// The full effect of the first reveal at `i`: the chosen cell is reassigned
/// to non-mine, adjacency counts are finalized for the first time, and only
/// then is the cell revealed (cascading when its count is zero).
pub open spec fn spec_first_click_result(cells: Seq<Cell>, g: Diagram, i: int) -> Seq<Cell> {
    spec_after_reveal_step(with_counts(with_mine_cleared(cells, i), g), g, i)
}

/// Every flag placed exactly on a mine: the win condition. It also demands
/// that no safe cell is flagged; this is deliberate.
pub open spec fn spec_win(cells: Seq<Cell>) -> bool {
    forall|i: int| 0 <= i < cells.len() ==> (#[trigger] cells[i]).flagged == cells[i].is_mine
}

/// One game: the board plus the phase of the session state machine.
pub struct Game {
    pub board: Board,
    pub phase: Phase,
}

impl Game {
    pub open spec fn n(self) -> int {
        self.board.n()
    }

    /// Session invariant: the board is well-formed; before the first reveal
    /// every cell is still covered; once play is in progress (or lost through
    /// it) the adjacency counts are never stale.
    pub open spec fn wf(self) -> bool {
        &&& self.board.wf()
        &&& (self.phase == Phase::Setup || self.phase == Phase::FirstClickPending)
            ==> forall|j: int| 0 <= j < self.n() ==> (#[trigger] self.board.cells@[j]).covered
        &&& (self.phase == Phase::InProgress || self.phase == Phase::Lost)
            ==> self.board.counts_accurate()
    }

    /// A new session over a fresh board, in the setup phase.
    pub fn new(board: Board) -> (g: Game)
        requires
            board.wf(),
            forall|j: int| 0 <= j < board.n() ==> (#[trigger] board.cells@[j]).covered,
        ensures
            g.wf(),
            g.phase == Phase::Setup,
            g.board == board,
    {
        Game { board, phase: Phase::Setup }
    }

    /// Places mines from the given draws and arms the first click.
    pub fn place_mines_with_draws(&mut self, draws: &Vec<u64>)
        requires
            old(self).wf(),
            old(self).phase == Phase::Setup,
            draws@.len() == old(self).n(),
        ensures
            final(self).wf(),
            final(self).phase == Phase::FirstClickPending,
            final(self).n() == old(self).n(),
            final(self).board.diagram == old(self).board.diagram,
            forall|i: int|
                0 <= i < final(self).n() ==> (#[trigger] final(self).board.cells@[i]) == (Cell {
                    is_mine: Board::spec_mine_from_draw(draws@[i]),
                    ..old(self).board.cells@[i]
                }),
    {
        self.board.place_mines_with_draws(draws);
        self.phase = Phase::FirstClickPending;
    }

    /// Places mines from fresh random draws and arms the first click. The
    /// layout depends on the generator; everything downstream holds for all
    /// layouts.
    pub fn place_mines(&mut self)
        requires
            old(self).wf(),
            old(self).phase == Phase::Setup,
        ensures
            final(self).wf(),
            final(self).phase == Phase::FirstClickPending,
            final(self).n() == old(self).n(),
            final(self).board.diagram == old(self).board.diagram,
            forall|i: int|
                0 <= i < final(self).n() ==> (#[trigger] final(self).board.cells@[i]) == (Cell {
                    is_mine: final(self).board.cells@[i].is_mine,
                    ..old(self).board.cells@[i]
                }),
    {
        self.board.place_mines();
        self.phase = Phase::FirstClickPending;
    }

    /// The reveal action at cell `i`, per the session state machine.
    ///
    /// In `FirstClickPending`, the very first reveal can never lose: the
    /// chosen cell is reassigned to non-mine before adjacency is finalized
    /// and before anything is uncovered, so afterwards the cell is safe and
    /// revealed and play is in progress, whatever the original layout.
    ///
    /// In `InProgress`: revealing an already-uncovered cell changes nothing;
    /// revealing a covered mine uncovers that single cell and loses, with no
    /// cascade; revealing a covered safe cell uncovers it and, exactly when
    /// its adjacency count is zero, runs the flood fill.
    ///
    /// In `Setup`, `Won` and `Lost` the action is ignored.
    pub fn reveal_action(&mut self, i: usize) -> (r: Result<(), ErrorKind>)
        requires
            old(self).wf(),
        ensures
            final(self).wf(),
            i >= old(self).n() ==> r == Result::<(), ErrorKind>::Err(ErrorKind::IndexOutOfRange)
                && *final(self) == *old(self),
            i < old(self).n() ==> r == Result::<(), ErrorKind>::Ok(()),
            i < old(self).n() && (old(self).phase == Phase::Setup || old(self).phase == Phase::Won
                || old(self).phase == Phase::Lost) ==> *final(self) == *old(self),
            i < old(self).n() && old(self).phase == Phase::FirstClickPending ==> final(self).phase
                == Phase::InProgress && final(self).board.cells@ == spec_first_click_result(
                old(self).board.cells@,
                old(self).board.diagram,
                i as int,
            ),
            i < old(self).n() && old(self).phase == Phase::FirstClickPending ==> !final(self).board.cells@[i as int].is_mine && !final(self).board.cells@[i as int].covered,
            i < old(self).n() && old(self).phase == Phase::InProgress && !old(self).board.cells@[i as int].covered ==> *final(self) == *old(self),
            i < old(self).n() && old(self).phase == Phase::InProgress && old(self).board.cells@[i as int].covered && old(self).board.cells@[i as int].is_mine ==> final(self).phase == Phase::Lost && final(self).board.cells@ == after_single_uncover(
                old(self).board.cells@,
                i as int,
            ),
            i < old(self).n() && old(self).phase == Phase::InProgress && old(self).board.cells@[i as int].covered && !old(self).board.cells@[i as int].is_mine ==> final(self).phase == Phase::InProgress && final(self).board.cells@ == spec_after_reveal_step(
                old(self).board.cells@,
                old(self).board.diagram,
                i as int,
            ),
    {
        if i >= self.board.cells.len() {
            return Err(ErrorKind::IndexOutOfRange);
        }
        match self.phase {
            Phase::Setup => Ok(()),
            Phase::Won => Ok(()),
            Phase::Lost => Ok(()),
            Phase::FirstClickPending => {
                let ghost g = old(self).board.diagram;
                let mut c = self.board.cells[i];
                c.is_mine = false;
                self.board.cells.set(i, c);
                proof {
                    assert(self.board.cells@ =~= with_mine_cleared(old(self).board.cells@, i as int));
                    assert(self.board.wf());
                }
                let ghost cells_m = self.board.cells@;
                self.board.finalize_adjacency();
                proof {
                    assert(mines_of(self.board.cells@) =~= mines_of(cells_m));
                    assert forall|j: int|
                        0 <= j < self.board.cells@.len() implies #[trigger] self.board.cells@[j]
                        == with_counts(cells_m, g)[j] by {
                        assert(self.board.cells@[j].adjacent_mines as nat == count_mines(
                            mines_of(cells_m),
                            g.neighbors@[j]@,
                        ));
                    }
                    assert(self.board.cells@ =~= with_counts(cells_m, g));
                }
                self.phase = Phase::InProgress;
                self.reveal_in_progress(i);
                Ok(())
            },
            Phase::InProgress => {
                self.reveal_in_progress(i);
                Ok(())
            },
        }
    }

    /// The reveal step shared by normal play and the tail of the first click:
    /// uncover `i`, lose on a mine, cascade on a zero count.
    fn reveal_in_progress(&mut self, i: usize)
        requires
            old(self).board.wf(),
            old(self).board.counts_accurate(),
            old(self).phase == Phase::InProgress,
            i < old(self).n(),
        ensures
            final(self).wf(),
            final(self).n() == old(self).n(),
            final(self).board.diagram == old(self).board.diagram,
            !old(self).board.cells@[i as int].covered ==> *final(self) == *old(self),
            old(self).board.cells@[i as int].covered && old(self).board.cells@[i as int].is_mine
                ==> final(self).phase == Phase::Lost && final(self).board.cells@
                == after_single_uncover(old(self).board.cells@, i as int),
            old(self).board.cells@[i as int].covered && !old(self).board.cells@[i as int].is_mine
                ==> final(self).phase == Phase::InProgress && final(self).board.cells@
                == spec_after_reveal_step(old(self).board.cells@, old(self).board.diagram, i as int),
    {
        let ghost cells0 = old(self).board.cells@;
        let ghost g = old(self).board.diagram;
        let outcome = self.board.uncover(i);
        match outcome {
            RevealOutcome::AlreadyUncovered => {},
            RevealOutcome::Mine => {
                self.phase = Phase::Lost;
                proof {
                    assert(self.board.cells@ =~= after_single_uncover(cells0, i as int));
                    Board::lemma_counts_accurate_congruent(old(self).board, self.board);
                }
            },
            RevealOutcome::Safe => {
                proof {
                    assert(self.board.cells@ =~= after_single_uncover(cells0, i as int));
                    Board::lemma_counts_accurate_congruent(old(self).board, self.board);
                }
                if self.board.cells[i].adjacent_mines == 0 {
                    let ghost cells_u = self.board.cells@;
                    cascade_reveal(&mut self.board, i);
                    proof {
                        assert(self.board.cells@ =~= cascade_result(cells_u, g, i as int));
                        assert(self.board.cells@ == spec_after_reveal_step(cells0, g, i as int));
                    }
                }
            },
        }
    }

    /// The flag action at cell `i`: toggles the flag on a covered cell (a
    /// no-op on an uncovered one), then tests the win condition; the game is
    /// won exactly when every flag matches a mine. Ignored in `Setup` and in
    /// the terminal phases.
    pub fn flag_action(&mut self, i: usize) -> (r: Result<(), ErrorKind>)
        requires
            old(self).wf(),
        ensures
            final(self).wf(),
            i >= old(self).n() ==> r == Result::<(), ErrorKind>::Err(ErrorKind::IndexOutOfRange)
                && *final(self) == *old(self),
            i < old(self).n() ==> r == Result::<(), ErrorKind>::Ok(()),
            i < old(self).n() && (old(self).phase == Phase::Setup || old(self).phase == Phase::Won
                || old(self).phase == Phase::Lost) ==> *final(self) == *old(self),
            i < old(self).n() && (old(self).phase == Phase::FirstClickPending || old(self).phase
                == Phase::InProgress) ==> final(self).board.cells@ == (if old(self).board.cells@[i as int].covered {
                old(self).board.cells@.update(
                    i as int,
                    Cell {
                        flagged: !old(self).board.cells@[i as int].flagged,
                        ..old(self).board.cells@[i as int]
                    },
                )
            } else {
                old(self).board.cells@
            }),
            i < old(self).n() && (old(self).phase == Phase::FirstClickPending || old(self).phase
                == Phase::InProgress) ==> final(self).phase == (if spec_win(final(self).board.cells@) {
                Phase::Won
            } else {
                old(self).phase
            }),
    {
        if i >= self.board.cells.len() {
            return Err(ErrorKind::IndexOutOfRange);
        }
        match self.phase {
            Phase::Setup => Ok(()),
            Phase::Won => Ok(()),
            Phase::Lost => Ok(()),
            Phase::FirstClickPending | Phase::InProgress => {
                let ghost cells0 = old(self).board.cells@;
                self.board.toggle_flag(i);
                proof {
                    if cells0[i as int].covered {
                        assert(self.board.cells@ =~= cells0.update(
                            i as int,
                            Cell { flagged: !cells0[i as int].flagged, ..cells0[i as int] },
                        ));
                    } else {
                        assert(self.board.cells@ =~= cells0);
                    }
                    if old(self).phase == Phase::InProgress {
                        Board::lemma_counts_accurate_congruent(old(self).board, self.board);
                    }
                }
                if self.board.check_win() {
                    self.phase = Phase::Won;
                }
                Ok(())
            },
        }
    }
}

} // verus!
