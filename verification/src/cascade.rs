//! The reveal engine: a breadth-first flood fill over the neighbor graph.
//! Starting from an already-revealed safe cell, it uncovers exactly the cells
//! reachable through zero-adjacency cells without crossing a mine or a
//! flagged cell, visiting each index at most once; its only side effect is
//! clearing `covered` on the qualifying cells.

use crate::board::{mines_of, Board, Cell};
use crate::diagram::Diagram;
use vstd::pervasive::VecAdditionalExecFns;
use vstd::prelude::*;
use vstd::relations::injective;
use vstd::seq_lib::*;
use vstd::set_lib::{lemma_int_range, lemma_len_subset, set_int_range};

verus! {

/// A cell qualifies for automatic uncovering: covered, not flagged, no mine.
pub open spec fn qualifies(cells: Seq<Cell>, j: int) -> bool {
    &&& 0 <= j < cells.len()
    &&& cells[j].covered
    &&& !cells[j].flagged
    &&& !cells[j].is_mine
}

/// The flood expands through this cell: its recorded adjacency count is zero.
pub open spec fn expands(cells: Seq<Cell>, i: int) -> bool {
    &&& 0 <= i < cells.len()
    &&& cells[i].adjacent_mines == 0
}

/// `p` is a cascade path from `start`: consecutive cells are adjacent in the
/// graph, the flood expands through every cell before the last, and every
/// cell after the start qualifies for uncovering.
pub open spec fn is_cascade_path(cells: Seq<Cell>, g: Diagram, start: int, p: Seq<int>) -> bool {
    &&& p.len() >= 1
    &&& p[0] == start
    &&& forall|k: int| 0 <= k < p.len() - 1 ==> g.edge(#[trigger] p[k], p[k + 1])
    &&& forall|k: int| 0 <= k < p.len() - 1 ==> expands(cells, #[trigger] p[k])
    &&& forall|k: int| 1 <= k < p.len() ==> qualifies(cells, #[trigger] p[k])
}

/// Cell `j` belongs to the cascade from `start`: some cascade path ends at it.
/// The start cell itself always belongs (the one-cell path).
pub open spec fn cascaded(cells: Seq<Cell>, g: Diagram, start: int, j: int) -> bool {
    exists|p: Seq<int>| is_cascade_path(cells, g, start, p) && p.last() == j
}

/// The start belongs to its own cascade.
pub proof fn lemma_cascaded_start(cells: Seq<Cell>, g: Diagram, start: int)
    ensures
        cascaded(cells, g, start, start),
{
    let p: Seq<int> = seq![start];
    assert(is_cascade_path(cells, g, start, p));
    assert(p.last() == start);
}

/// The cascade grows one step: from a member the flood expands through, along
/// one edge, to any qualifying neighbor.
pub proof fn lemma_cascaded_step(cells: Seq<Cell>, g: Diagram, start: int, i: int, j: int)
    requires
        cascaded(cells, g, start, i),
        expands(cells, i),
        g.edge(i, j),
        qualifies(cells, j),
    ensures
        cascaded(cells, g, start, j),
{
    let p = choose|p: Seq<int>| is_cascade_path(cells, g, start, p) && p.last() == i;
    let q = p.push(j);
    assert forall|k: int| 0 <= k < q.len() - 1 implies g.edge(#[trigger] q[k], q[k + 1]) by {
        if k < p.len() - 1 {
            assert(q[k] == p[k] && q[k + 1] == p[k + 1]);
        } else {
            assert(q[k] == p.last() && q[k + 1] == j);
        }
    }
    assert forall|k: int| 0 <= k < q.len() - 1 implies expands(cells, #[trigger] q[k]) by {
        if k < p.len() - 1 {
            assert(q[k] == p[k]);
        } else {
            assert(q[k] == p.last());
        }
    }
    assert forall|k: int| 1 <= k < q.len() implies qualifies(cells, #[trigger] q[k]) by {
        if k < p.len() {
            assert(q[k] == p[k]);
        } else {
            assert(q[k] == j);
        }
    }
    assert(is_cascade_path(cells, g, start, q) && q.last() == j);
}

/// Any set of cells that contains the start and is closed under one cascade
/// step contains every member of the cascade.
proof fn lemma_path_stays_in_closed(
    cells: Seq<Cell>,
    g: Diagram,
    start: int,
    vis: Seq<bool>,
    p: Seq<int>,
)
    requires
        vis.len() == cells.len(),
        0 <= start < cells.len(),
        vis[start],
        forall|c: int, j: int|
            0 <= c < cells.len() && vis[c] && expands(cells, c) && #[trigger] g.edge(c, j)
                && qualifies(cells, j) ==> vis[j],
        is_cascade_path(cells, g, start, p),
        0 <= p.last() < cells.len(),
    ensures
        vis[p.last()],
    decreases p.len(),
{
    if p.len() == 1 {
        assert(p.last() == start);
    } else {
        let q = p.drop_last();
        assert forall|k: int| 0 <= k < q.len() - 1 implies g.edge(#[trigger] q[k], q[k + 1]) by {
            assert(q[k] == p[k] && q[k + 1] == p[k + 1]);
        }
        assert forall|k: int| 0 <= k < q.len() - 1 implies expands(cells, #[trigger] q[k]) by {
            assert(q[k] == p[k]);
        }
        assert forall|k: int| 1 <= k < q.len() implies qualifies(cells, #[trigger] q[k]) by {
            assert(q[k] == p[k]);
        }
        assert(is_cascade_path(cells, g, start, q));
        let c = p[p.len() - 2];
        assert(expands(cells, c));
        assert(q.last() == c);
        lemma_path_stays_in_closed(cells, g, start, vis, q);
        assert(g.edge(c, p.last()));
        assert(qualifies(cells, p.last()));
    }
}

/// A duplicate-free sequence of indices below `n` has at most `n` entries.
proof fn lemma_bounded_nodup_len(s: Seq<usize>, n: int)
    requires
        n >= 0,
        s.no_duplicates(),
        forall|k: int| 0 <= k < s.len() ==> (#[trigger] s[k]) < n,
    ensures
        s.len() <= n,
{
    let f = |u: usize| u as int;
    assert(injective(f));
    let si = s.map_values(f);
    s.lemma_no_duplicates_injective(f);
    si.unique_seq_to_set();
    assert forall|x: int| si.to_set().contains(x) implies set_int_range(0, n).contains(x) by {
        let k = choose|k: int| 0 <= k < si.len() && si[k] == x;
        assert(s[k] < n);
    }
    assert(si.to_set().subset_of(set_int_range(0, n)));
    lemma_int_range(0, n);
    lemma_len_subset(si.to_set(), set_int_range(0, n));
}

/// The flood-fill reveal. Precondition: the start cell is not a mine and has
/// already been revealed by the caller. Postcondition: exactly the cells of
/// the cascade from `start` lose their cover, nothing else changes, and in
/// particular no mine and no flagged cell is uncovered here.
pub fn cascade_reveal(board: &mut Board, start: usize)
    requires
        old(board).wf(),
        start < old(board).n(),
        !old(board).cells@[start as int].is_mine,
        !old(board).cells@[start as int].covered,
    ensures
        final(board).wf(),
        final(board).diagram == old(board).diagram,
        final(board).n() == old(board).n(),
        forall|j: int|
            0 <= j < final(board).n() ==> (#[trigger] final(board).cells@[j]) == (Cell {
                covered: old(board).cells@[j].covered && !cascaded(
                    old(board).cells@,
                    old(board).diagram,
                    start as int,
                    j,
                ),
                ..old(board).cells@[j]
            }),
        forall|j: int|
            0 <= j < final(board).n() && old(board).cells@[j].is_mine
                ==> (#[trigger] final(board).cells@[j]).covered == old(board).cells@[j].covered,
        old(board).counts_accurate() ==> final(board).counts_accurate(),
{
    let ghost cells0 = board.cells@;
    let ghost g = board.diagram;
    let n = board.cells.len();
    let mut visited: Vec<bool> = Vec::new();
    let mut i: usize = 0;
    while i < n
        invariant
            i <= n,
            visited@.len() == i,
            forall|k: int| 0 <= k < i ==> !(#[trigger] visited@[k]),
        decreases n - i,
    {
        visited.push(false);
        i = i + 1;
    }
    let mut queue: Vec<usize> = Vec::new();
    visited.set(start, true);
    queue.push(start);
    proof {
        lemma_cascaded_start(cells0, g, start as int);
        assert(queue@[0] == start);
        assert(queue@.contains(start));
        assert forall|j: int|
            0 <= j < n && j != start implies !(#[trigger] queue@.contains(j as usize)) by {
            if queue@.contains(j as usize) {
                let k = choose|k: int| 0 <= k < queue@.len() && queue@[k] == j as usize;
                assert(queue@[k] == start);
            }
        }
    }
    let mut head: usize = 0;
    while head < queue.len()
        invariant
            board.wf(),
            board.cells@ == cells0,
            board.diagram == g,
            n == cells0.len(),
            start < n,
            visited@.len() == n,
            head <= queue@.len(),
            queue@.len() <= n,
            queue@.no_duplicates(),
            visited@[start as int],
            forall|k: int| 0 <= k < queue@.len() ==> (#[trigger] queue@[k]) < n,
            forall|j: int| 0 <= j < n ==> ((#[trigger] visited@[j]) <==> queue@.contains(j as usize)),
            forall|k: int|
                0 <= k < queue@.len() ==> cascaded(cells0, g, start as int, (#[trigger] queue@[k]) as int),
            forall|k: int, j: int|
                0 <= k < head && expands(cells0, queue@[k] as int) && #[trigger] g.edge(
                    queue@[k] as int,
                    j,
                ) && qualifies(cells0, j) ==> visited@[j],
        decreases n - head,
    {
        let c = queue[head];
        if board.cells[c].adjacent_mines == 0 {
            let row_len = board.diagram.neighbors[c].len();
            let mut t: usize = 0;
            while t < row_len
                invariant
                    board.wf(),
                    board.cells@ == cells0,
                    board.diagram == g,
                    n == cells0.len(),
                    start < n,
                    head < queue@.len(),
                    c == queue@[head as int],
                    c < n,
                    expands(cells0, c as int),
                    row_len == g.neighbors@[c as int]@.len(),
                    t <= row_len,
                    visited@.len() == n,
                    queue@.len() <= n,
                    queue@.no_duplicates(),
                    visited@[start as int],
                    forall|k: int| 0 <= k < queue@.len() ==> (#[trigger] queue@[k]) < n,
                    forall|j: int|
                        0 <= j < n ==> ((#[trigger] visited@[j]) <==> queue@.contains(j as usize)),
                    forall|k: int|
                        0 <= k < queue@.len() ==> cascaded(
                            cells0,
                            g,
                            start as int,
                            (#[trigger] queue@[k]) as int,
                        ),
                    forall|k: int, j: int|
                        0 <= k < head && expands(cells0, queue@[k] as int) && #[trigger] g.edge(
                            queue@[k] as int,
                            j,
                        ) && qualifies(cells0, j) ==> visited@[j],
                    forall|m: int|
                        0 <= m < t && qualifies(cells0, (#[trigger] g.neighbors@[c as int]@[m]) as int)
                            ==> visited@[g.neighbors@[c as int]@[m] as int],
                decreases row_len - t,
            {
                let j = board.diagram.neighbors[c][t];
                proof {
                    assert(g.neighbors@[c as int]@[t as int] == j);
                    assert(j < n);
                }
                if !visited[j] {
                    let cj = board.cells[j];
                    if cj.covered && !cj.flagged && !cj.is_mine {
                        let ghost old_queue = queue@;
                        visited.set(j, true);
                        queue.push(j);
                        proof {
                            assert(queue@ == old_queue.push(j));
                            assert(!old_queue.contains(j));
                            assert forall|jj: int|
                                0 <= jj < n implies ((#[trigger] visited@[jj])
                                <==> queue@.contains(jj as usize)) by {
                                if jj == j {
                                    assert(queue@[queue@.len() - 1] == j);
                                    assert(queue@.contains(j));
                                } else {
                                    if queue@.contains(jj as usize) {
                                        let k = choose|k: int|
                                            0 <= k < queue@.len() && queue@[k] == jj as usize;
                                        assert(old_queue[k] == jj as usize);
                                        assert(old_queue.contains(jj as usize));
                                    }
                                    if old_queue.contains(jj as usize) {
                                        let k = choose|k: int|
                                            0 <= k < old_queue.len() && old_queue[k] == jj as usize;
                                        assert(queue@[k] == jj as usize);
                                    }
                                }
                            }
                            assert(queue@.no_duplicates()) by {
                                assert forall|a: int, b: int|
                                    0 <= a < b < queue@.len() implies queue@[a] != queue@[b] by {
                                    if b == queue@.len() - 1 {
                                        assert(old_queue[a] == queue@[a]);
                                        assert(old_queue.contains(queue@[a]));
                                    }
                                }
                            }
                            lemma_bounded_nodup_len(queue@, n as int);
                            assert(g.edge(c as int, j as int)) by {
                                assert(g.neighbors@[c as int]@[t as int] == j);
                                assert(g.neighbors@[c as int]@.contains(j));
                            }
                            lemma_cascaded_step(
                                cells0,
                                g,
                                start as int,
                                c as int,
                                j as int,
                            );
                        }
                    }
                }
                t = t + 1;
            }
            proof {
                assert forall|j: int|
                    expands(cells0, queue@[head as int] as int) && #[trigger] g.edge(
                        queue@[head as int] as int,
                        j,
                    ) && qualifies(cells0, j) implies visited@[j] by {
                    assert(g.neighbors@[c as int]@.contains(j as usize));
                    let m = choose|m: int|
                        0 <= m < g.neighbors@[c as int]@.len() && g.neighbors@[c as int]@[m]
                            == j as usize;
                    assert(qualifies(cells0, g.neighbors@[c as int]@[m] as int));
                }
            }
        } else {
            proof {
                assert(cells0[c as int].adjacent_mines != 0);
                assert(!expands(cells0, c as int));
            }
        }
        head = head + 1;
    }
    proof {
        assert forall|j: int|
            0 <= j < n && cascaded(cells0, g, start as int, j) implies visited@[j] by {
            let p = choose|p: Seq<int>|
                is_cascade_path(cells0, g, start as int, p) && p.last() == j;
            assert forall|cc: int, jj: int|
                0 <= cc < cells0.len() && visited@[cc] && expands(cells0, cc) && #[trigger] g.edge(
                    cc,
                    jj,
                ) && qualifies(cells0, jj) implies visited@[jj] by {
                assert(queue@.contains(cc as usize));
                let k = choose|k: int| 0 <= k < queue@.len() && queue@[k] == cc as usize;
                assert(queue@[k] as int == cc);
            }
            lemma_path_stays_in_closed(cells0, g, start as int, visited@, p);
        }
        assert forall|j: int|
            0 <= j < n && visited@[j] implies cascaded(cells0, g, start as int, j) by {
            assert(queue@.contains(j as usize));
            let k = choose|k: int| 0 <= k < queue@.len() && queue@[k] == j as usize;
            assert(cascaded(cells0, g, start as int, queue@[k] as int));
        }
    }
    let qlen = queue.len();
    let mut t: usize = 0;
    while t < qlen
        invariant
            t <= qlen,
            qlen == queue@.len(),
            board.diagram == g,
            board.cells@.len() == n,
            n == cells0.len(),
            forall|k: int| 0 <= k < queue@.len() ==> (#[trigger] queue@[k]) < n,
            forall|j: int|
                0 <= j < n ==> (#[trigger] board.cells@[j]) == (Cell {
                    covered: cells0[j].covered && !queue@.take(t as int).contains(j as usize),
                    ..cells0[j]
                }),
        decreases qlen - t,
    {
        let idx = queue[t];
        let ghost cells_before = board.cells@;
        let mut cc = board.cells[idx];
        cc.covered = false;
        board.cells.set(idx, cc);
        proof {
            assert(queue@.take(t + 1) =~= queue@.take(t as int).push(queue@[t as int]));
            assert forall|j: int|
                0 <= j < n implies (#[trigger] queue@.take(t + 1).contains(j as usize) <==> (
            queue@.take(t as int).contains(j as usize) || j == idx)) by {
                let pre = queue@.take(t as int);
                let post = queue@.take(t + 1);
                if post.contains(j as usize) {
                    let k = choose|k: int| 0 <= k < post.len() && post[k] == j as usize;
                    if k < pre.len() {
                        assert(pre[k] == j as usize);
                        assert(pre.contains(j as usize));
                    } else {
                        assert(post[k] == idx);
                    }
                }
                if pre.contains(j as usize) {
                    let k = choose|k: int| 0 <= k < pre.len() && pre[k] == j as usize;
                    assert(post[k] == j as usize);
                    assert(post.contains(j as usize));
                }
                if j == idx {
                    assert(post[post.len() - 1] == idx);
                    assert(post.contains(j as usize));
                }
            }
            assert(cells_before[idx as int] == (Cell {
                covered: cells0[idx as int].covered && !queue@.take(t as int).contains(idx),
                ..cells0[idx as int]
            }));
        }
        t = t + 1;
    }
    proof {
        assert(queue@.take(qlen as int) =~= queue@);
        assert forall|j: int|
            0 <= j < n implies (#[trigger] board.cells@[j]) == (Cell {
            covered: cells0[j].covered && !cascaded(cells0, g, start as int, j),
            ..cells0[j]
        }) by {
            if queue@.contains(j as usize) {
                assert(visited@[j]);
            } else {
                assert(!visited@[j]);
                if cells0[j].covered && cascaded(cells0, g, start as int, j) {
                    assert(visited@[j]);
                }
                if !cells0[j].covered {
                    assert(board.cells@[j].covered == (cells0[j].covered && !queue@.contains(
                        j as usize,
                    )));
                }
            }
        }
        assert forall|j: int|
            0 <= j < n && cells0[j].is_mine implies (#[trigger] board.cells@[j]).covered
            == cells0[j].covered by {
            if cascaded(cells0, g, start as int, j) && j != start as int {
                let p = choose|p: Seq<int>|
                    is_cascade_path(cells0, g, start as int, p) && p.last() == j;
                assert(p.len() >= 2);
                assert(qualifies(cells0, p[p.len() - 1]));
            }
        }
        assert(board.wf()) by {
            assert forall|j: int| 0 <= j < board.n() implies (#[trigger] board.cells@[j]).pos.bounded() by {
                assert(board.cells@[j].pos == cells0[j].pos);
            }
        }
        if old(board).counts_accurate() {
            assert(mines_of(board.cells@) =~= mines_of(cells0));
            assert forall|j: int|
                0 <= j < board.n() implies (#[trigger] board.cells@[j]).adjacent_mines as nat
                == crate::board::count_mines(mines_of(board.cells@), board.diagram.neighbors@[j]@) by {
                assert(board.cells@[j].adjacent_mines == cells0[j].adjacent_mines);
            }
        }
    }
}

} // verus!
