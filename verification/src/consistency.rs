//! What a search keeps true of the board, and what that means for a solved
//! puzzle.

use crate::piece::{lemma_can_fit, lemma_fits_symmetric, Connector, Direction, PieceView};
use crate::puzzle::{lemma_neighbor_back, PuzzleView};
use crate::solver::{lemma_next_candidate, SolverView};
use vstd::prelude::*;

verus! {

/// A piece fits the surroundings of a cell exactly when each of its sides fits
/// the constraint on that side.
pub proof fn lemma_fits_by_side(piece: PieceView, puzzle: PuzzleView, position: nat)
    ensures
        piece.fits(puzzle.around(position)) <==> forall|d: Direction|
            piece.side_fits(d, #[trigger] puzzle.constraint(position, d)),
{
    let around = puzzle.around(position);
    if piece.fits(around) {
        // the four slots of `around` hold the four constraints
        assert forall|d: Direction|
            piece.side_fits(d, #[trigger] puzzle.constraint(position, d)) by {}
    }
    if forall|d: Direction| piece.side_fits(d, #[trigger] puzzle.constraint(position, d)) {
        assert forall|k: int| 0 <= k < 4 implies (#[trigger] around[k] matches Some(c)
            ==> piece.connectors[k].spec_fits(&c)) by {
            assert(piece.side_fits(Direction::at(k), puzzle.constraint(position, Direction::at(k))));
        }
    }
}

/// Taking the piece at the cursor off the board keeps the solver consistent,
/// and leaves the cell at the cursor empty.
pub proof fn lemma_lifted_consistent(s: SolverView)
    requires
        s.consistent(),
        s.position < s.size(),
    ensures
        s.lifted().consistent(),
        s.lifted().cell(s.position as int) is None,
        s.lifted().position == s.position,
        s.lifted().size() == s.size(),
        s.lifted().pool() == s.pool(),
        s.start_id() <= s.pool(),
{
    let l = s.lifted();
    let pos = s.position as int;
    match s.cell(pos) {
        None => {},
        Some(_) => {
            assert forall|p: int| 0 <= p < l.size() implies #[trigger] l.placed_well(p) by {
                if p != pos {
                    assert(s.placed_well(p));
                    match l.cell(p) {
                        None => {},
                        Some(id) => {
                            lemma_fits_by_side(s.piece(id as int), s.puzzle, p as nat);
                            lemma_fits_by_side(l.piece(id as int), l.puzzle, p as nat);
                            assert forall|d: Direction|
                                l.piece(id as int).side_fits(
                                    d,
                                    #[trigger] l.puzzle.constraint(p as nat, d),
                                ) by {
                                lemma_constraint_after_lift(s, p, d);
                                assert(s.piece(id as int).side_fits(
                                    d,
                                    s.puzzle.constraint(p as nat, d),
                                ));
                            }
                        },
                    }
                }
            }
            assert forall|p: int, q: int|
                0 <= p < l.size() && 0 <= q < l.size() && p != q && l.cell(p) is Some
                    implies #[trigger] l.cell(p) != #[trigger] l.cell(q) by {
                assert(s.cell(p) == l.cell(p));
                if q != pos {
                    assert(s.cell(q) == l.cell(q));
                }
            }
            assert forall|p: int| 0 <= p < l.position implies #[trigger] l.cell(p) is Some by {
                assert(s.cell(p) is Some);
            }
            assert forall|p: int| l.position < p < l.size() implies #[trigger] l.cell(
                p,
            ) is None by {
                assert(s.cell(p) is None);
            }
            assert(l.puzzle.wf());
        },
    }
}

/// With the piece at the cursor taken off, a constraint on a side of another
/// cell is either as before or gone.
proof fn lemma_constraint_after_lift(s: SolverView, p: int, d: Direction)
    requires
        s.consistent(),
        s.position < s.size(),
        0 <= p < s.size(),
        p != s.position,
    ensures
        s.lifted().puzzle.constraint(p as nat, d) is None || s.lifted().puzzle.constraint(
            p as nat,
            d,
        ) == s.puzzle.constraint(p as nat, d),
{
    let l = s.lifted();
    let pos = s.position as int;
    match s.cell(pos) {
        None => {},
        Some(_) => {
            if !s.puzzle.board.on_edge(p as nat, d) {
                lemma_neighbor_back(s.puzzle.board, p as nat, d);
                let n = s.puzzle.board.neighbor(p as nat, d);
            }
        },
    }
}

/// What the search at a cell does to the pool: a piece that is marked used is
/// not touched, the piece that is placed was free and fits the cell, and every
/// other piece keeps its connectors and its mark.
pub proof fn lemma_scanned_pieces(l: SolverView, from: nat)
    requires
        l.puzzle.wf(),
    ensures
        l.scanned_pieces(from).len() == l.pool(),
        l.next_candidate(from) <= l.pool(),
        forall|id: int|
            0 <= id < l.pool() ==> {
                let after = #[trigger] l.scanned_pieces(from)[id];
                &&& after.wf()
                &&& after.color == l.piece(id).color
                &&& l.piece(id).used ==> after == l.piece(id)
                &&& id != l.next_candidate(from) ==> after.connectors == l.piece(id).connectors
                    && after.used == l.piece(id).used
                &&& id == l.next_candidate(from) ==> after.used && !l.piece(id).used && after.fits(
                    l.around(),
                )
            },
{
    lemma_next_candidate(l, from);
    let found = l.next_candidate(from);
    assert forall|id: int| 0 <= id < l.pool() implies {
        let after = #[trigger] l.scanned_pieces(from)[id];
        &&& after.wf()
        &&& after.color == l.piece(id).color
        &&& l.piece(id).used ==> after == l.piece(id)
        &&& id != found ==> after.connectors == l.piece(id).connectors && after.used == l.piece(
            id,
        ).used
        &&& id == found ==> after.used && !l.piece(id).used && after.fits(l.around())
    } by {
        lemma_can_fit(l.piece(id), l.around());
    }
}

/// The search at an empty cell keeps the solver consistent: whether it places
/// a piece and moves on, or finds none and steps back.
pub proof fn lemma_scanned_consistent(l: SolverView, from: nat)
    requires
        l.consistent(),
        l.position < l.size(),
        l.cell(l.position as int) is None,
    ensures
        l.scanned(from).consistent(),
        l.scanned(from).size() == l.size(),
        l.scanned(from).pool() == l.pool(),
        l.next_candidate(from) >= l.pool() && l.position > 0 ==> (SolverView {
            puzzle: l.scanned(from).puzzle,
            position: (l.position - 1) as nat,
        }).consistent(),
{
    lemma_scanned_pieces(l, from);
    let u = l.scanned(from);
    let pos = l.position as int;
    let found = l.next_candidate(from);
    assert(u.puzzle.wf());
    assert forall|p: int| 0 <= p < u.size() implies #[trigger] u.placed_well(p) by {
        match u.cell(p) {
            None => {},
            Some(id) => {
                assert(l.placed_well(p));
                lemma_fits_by_side(u.piece(id as int), u.puzzle, p as nat);
                lemma_fits_by_side(l.piece(id as int), l.puzzle, p as nat);
                lemma_fits_by_side(u.piece(id as int), l.puzzle, p as nat);
                let piece = u.piece(id as int);
                assert forall|d: Direction|
                    piece.side_fits(d, #[trigger] u.puzzle.constraint(p as nat, d)) by {
                    lemma_side_after_scan(l, from, p, d);
                }
            },
        }
    }
    assert forall|p: int, q: int|
        0 <= p < u.size() && 0 <= q < u.size() && p != q && u.cell(p) is Some
            implies #[trigger] u.cell(p) != #[trigger] u.cell(q) by {
        if p == pos {
            assert(l.placed_well(q));
            if l.cell(q) is Some {
                assert(l.scanned_pieces(from)[l.cell(q)->0 as int].wf());
            }
        } else if q == pos {
            assert(l.placed_well(p));
            assert(l.scanned_pieces(from)[l.cell(p)->0 as int].wf());
        }
    }
    assert forall|p: int| 0 <= p < u.position implies #[trigger] u.cell(p) is Some by {
        if p != pos {
            assert(l.cell(p) is Some);
        }
    }
    assert forall|p: int| u.position < p < u.size() implies #[trigger] u.cell(p) is None by {
        assert(l.cell(p) is None);
    }
    if found >= l.pool() && l.position > 0 {
        let b = SolverView { puzzle: u.puzzle, position: (l.position - 1) as nat };
        assert forall|p: int| 0 <= p < b.position implies #[trigger] b.cell(p) is Some by {
            assert(u.cell(p) is Some);
        }
        assert forall|p: int| b.position < p < b.size() implies #[trigger] b.cell(p) is None by {
            if p != pos {
                assert(u.cell(p) is None);
            }
        }
        assert forall|p: int| 0 <= p < b.size() implies #[trigger] b.placed_well(p) by {
            assert(u.placed_well(p));
        }
        assert forall|p: int, q: int|
            0 <= p < b.size() && 0 <= q < b.size() && p != q && b.cell(p) is Some
                implies #[trigger] b.cell(p) != #[trigger] b.cell(q) by {
            assert(u.cell(p) != u.cell(q));
        }
    }
}

/// After the search at the empty cell at the cursor, the piece on any cell
/// meets the constraint on each of its sides.
proof fn lemma_side_after_scan(l: SolverView, from: nat, p: int, d: Direction)
    requires
        l.consistent(),
        l.position < l.size(),
        l.cell(l.position as int) is None,
        0 <= p < l.size(),
        l.scanned(from).cell(p) is Some,
    ensures
        l.scanned(from).piece(l.scanned(from).cell(p)->0 as int).side_fits(
            d,
            l.scanned(from).puzzle.constraint(p as nat, d),
        ),
{
    lemma_scanned_pieces(l, from);
    let u = l.scanned(from);
    let pos = l.position as int;
    let found = l.next_candidate(from);
    let id = u.cell(p)->0 as int;
    let after = l.scanned_pieces(from);
    if p != pos {
        assert(l.placed_well(p));
        lemma_fits_by_side(l.piece(id), l.puzzle, p as nat);
    } else {
        lemma_fits_by_side(after[id], l.puzzle, p as nat);
    }
    if !l.puzzle.board.on_edge(p as nat, d) {
        lemma_neighbor_back(l.puzzle.board, p as nat, d);
        let n = l.puzzle.board.neighbor(p as nat, d);
        if n == pos && found < l.pool() {
            // the piece just placed lies next to this one, and was fitted to it
            let back = d.spec_opposite();
            lemma_fits_by_side(after[found as int], l.puzzle, pos as nat);
            assert(l.puzzle.constraint(pos as nat, back) == Some(
                l.piece(id).connectors[d.spec_index() as int],
            ));
            lemma_fits_symmetric(
                after[found as int].connectors[back.spec_index() as int],
                l.piece(id).connectors[d.spec_index() as int],
            );
        } else {
            // the neighbour, if there is one, lay there before and was not touched
            assert(l.placed_well(n));
        }
    }
}

/// A step puts a piece through its eight orientations at most once: no count
/// of quarter-turns grows by more than eight. The pool keeps its size and
/// every piece its colour, and the puzzle stays well formed.
pub proof fn lemma_step_turns(s: SolverView)
    requires
        s.puzzle.wf(),
        s.position < s.size(),
    ensures
        s.step().0.puzzle.wf(),
        s.step().0.pool() == s.pool(),
        forall|id: int|
            0 <= id < s.pool() ==> {
                let after = #[trigger] s.step().0.piece(id);
                &&& s.piece(id).rotations <= after.rotations <= s.piece(id).rotations + 8
                &&& after.color == s.piece(id).color
            },
{
    let l = s.lifted();
    let from = s.start_id();
    assert(l.puzzle.wf());
    lemma_scanned_pieces(l, from);
    lemma_next_candidate(l, from);
    let t = s.step().0;
    let found = l.next_candidate(from);
    assert forall|id: int| 0 <= id < s.pool() implies {
        let after = #[trigger] t.piece(id);
        &&& s.piece(id).rotations <= after.rotations <= s.piece(id).rotations + 8
        &&& after.color == s.piece(id).color
    } by {
        lemma_can_fit(l.piece(id), l.around());
        crate::piece::lemma_first_fit_from(l.piece(id), l.around(), 0);
        crate::piece::lemma_attempt_marks(l.piece(id), l.piece(id).first_fit(l.around()));
    }
    assert(t.puzzle.wf());
}

/// A step gives up a cell only when nothing is left to try: where it reports
/// `Backtrack` or `Unsolvable`, no free piece from the one it started with on
/// fits the cell at the cursor in any of its eight orientations.
pub proof fn lemma_step_back_means_no_fit(s: SolverView, id: int, turns: nat, flipped: bool)
    requires
        s.puzzle.wf(),
        s.position < s.size(),
        s.step().1 is Backtrack || s.step().1 is Unsolvable,
        s.start_id() <= id < s.pool(),
        !s.lifted().piece(id).used,
        turns < 4,
    ensures
        !(PieceView {
            connectors: s.lifted().piece(id).orientation(turns, flipped),
            ..s.lifted().piece(id)
        }).fits(s.lifted().around()),
{
    let l = s.lifted();
    lemma_next_candidate(l, s.start_id());
    assert(!l.is_candidate(id));
    lemma_can_fit(l.piece(id), l.around());
}

/// A solver at the first cell of an empty board is consistent.
pub proof fn lemma_fresh_consistent(s: SolverView)
    requires
        s.puzzle.wf(),
        s.position == 0,
        s.puzzle.board.is_empty(),
    ensures
        s.consistent(),
{
}

/// A step keeps a consistent solver consistent. It moves the cursor by one
/// cell: forward where it placed a piece, back where it found none; the puzzle
/// is solved exactly when the cursor has left the board, and unsolvable exactly
/// when no piece was left for the first cell.
pub proof fn lemma_step_consistent(s: SolverView)
    requires
        s.consistent(),
        s.position < s.size(),
    ensures
        s.step().0.consistent(),
        s.step().0.size() == s.size(),
        s.step().0.pool() == s.pool(),
        s.step().0.puzzle.board.width == s.puzzle.board.width,
        s.step().0.puzzle.board.height == s.puzzle.board.height,
        s.step().1 is Progressing ==> s.step().0.position == s.position + 1 && s.position + 1
            < s.size(),
        s.step().1 is Solved ==> s.step().0.position == s.size() && s.position + 1 == s.size(),
        s.step().1 is Backtrack ==> s.step().0.position == s.position - 1,
        s.step().1 is Unsolvable ==> s.step().0.position == 0 && s.position == 0,
        !(s.step().1 is Idle),
{
    lemma_lifted_consistent(s);
    lemma_scanned_consistent(s.lifted(), s.start_id());
    lemma_next_candidate(s.lifted(), s.start_id());
}

/// A consistent solver whose cursor has left the board holds a solution.
pub proof fn lemma_full_board_solved(s: SolverView)
    requires
        s.consistent(),
        s.position == s.size(),
    ensures
        s.solved(),
{
    assert forall|p: int, d: Direction| 0 <= p < s.size() implies #[trigger] s.side_solved(
        p,
        d,
    ) by {
        // the piece fits what its neighbour shows it, and its neighbour is there
        assert(s.placed_well(p));
        lemma_fits_by_side(s.piece(s.cell(p)->0 as int), s.puzzle, p as nat);
        if !s.puzzle.board.on_edge(p as nat, d) {
            lemma_neighbor_back(s.puzzle.board, p as nat, d);
        }
    }
}

/// A step from a consistent solver that reports `Solved` leaves a solution on
/// the board.
pub proof fn lemma_solved_is_solution(s: SolverView)
    requires
        s.consistent(),
        s.position < s.size(),
        s.step().1 is Solved,
    ensures
        s.step().0.solved(),
{
    lemma_step_consistent(s);
    lemma_full_board_solved(s.step().0);
}

/// A step that finds a piece on the cell at the cursor takes it off before it
/// looks for another: afterwards that piece is marked free and lies nowhere on
/// the board, and the cell is empty unless a later piece of the pool was placed
/// there.
pub proof fn lemma_step_frees_piece(s: SolverView, id: nat)
    requires
        s.consistent(),
        s.position < s.size(),
        s.cell(s.position as int) == Some(id),
    ensures
        !s.lifted().piece(id as int).used,
        s.lifted().cell(s.position as int) is None,
        !s.step().0.piece(id as int).used,
        forall|p: int| 0 <= p < s.size() ==> s.step().0.cell(p) != Some(id),
        s.step().0.cell(s.position as int) matches Some(next) ==> next > id,
{
    lemma_lifted_consistent(s);
    let l = s.lifted();
    let from = s.start_id();
    lemma_scanned_pieces(l, from);
    lemma_next_candidate(l, from);
    let t = s.step().0;
    assert forall|p: int| 0 <= p < s.size() implies t.cell(p) != Some(id) by {
        if p != s.position {
            assert(t.cell(p) == s.cell(p));
        }
    }
}

} // verus!
