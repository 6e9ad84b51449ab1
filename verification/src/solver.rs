//! The step-wise backtracking solver.
//!
//! The solver fills the board cell by cell in row-major order. At each cell it
//! goes through the free pieces in the order of the pool and through the eight
//! orientations of each, and keeps the first that fits. Where none fits it
//! steps back to the cell before, takes the piece there off the board and goes
//! on with the pieces after it.

use crate::consistency::{
    lemma_fresh_consistent, lemma_solved_is_solution, lemma_step_consistent, lemma_step_turns,
};
use crate::piece::{lemma_attempt_marks, lemma_can_fit, Connector, Direction, Piece, PieceView};
use crate::puzzle::{lemma_neighbor_on_board, Puzzle, PuzzleView, Square};
use crate::termination::lemma_step_progress;
use vstd::prelude::*;

verus! {

/// What a step of the search has come to.
#[derive(Clone, Copy, Debug, PartialEq, Eq, Structural)]
pub enum PuzzleState {
    /// No search has been started.
    Idle,
    /// A piece was placed and cells are left to fill.
    Progressing,
    /// No piece fitted; the search has stepped back by one cell.
    Backtrack,
    /// Every cell is filled.
    Solved,
    /// No piece fits the first cell any more: there is no solution.
    Unsolvable,
}

impl PuzzleState {
    /// Whether the search is over.
    pub open spec fn is_terminal(self) -> bool {
        self is Solved || self is Unsolvable
    }
}

/// The solver as a mathematical value: the puzzle and the cell to fill next.
pub struct SolverView {
    pub puzzle: PuzzleView,
    pub position: nat,
}

impl SolverView {
    /// Number of cells of the board.
    pub open spec fn size(self) -> nat {
        self.puzzle.board.size()
    }

    /// Number of pieces in the pool.
    pub open spec fn pool(self) -> nat {
        self.puzzle.pieces.len()
    }

    /// What the cell at `p` holds.
    pub open spec fn cell(self, p: int) -> Option<nat> {
        self.puzzle.board.cells[p]
    }

    /// The piece with identifier `id`.
    pub open spec fn piece(self, id: int) -> PieceView {
        self.puzzle.pieces[id]
    }

    /// The constraints on the four sides of the cell to fill next.
    pub open spec fn around(self) -> Seq<Option<Connector>> {
        self.puzzle.around(self.position)
    }

    /// Every piece can count eight more quarter-turns in a machine word.
    pub open spec fn can_turn(self) -> bool {
        forall|id: int|
            0 <= id < self.pool() ==> (#[trigger] self.piece(id)).rotations + 8 <= usize::MAX
    }

    /// Whether the piece on cell `p`, if there is one, is marked used and meets
    /// what its surroundings ask of each of its sides.
    pub open spec fn placed_well(self, p: int) -> bool {
        self.cell(p) matches Some(id) ==> {
            &&& self.piece(id as int).used
            &&& self.piece(id as int).fits(self.puzzle.around(p as nat))
        }
    }

    /// What holds of the solver throughout a search: the cells before the
    /// cursor are filled and those behind it are empty, no piece lies on two
    /// cells, and every piece on the board is marked used and fits its
    /// surroundings.
    pub open spec fn consistent(self) -> bool {
        &&& self.puzzle.wf()
        &&& self.position <= self.size()
        &&& forall|p: int| 0 <= p < self.position ==> #[trigger] self.cell(p) is Some
        &&& forall|p: int| self.position < p < self.size() ==> #[trigger] self.cell(p) is None
        &&& forall|p: int| 0 <= p < self.size() ==> #[trigger] self.placed_well(p)
        &&& forall|p: int, q: int|
            0 <= p < self.size() && 0 <= q < self.size() && p != q && self.cell(p) is Some
                ==> #[trigger] self.cell(p) != #[trigger] self.cell(q)
    }

    /// Whether the side `d` of the piece on cell `p` is what a solution asks:
    /// straight at the rim of the board, and elsewhere compatible with the
    /// connector that the piece on the neighbouring cell turns towards it.
    pub open spec fn side_solved(self, p: int, d: Direction) -> bool {
        let mine = self.piece(self.cell(p)->0 as int).connectors[d.spec_index() as int];
        if self.puzzle.board.on_edge(p as nat, d) {
            mine.is_flat()
        } else {
            let n = self.puzzle.board.neighbor(p as nat, d);
            let back = d.spec_opposite().spec_index() as int;
            &&& 0 <= n < self.size()
            &&& self.cell(n) is Some
            &&& mine.spec_fits(&self.piece(self.cell(n)->0 as int).connectors[back])
        }
    }

    /// Whether the board is a solution: every cell holds a piece of the pool,
    /// no piece lies on two cells, every edge at the rim is straight and every
    /// two connectors that meet are compatible.
    pub open spec fn solved(self) -> bool {
        &&& self.puzzle.wf()
        &&& forall|p: int|
            0 <= p < self.size() ==> (#[trigger] self.cell(p) matches Some(id) && id < self.pool())
        &&& forall|p: int, q: int|
            0 <= p < self.size() && 0 <= q < self.size() && p != q ==> #[trigger] self.cell(p)
                != #[trigger] self.cell(q)
        &&& forall|p: int, d: Direction| 0 <= p < self.size() ==> #[trigger] self.side_solved(p, d)
    }

    /// The identifier from which the search at the cell to fill goes on: past
    /// the piece that lies there, or from the first piece if the cell is empty.
    pub open spec fn start_id(self) -> nat {
        match self.cell(self.position as int) {
            Some(id) => id + 1,
            None => 0,
        }
    }

    /// The solver with the piece on the cell to fill, if there is one, taken
    /// off the board and marked free.
    pub open spec fn lifted(self) -> SolverView {
        match self.cell(self.position as int) {
            Some(id) => SolverView {
                puzzle: PuzzleView {
                    pieces: self.puzzle.pieces.update(
                        id as int,
                        self.piece(id as int).with_used(false),
                    ),
                    board: self.puzzle.board.clear(self.position),
                },
                position: self.position,
            },
            None => self,
        }
    }

    /// Whether piece `id` is free and fits the cell to fill in one of its
    /// orientations.
    pub open spec fn is_candidate(self, id: int) -> bool {
        &&& 0 <= id < self.pool()
        &&& !self.piece(id).used
        &&& self.piece(id).can_fit(self.around())
    }

    /// The first candidate from identifier `from` on; the size of the pool if
    /// there is none.
    pub open spec fn next_candidate(self, from: nat) -> nat
        decreases self.pool() - from,
    {
        if from >= self.pool() {
            self.pool()
        } else if self.is_candidate(from as int) {
            from
        } else {
            self.next_candidate(from + 1)
        }
    }

    /// The solver after piece `id` was tried on the cell to fill: placed in the
    /// first orientation that fits and marked used, or left off the board as
    /// the search for a fit leaves it.
    pub open spec fn tried(self, id: nat) -> SolverView {
        let settled = self.piece(id as int).settle(self.around());
        if self.piece(id as int).can_fit(self.around()) {
            SolverView {
                puzzle: PuzzleView {
                    pieces: self.puzzle.pieces.update(id as int, settled.with_used(true)),
                    board: self.puzzle.board.place(self.position, id),
                },
                position: self.position,
            }
        } else {
            SolverView {
                puzzle: PuzzleView {
                    pieces: self.puzzle.pieces.update(id as int, settled),
                    board: self.puzzle.board,
                },
                position: self.position,
            }
        }
    }

    /// The pool after the search at the cell to fill has gone through the
    /// pieces from `from` on: the first candidate lies in the first orientation
    /// that fits and is marked used; the free pieces passed over before it have
    /// been turned through all their orientations and lie as before, with
    /// eight more quarter-turns counted; the others are untouched.
    pub open spec fn scanned_pieces(self, from: nat) -> Seq<PieceView> {
        let found = self.next_candidate(from);
        Seq::new(
            self.pool(),
            |id: int|
                if id == found {
                    self.piece(id).settle(self.around()).with_used(true)
                } else if from <= id < found && !self.piece(id).used {
                    self.piece(id).with_turns_counted(8)
                } else {
                    self.piece(id)
                },
        )
    }

    /// The solver after the search at the cell to fill has gone through the
    /// pieces from `from` on: with the first candidate placed and the next cell
    /// to fill, or, without a candidate, with the board and the cell as they
    /// were.
    pub open spec fn scanned(self, from: nat) -> SolverView {
        let found = self.next_candidate(from);
        if found < self.pool() {
            SolverView {
                puzzle: PuzzleView {
                    pieces: self.scanned_pieces(from),
                    board: self.puzzle.board.place(self.position, found),
                },
                position: self.position + 1,
            }
        } else {
            SolverView {
                puzzle: PuzzleView { pieces: self.scanned_pieces(from), board: self.puzzle.board },
                position: self.position,
            }
        }
    }

    /// What the search at the cell to fill comes to when it goes through the
    /// pieces from `from` on.
    pub open spec fn scan_outcome(self, from: nat) -> PuzzleState {
        if self.next_candidate(from) >= self.pool() {
            PuzzleState::Backtrack
        } else if self.position + 1 >= self.size() {
            PuzzleState::Solved
        } else {
            PuzzleState::Progressing
        }
    }

    /// One step of the search: the solver after it, and what it came to.
    ///
    /// A piece on the cell to fill is taken off first, and the search goes on
    /// behind it. The first free piece that fits is placed, and the next cell
    /// is to fill; the puzzle is solved when that was the last cell. Where no
    /// piece fits, the cell before is to fill again; at the first cell there is
    /// none, and the puzzle is unsolvable.
    pub open spec fn step(self) -> (SolverView, PuzzleState) {
        let scanned = self.lifted().scanned(self.start_id());
        match self.lifted().scan_outcome(self.start_id()) {
            PuzzleState::Backtrack => if self.position == 0 {
                (scanned, PuzzleState::Unsolvable)
            } else {
                (
                    SolverView { puzzle: scanned.puzzle, position: (self.position - 1) as nat },
                    PuzzleState::Backtrack,
                )
            },
            outcome => (scanned, outcome),
        }
    }
}

/// The constraints around a cell depend on the board and on the connectors of
/// the pieces only.
pub proof fn lemma_around_reads_connectors(a: PuzzleView, b: PuzzleView, position: nat)
    requires
        a.wf(),
        position < a.board.size(),
        a.board == b.board,
        a.pieces.len() == b.pieces.len(),
        forall|id: int|
            0 <= id < a.pieces.len() ==> (#[trigger] a.pieces[id]).connectors
                == b.pieces[id].connectors,
    ensures
        a.around(position) == b.around(position),
{
    assert forall|d: Direction| a.constraint(position, d) == b.constraint(position, d) by {
        if !a.board.on_edge(position, d) {
            lemma_neighbor_on_board(a.board, position, d);
        }
    }
}

/// The first candidate from `from` on is a candidate, and none lies between
/// `from` and it; without one, no piece from `from` on is a candidate.
pub proof fn lemma_next_candidate(s: SolverView, from: nat)
    ensures
        s.next_candidate(from) <= s.pool(),
        from <= s.pool() ==> from <= s.next_candidate(from),
        s.next_candidate(from) < s.pool() ==> s.is_candidate(s.next_candidate(from) as int),
        forall|id: int| from <= id < s.next_candidate(from) ==> !s.is_candidate(id),
    decreases s.pool() - from,
{
    if from < s.pool() && !s.is_candidate(from as int) {
        lemma_next_candidate(s, from + 1);
    }
}

/// A puzzle with its cursor: the cell that the search fills next.
pub struct Solver {
    puzzle: Puzzle,
    position: usize,
}

impl View for Solver {
    type V = SolverView;

    closed spec fn view(&self) -> SolverView {
        SolverView { puzzle: self.puzzle@, position: self.position as nat }
    }
}

impl Solver {
    /// A solver at the first cell of `puzzle`. It is consistent if the puzzle
    /// is well formed and its board is empty.
    pub fn new(puzzle: Puzzle) -> (r: Solver)
        ensures
            r@ == (SolverView { puzzle: puzzle@, position: 0 }),
            puzzle@.wf() && puzzle@.board.is_empty() ==> r@.consistent(),
    {
        proof {
            if puzzle@.wf() && puzzle@.board.is_empty() {
                lemma_fresh_consistent(SolverView { puzzle: puzzle@, position: 0 });
            }
        }
        Self { puzzle, position: 0 }
    }

    /// Whether `step` may be called: a cell is left to fill, and no piece's
    /// count of quarter-turns is within eight of the end of its range.
    pub fn can_step(&self) -> (r: bool)
        requires
            self@.puzzle.wf(),
        ensures
            r == (self@.position < self@.size() && self@.can_turn()),
    {
        if self.position >= self.puzzle.board.get_size() {
            return false;
        }
        let mut id: usize = 0;
        while id < self.puzzle.pieces.len()
            invariant
                id <= self.puzzle.pieces.len(),
                forall|i: int|
                    0 <= i < id ==> (#[trigger] self@.piece(i)).rotations + 8 <= usize::MAX,
            decreases self.puzzle.pieces.len() - id,
        {
            if self.puzzle.pieces[id].rotations > usize::MAX - 8 {
                assert(self@.piece(id as int).rotations + 8 > usize::MAX);
                return false;
            }
            id += 1;
        }
        true
    }

    /// A copy of the squares of the board, row by row.
    pub fn get_board_squares(&self) -> (r: Vec<Square>)
        ensures
            r@.len() == self@.puzzle.board.cells.len(),
            forall|p: int| 0 <= p < r@.len() ==> (#[trigger] r@[p])@ == self@.cell(p),
    {
        self.puzzle.board.get_squares()
    }

    /// Number of pieces in the pool; the identifiers are the numbers below it.
    pub fn piece_count(&self) -> (r: usize)
        ensures
            r == self@.pool(),
    {
        self.puzzle.pieces.len()
    }

    /// The piece with identifier `piece_id`, as it lies now.
    pub fn get_piece(&self, piece_id: usize) -> (r: Piece)
        requires
            piece_id < self@.pool(),
        ensures
            r@ == self@.piece(piece_id as int),
    {
        self.puzzle.pieces[piece_id]
    }

    /// Makes the next step of the search: places a piece on the cell at the
    /// cursor, or steps back by one cell if none fits.
    pub fn step(&mut self) -> (r: PuzzleState)
        requires
            old(self)@.puzzle.wf(),
            old(self)@.position < old(self)@.size(),
            old(self)@.can_turn(),
        ensures
            (final(self)@, r) == old(self)@.step(),
            !(r is Idle),
            final(self)@.puzzle.wf(),
            final(self)@.pool() == old(self)@.pool(),
            final(self)@.size() == old(self)@.size(),
            forall|id: int|
                0 <= id < old(self)@.pool() ==> (#[trigger] final(self)@.piece(id)).rotations
                    <= old(self)@.piece(id).rotations + 8,
            old(self)@.consistent() ==> final(self)@.consistent(),
            old(self)@.consistent() && r is Solved ==> final(self)@.solved(),
            old(self)@.consistent() && !r.is_terminal() ==> final(self)@.remaining() < old(
                self,
            )@.remaining(),
    {
        let ghost before = self@;
        proof {
            lemma_step_turns(before);
            if before.consistent() {
                lemma_step_consistent(before);
                if before.step().1 is Solved {
                    lemma_solved_is_solution(before);
                }
                if !before.step().1.is_terminal() {
                    lemma_step_progress(before);
                }
            }
            assert(before.puzzle.board.cells[before.position as int] matches Some(id) ==> id
                < before.pool());
            assert(before.pool() == self.puzzle.pieces.len());
        }
        let start_piece_id: usize = {
            let (mut piece_id, empty) = self.puzzle.board.get_piece(self.position);
            if !empty {
                // we are backtracking, take the old piece off the board
                self.puzzle.board.remove_piece(self.position);
                self.puzzle.pieces[piece_id].used = false;
                piece_id += 1;
            }
            piece_id
        };
        proof {
            assert(self@.puzzle.pieces =~= before.lifted().puzzle.pieces);
            assert forall|id: int| 0 <= id < self@.pool() implies (#[trigger] self@.piece(
                id,
            )).rotations + 8 <= usize::MAX by {
            }
        }

        let state = self.forward(start_piece_id);
        match state {
            PuzzleState::Backtrack => {
                if self.position == 0 {
                    // backtracking has reached back to the beginning: all
                    // options have been exhausted
                    return PuzzleState::Unsolvable;
                }
                self.position -= 1;
            },
            _ => {
                // nothing special to do for the other states
            },
        }

        state
    }

    /// Checks whether a single piece fits the cell to fill, going through its
    /// orientations, and puts it on the board if it does.
    fn add_if_fits(&mut self, piece_id: usize) -> (fits: bool)
        requires
            old(self)@.puzzle.wf(),
            old(self)@.position < old(self)@.size(),
            piece_id < old(self)@.pool(),
            old(self)@.piece(piece_id as int).rotations + 8 <= usize::MAX,
        ensures
            fits == old(self)@.piece(piece_id as int).can_fit(old(self)@.around()),
            final(self)@ == old(self)@.tried(piece_id as nat),
    {
        let connectors_around = self.puzzle.get_connectors_around(self.position);
        let mut piece = self.puzzle.pieces[piece_id];
        let ghost start = piece@;
        let ghost around = connectors_around@;
        let mut fits = false;

        // try the piece in all its rotations (including flipping it)
        let mut round: usize = 0;
        while round < 2 && !fits
            invariant
                round <= 2,
                start.wf(),
                start.rotations + 8 <= usize::MAX,
                around == connectors_around@,
                start.first_fit(around) == start.first_fit_from(around, (4 * round) as nat),
                !fits ==> piece@ == start.attempt((4 * round) as nat),
                fits ==> start.can_fit(around) && piece@ == start.settle(around),
            decreases 2 - round, (if fits { 0int } else { 1int }),
        {
            let mut turn: usize = 0;
            while turn < 4 && !fits
                invariant
                    round < 2,
                    turn <= 4,
                    start.wf(),
                    start.rotations + 8 <= usize::MAX,
                    around == connectors_around@,
                    start.first_fit(around) == start.first_fit_from(
                        around,
                        (4 * round + turn) as nat,
                    ),
                    !fits && turn < 4 ==> piece@ == start.attempt((4 * round + turn) as nat),
                    !fits && turn == 4 ==> piece@ == start.attempt(
                        (4 * round + 3) as nat,
                    ).rotate(),
                    fits ==> start.can_fit(around) && piece@ == start.settle(around),
                decreases 4 - turn, (if fits { 0int } else { 1int }),
            {
                if piece.fits(&connectors_around) {
                    fits = true;
                } else {
                    proof {
                        lemma_attempt_marks(start, (4 * round + turn) as nat);
                    }
                    piece.rotate();
                    turn += 1;
                }
            }

            if !fits {
                piece.flip();
                round += 1;
            }
        }

        if fits {
            piece.used = true;
            self.puzzle.board.add_piece(self.position, piece_id);
        }
        self.puzzle.pieces[piece_id] = piece;
        assert(self@.puzzle.pieces =~= old(self)@.tried(piece_id as nat).puzzle.pieces);
        fits
    }

    /// Checks, in the order of the pool and from `start_piece_id` on, whether a
    /// free piece fits the cell to fill. Places the first that does and moves
    /// on to the next cell.
    fn check_pieces(&mut self, start_piece_id: usize) -> (added: bool)
        requires
            old(self)@.puzzle.wf(),
            old(self)@.position < old(self)@.size(),
            old(self)@.can_turn(),
        ensures
            added == (old(self)@.next_candidate(start_piece_id as nat) < old(self)@.pool()),
            final(self)@ == old(self)@.scanned(start_piece_id as nat),
    {
        let ghost before = self@;
        let ghost from = start_piece_id as nat;
        let mut piece_id: usize = start_piece_id;
        while piece_id < self.puzzle.pieces.len()
            invariant
                start_piece_id <= piece_id,
                before == old(self)@,
                from == start_piece_id,
                before.puzzle.wf(),
                before.can_turn(),
                self@.puzzle.wf(),
                self@.position == before.position,
                self@.position < self@.size(),
                self@.puzzle.board == before.puzzle.board,
                self@.pool() == before.pool(),
                before.next_candidate(from) == before.next_candidate(piece_id as nat),
                forall|id: int|
                    0 <= id < before.pool() ==> #[trigger] self@.piece(id) == (if from <= id
                        < piece_id && !before.piece(id).used {
                        before.piece(id).with_turns_counted(8)
                    } else {
                        before.piece(id)
                    }),
            decreases self.puzzle.pieces.len() - piece_id,
        {
            let ghost now = self@;
            proof {
                // the pieces passed over lie as they lay, so the cell asks
                // what it asked at the start
                assert forall|id: int| 0 <= id < now.pool() implies (
                #[trigger] now.puzzle.pieces[id]).connectors
                    == before.puzzle.pieces[id].connectors by {
                    assert(now.piece(id).connectors == before.piece(id).connectors);
                }
                lemma_around_reads_connectors(now.puzzle, before.puzzle, now.position);
                lemma_can_fit(before.piece(piece_id as int), before.around());
                assert(self.puzzle.pieces@[piece_id as int]@ == now.piece(piece_id as int));
                assert(now.puzzle.board.cells.len() == self.puzzle.board.squares.len());
            }
            if !self.puzzle.pieces[piece_id].used {
                if self.add_if_fits(piece_id) {
                    self.position += 1;
                    proof {
                        assert(before.next_candidate(from) == piece_id);
                        assert forall|id: int| 0 <= id < before.pool() implies self@.piece(id)
                            == before.scanned_pieces(from)[id] by {
                            if id == piece_id {
                                assert(self@.piece(id) == before.piece(id).settle(
                                    before.around(),
                                ).with_used(true));
                            } else {
                                assert(self@.piece(id) == now.piece(id));
                            }
                        }
                        assert(self@.puzzle.pieces =~= before.scanned_pieces(from));
                    }
                    return true;
                }
                proof {
                    assert forall|id: int| 0 <= id < before.pool() implies #[trigger] self@.piece(
                        id,
                    ) == (if from <= id < piece_id + 1 && !before.piece(id).used {
                        before.piece(id).with_turns_counted(8)
                    } else {
                        before.piece(id)
                    }) by {
                        if id != piece_id {
                            assert(self@.piece(id) == now.piece(id));
                        }
                    }
                }
            }
            piece_id += 1;
        }
        proof {
            lemma_next_candidate(before, piece_id as nat);
            assert forall|id: int| 0 <= id < before.pool() implies self@.piece(id)
                == before.scanned_pieces(from)[id] by {}
            assert(self@.puzzle.pieces =~= before.scanned_pieces(from));
        }
        false
    }

    /// Tries to fill the cell at the cursor with a piece from `start_piece_id`
    /// on, and says what that came to.
    fn forward(&mut self, start_piece_id: usize) -> (r: PuzzleState)
        requires
            old(self)@.puzzle.wf(),
            old(self)@.position < old(self)@.size(),
            old(self)@.can_turn(),
        ensures
            r == old(self)@.scan_outcome(start_piece_id as nat),
            final(self)@ == old(self)@.scanned(start_piece_id as nat),
    {
        let added = self.check_pieces(start_piece_id);
        let size: usize = self.puzzle.board.get_size();

        if added {
            if self.position >= size {
                PuzzleState::Solved
            } else {
                PuzzleState::Progressing
            }
        } else {
            // no piece fits
            PuzzleState::Backtrack
        }
    }
}

} // verus!
