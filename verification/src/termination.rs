//! Every search comes to an end.
//!
//! The board is read as a number with one digit per cell, the first cell
//! leading: the digit of a cell tells how far the search at that cell has come
//! in the pool. A step that places a piece never lowers that number and moves
//! the cursor on; a step back raises it. The number is bounded, so the steps
//! of a search cannot go on for ever.

use crate::consistency::{lemma_lifted_consistent, lemma_scanned_pieces, lemma_step_consistent};
use crate::solver::{lemma_next_candidate, PuzzleState, SolverView};
use vstd::prelude::*;

verus! {

/// The number written by `digits` in base `base`, the first digit leading.
pub open spec fn horner(digits: Seq<nat>, base: nat) -> nat
    decreases digits.len(),
{
    if digits.len() == 0 {
        0
    } else {
        horner(digits.drop_last(), base) * base + digits.last()
    }
}

/// The number of numbers of `n` digits in base `base`.
pub open spec fn capacity(base: nat, n: nat) -> nat
    decreases n,
{
    if n == 0 {
        1
    } else {
        capacity(base, (n - 1) as nat) * base
    }
}

/// A number of `n` digits in base `base` is less than the number of such
/// numbers.
pub proof fn lemma_horner_bound(digits: Seq<nat>, base: nat)
    requires
        forall|i: int| 0 <= i < digits.len() ==> #[trigger] digits[i] < base,
    ensures
        horner(digits, base) < capacity(base, digits.len()),
    decreases digits.len(),
{
    if digits.len() > 0 {
        let front = digits.drop_last();
        assert forall|i: int| 0 <= i < front.len() implies #[trigger] front[i] < base by {}
        lemma_horner_bound(front, base);
        let h = horner(front, base) as int;
        let c = capacity(base, front.len()) as int;
        let last = digits.last() as int;
        assert(h * base + last < c * base) by (nonlinear_arith)
            requires
                0 <= h < c,
                0 <= last < base,
        ;
    }
}

/// Of two numbers with as many digits, the one with the greater digit at the
/// first place where they differ is the greater.
pub proof fn lemma_horner_lex(a: Seq<nat>, b: Seq<nat>, base: nat, j: int)
    requires
        a.len() == b.len(),
        0 <= j < a.len(),
        forall|i: int| 0 <= i < j ==> a[i] == b[i],
        a[j] < b[j],
        forall|i: int| j < i < a.len() ==> #[trigger] a[i] < base,
    ensures
        horner(a, base) < horner(b, base),
    decreases a.len(),
{
    let front_a = a.drop_last();
    let front_b = b.drop_last();
    if j == a.len() - 1 {
        assert(front_a =~= front_b);
    } else {
        assert forall|i: int| j < i < front_a.len() implies #[trigger] front_a[i] < base by {}
        lemma_horner_lex(front_a, front_b, base, j);
        let ha = horner(front_a, base) as int;
        let hb = horner(front_b, base) as int;
        let la = a.last() as int;
        let lb = b.last() as int;
        assert(ha * base + la < hb * base + lb) by (nonlinear_arith)
            requires
                0 <= ha < hb,
                0 <= la < base,
                0 <= lb,
        ;
    }
}

impl SolverView {
    /// How far the search at cell `p` has come in the pool: the pieces before
    /// the one that lies there are done with, and so is that piece itself once
    /// the cursor has come back to the cell.
    pub open spec fn digit(self, p: int) -> nat {
        match self.cell(p) {
            None => 0,
            Some(id) => if p < self.position {
                id
            } else {
                id + 1
            },
        }
    }

    /// The digits of all cells, in the order of the cells.
    pub open spec fn digits(self) -> Seq<nat> {
        Seq::new(self.size(), |p: int| self.digit(p))
    }

    /// How far the search has come: the number that the board writes, counted
    /// once for every cell and once more, plus the cursor.
    pub open spec fn progress(self) -> nat {
        horner(self.digits(), self.pool() + 1) * (self.size() + 1) + self.position
    }

    /// A bound that the progress of a search never reaches.
    pub open spec fn limit(self) -> nat {
        capacity(self.pool() + 1, self.size()) * (self.size() + 1)
    }

    /// A bound on the number of steps that the search can still make.
    pub open spec fn remaining(self) -> nat {
        (self.limit() - self.progress()) as nat
    }

    /// The solver after up to `steps` steps, and what the last of them came
    /// to; the steps end early with the first that solves the puzzle or finds
    /// it unsolvable.
    pub open spec fn run(self, steps: nat) -> (SolverView, PuzzleState)
        decreases steps,
    {
        if steps == 0 {
            (self, PuzzleState::Idle)
        } else {
            let (next, outcome) = self.step();
            if outcome.is_terminal() || steps == 1 {
                (next, outcome)
            } else {
                next.run((steps - 1) as nat)
            }
        }
    }
}

/// The progress of a consistent solver stays below its limit.
pub proof fn lemma_progress_bounded(s: SolverView)
    requires
        s.consistent(),
    ensures
        s.progress() < s.limit(),
        s.remaining() > 0,
{
    let base = s.pool() + 1;
    let digits = s.digits();
    // a digit is an identifier or one more, and identifiers lie below the pool's size
    assert forall|p: int| 0 <= p < digits.len() implies #[trigger] digits[p] < base by {}
    lemma_horner_bound(digits, base);
    let h = horner(digits, base) as int;
    let c = capacity(base, s.size()) as int;
    let n = s.size() as int;
    let pos = s.position as int;
    assert(h * (n + 1) + pos < c * (n + 1)) by (nonlinear_arith)
        requires
            0 <= h < c,
            0 <= pos <= n,
    ;
}

/// A step that does not end the search makes progress: fewer steps remain
/// after it than before.
pub proof fn lemma_step_progress(s: SolverView)
    requires
        s.consistent(),
        s.position < s.size(),
        !s.step().1.is_terminal(),
    ensures
        s.step().0.progress() > s.progress(),
        s.step().0.limit() == s.limit(),
        s.step().0.remaining() < s.remaining(),
{
    lemma_step_consistent(s);
    lemma_lifted_consistent(s);
    let l = s.lifted();
    let from = s.start_id();
    lemma_scanned_pieces(l, from);
    lemma_next_candidate(l, from);
    let t = s.step().0;
    let found = l.next_candidate(from);
    let pos = s.position as int;
    let base = s.pool() + 1;
    let a = s.digits();
    let b = t.digits();
    let n = s.size() as int;
    lemma_progress_bounded(s);
    lemma_progress_bounded(t);
    assert forall|p: int| 0 <= p < a.len() implies #[trigger] a[p] < base by {}
    if found < s.pool() {
        // a piece was placed: the digit at the cursor has not gone down, and
        // the cursor has moved on
        assert forall|p: int| 0 <= p < n && p != pos implies a[p] == b[p] by {}
        let ha = horner(a, base) as int;
        let hb = horner(b, base) as int;
        if from == found {
            assert(a =~= b);
        } else {
            lemma_horner_lex(a, b, base, pos);
        }
        assert(ha * (n + 1) <= hb * (n + 1)) by (nonlinear_arith)
            requires
                0 <= ha <= hb,
                0 <= n,
        ;
    } else {
        // no piece was left: the cursor has stepped back, and the digit of the
        // cell before has gone up
        let j = pos - 1;
        assert forall|p: int| 0 <= p < j implies a[p] == b[p] by {}
        lemma_horner_lex(a, b, base, j);
        let ha = horner(a, base) as int;
        let hb = horner(b, base) as int;
        assert((ha + 1) * (n + 1) <= hb * (n + 1)) by (nonlinear_arith)
            requires
                0 <= ha < hb,
                0 <= n,
        ;
        assert((ha + 1) * (n + 1) == ha * (n + 1) + n + 1) by (nonlinear_arith);
    }
}

/// Every search ends: from a consistent solver with a cell to fill, a number
/// of steps that the pool and the board bound leads to `Solved` or to
/// `Unsolvable`. The solver is consistent then, and a `Solved` board is a
/// solution.
pub proof fn lemma_search_ends(s: SolverView) -> (steps: nat)
    requires
        s.consistent(),
        s.position < s.size(),
    ensures
        1 <= steps <= s.remaining(),
        s.run(steps).1.is_terminal(),
        s.run(steps).0.consistent(),
        s.run(steps).1 is Solved ==> s.run(steps).0.solved(),
    decreases s.remaining(),
{
    lemma_progress_bounded(s);
    lemma_step_consistent(s);
    let (next, outcome) = s.step();
    if outcome.is_terminal() {
        if outcome is Solved {
            crate::consistency::lemma_full_board_solved(next);
        }
        1
    } else {
        lemma_step_progress(s);
        let more = lemma_search_ends(next);
        more + 1
    }
}

} // verus!
