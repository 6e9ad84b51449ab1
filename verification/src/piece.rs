//! Connectors, directions and pieces.
//!
//! A piece is a square tile with one connector on each of its four sides. Two
//! neighbouring pieces can sit side by side when the connectors on their shared
//! edge are compatible. A piece can be turned in quarter-turns and flipped over,
//! which gives it eight orientations.

use vstd::prelude::*;

verus! {

/// Number of sides of a piece.
pub const DIRECTION_COUNT: usize = 4;

/// The four sides of a piece, in the order in which a piece stores its connectors.
#[derive(Clone, Copy, Debug, PartialEq, Eq, Structural)]
pub enum Direction {
    Left,
    Up,
    Right,
    Down,
}

impl Direction {
    /// Slot of this direction in a piece's connector array.
    pub open spec fn spec_index(&self) -> usize {
        match self {
            Direction::Left => 0,
            Direction::Up => 1,
            Direction::Right => 2,
            Direction::Down => 3,
        }
    }

    /// The direction facing this one.
    pub open spec fn spec_opposite(&self) -> Direction {
        match self {
            Direction::Left => Direction::Right,
            Direction::Up => Direction::Down,
            Direction::Right => Direction::Left,
            Direction::Down => Direction::Up,
        }
    }

    /// The direction whose connector lies in slot `index`.
    pub open spec fn at(index: int) -> Direction {
        if index == 0 {
            Direction::Left
        } else if index == 1 {
            Direction::Up
        } else if index == 2 {
            Direction::Right
        } else {
            Direction::Down
        }
    }

    /// Number of directions.
    pub fn count() -> (r: usize)
        ensures
            r == DIRECTION_COUNT,
    {
        DIRECTION_COUNT
    }

    /// Slot of this direction in a piece's connector array.
    #[verifier::when_used_as_spec(spec_index)]
    pub fn index(&self) -> (r: usize)
        ensures
            r == self.spec_index(),
            r < DIRECTION_COUNT,
    {
        match self {
            Direction::Left => 0,
            Direction::Up => 1,
            Direction::Right => 2,
            Direction::Down => 3,
        }
    }

    /// The direction facing this one: left and right face each other, and so do
    /// up and down.
    #[verifier::when_used_as_spec(spec_opposite)]
    pub fn opposite(&self) -> (r: Direction)
        ensures
            r == self.spec_opposite(),
    {
        match self {
            Direction::Left => Direction::Right,
            Direction::Up => Direction::Down,
            Direction::Right => Direction::Left,
            Direction::Down => Direction::Up,
        }
    }
}

/// Taking the opposite direction twice gives the direction back, and a
/// direction never faces itself.
pub proof fn lemma_opposite_involutive(d: Direction)
    ensures
        d.spec_opposite().spec_opposite() == d,
        d.spec_opposite() != d,
{
}

#[derive(Clone, Copy, Debug, PartialEq, Eq, Structural)]
pub enum ConnectorGender {
    Male,
    Female,
    Flat,
}

#[derive(Clone, Copy, Debug, PartialEq, Eq, Structural)]
pub enum ConnectorType {
    Small,
    Large,
    Flat,
}

/// Offset of the connector when looked at from the middle of the piece towards
/// the edge: a connector sits a bit left or a bit right of the centre.
#[derive(Clone, Copy, Debug, PartialEq, Eq, Structural)]
pub enum ConnectorOffset {
    Left,
    Right,
    Flat,
}

impl ConnectorOffset {
    /// The offset as seen from the other face of the piece.
    pub open spec fn spec_mirrored(&self) -> ConnectorOffset {
        match self {
            ConnectorOffset::Left => ConnectorOffset::Right,
            ConnectorOffset::Right => ConnectorOffset::Left,
            ConnectorOffset::Flat => ConnectorOffset::Flat,
        }
    }

    /// The offset as seen from the other face of the piece: left and right
    /// trade places, flat stays flat.
    #[verifier::when_used_as_spec(spec_mirrored)]
    pub fn mirrored(&self) -> (r: ConnectorOffset)
        ensures
            r == self.spec_mirrored(),
    {
        match self {
            ConnectorOffset::Left => ConnectorOffset::Right,
            ConnectorOffset::Right => ConnectorOffset::Left,
            ConnectorOffset::Flat => ConnectorOffset::Flat,
        }
    }
}

/// The mating geometry of one edge of a piece.
#[derive(Clone, Copy, Debug, PartialEq, Eq, Structural)]
pub struct Connector {
    pub gender: ConnectorGender,
    pub ctype: ConnectorType,
    pub offset: ConnectorOffset,
}

impl Connector {
    /// The connector of a straight edge.
    pub open spec fn spec_flat() -> Connector {
        Connector {
            gender: ConnectorGender::Flat,
            ctype: ConnectorType::Flat,
            offset: ConnectorOffset::Flat,
        }
    }

    /// Whether the edge is straight. Only the gender decides.
    pub open spec fn is_flat(&self) -> bool {
        self.gender == ConnectorGender::Flat
    }

    /// Whether two connectors can share an edge: both are straight, or one is
    /// male and the other female, of one size, leaning to different sides.
    pub open spec fn spec_fits(&self, other: &Connector) -> bool {
        ||| self.is_flat() && other.is_flat()
        ||| {
            &&& !self.is_flat()
            &&& !other.is_flat()
            &&& self.gender != other.gender
            &&& self.ctype == other.ctype
            &&& self.offset != other.offset
        }
    }

    /// The connector as seen from the other face of the piece.
    pub open spec fn spec_mirrored(&self) -> Connector {
        Connector { gender: self.gender, ctype: self.ctype, offset: self.offset.spec_mirrored() }
    }

    pub fn new(gender: ConnectorGender, ctype: ConnectorType, offset: ConnectorOffset) -> (r:
        Connector)
        ensures
            r == (Connector { gender, ctype, offset }),
    {
        Connector { gender, ctype, offset }
    }

    /// The connector of a straight edge: all three fields are flat.
    #[verifier::when_used_as_spec(spec_flat)]
    pub fn flat() -> (r: Connector)
        ensures
            r == Connector::spec_flat(),
    {
        Connector {
            gender: ConnectorGender::Flat,
            ctype: ConnectorType::Flat,
            offset: ConnectorOffset::Flat,
        }
    }

    /// Whether the two connectors can share an edge.
    #[verifier::when_used_as_spec(spec_fits)]
    pub fn fits(&self, other: &Connector) -> (r: bool)
        ensures
            r == self.spec_fits(other),
    {
        let self_flat = self.gender == ConnectorGender::Flat;
        let other_flat = other.gender == ConnectorGender::Flat;
        if self_flat && other_flat {
            true
        } else if self_flat || other_flat {
            false
        } else {
            self.gender != other.gender && self.ctype == other.ctype && self.offset
                != other.offset
        }
    }

    /// The connector as seen from the other face of the piece: the offset is
    /// mirrored, gender and size stay.
    #[verifier::when_used_as_spec(spec_mirrored)]
    pub fn mirrored(&self) -> (r: Connector)
        ensures
            r == self.spec_mirrored(),
    {
        Connector { gender: self.gender, ctype: self.ctype, offset: self.offset.mirrored() }
    }
}

/// Compatibility does not depend on which of the two connectors is asked.
pub proof fn lemma_fits_symmetric(a: Connector, b: Connector)
    ensures
        a.spec_fits(&b) == b.spec_fits(&a),
{
}

/// Two straight edges always fit, and a straight edge fits nothing else.
pub proof fn lemma_flat_fits_only_flat(a: Connector, b: Connector)
    ensures
        a.is_flat() && b.is_flat() ==> a.spec_fits(&b),
        a.is_flat() && !b.is_flat() ==> !a.spec_fits(&b) && !b.spec_fits(&a),
        a.spec_fits(&Connector::spec_flat()) == a.is_flat(),
        Connector::spec_flat().spec_fits(&a) == a.is_flat(),
{
}

/// Two connectors that are not straight fit exactly when their genders differ,
/// their sizes agree and their offsets differ; for the usual connectors that
/// means one male and one female, one leaning left and one leaning right.
pub proof fn lemma_fits_shaped(a: Connector, b: Connector)
    requires
        !a.is_flat(),
        !b.is_flat(),
    ensures
        a.spec_fits(&b) == (a.gender != b.gender && a.ctype == b.ctype && a.offset != b.offset),
        a.spec_fits(&b) ==> (a.gender == ConnectorGender::Male) != (b.gender
            == ConnectorGender::Male),
        a.spec_fits(&b) && a.offset != ConnectorOffset::Flat && b.offset != ConnectorOffset::Flat
            ==> (a.offset == ConnectorOffset::Left) != (b.offset == ConnectorOffset::Left),
{
}

/// Mirroring a connector twice gives the connector back.
pub proof fn lemma_mirrored_involutive(c: Connector)
    ensures
        c.spec_mirrored().spec_mirrored() == c,
{
}

#[derive(Clone, Copy, Debug, PartialEq, Eq, Structural)]
pub enum Color {
    Green,
    Yellow,
}

/// The four connectors of a piece, by direction.
pub type Connectors = [Connector; 4];

/// What the surroundings of a board cell ask of each side of a piece placed
/// there; `None` where they ask nothing.
pub type OptionalConnectors = [Option<Connector>; 4];

/// A single puzzle piece with four edges.
#[derive(Clone, Copy, Debug, PartialEq, Eq)]
pub struct Piece {
    pub connectors: Connectors,
    pub color: Color,
    pub used: bool,
    pub flipped: bool,
    pub rotations: usize,
}

/// A piece as a mathematical value: its connectors by slot, and a turn count
/// that is not bounded by a machine word.
pub struct PieceView {
    pub connectors: Seq<Connector>,
    pub color: Color,
    pub used: bool,
    pub flipped: bool,
    pub rotations: nat,
}

impl PieceView {
    /// A piece has one connector per direction.
    pub open spec fn wf(self) -> bool {
        self.connectors.len() == 4
    }

    /// The piece after one quarter-turn: each side takes the connector of the
    /// side before it, and the left side takes that of the bottom.
    pub open spec fn rotate(self) -> PieceView {
        PieceView {
            connectors: seq![
                self.connectors[3],
                self.connectors[0],
                self.connectors[1],
                self.connectors[2],
            ],
            rotations: self.rotations + 1,
            ..self
        }
    }

    /// The piece turned over: every offset mirrored, left and right sides
    /// exchanged.
    pub open spec fn flip(self) -> PieceView {
        PieceView {
            connectors: seq![
                self.connectors[2].spec_mirrored(),
                self.connectors[1].spec_mirrored(),
                self.connectors[0].spec_mirrored(),
                self.connectors[3].spec_mirrored(),
            ],
            flipped: !self.flipped,
            ..self
        }
    }

    /// The piece after `n` quarter-turns.
    pub open spec fn rotate_n(self, n: nat) -> PieceView
        decreases n,
    {
        if n == 0 {
            self
        } else {
            self.rotate_n((n - 1) as nat).rotate()
        }
    }

    /// Whether the piece, as it lies, meets what `around` asks of each side.
    pub open spec fn fits(self, around: Seq<Option<Connector>>) -> bool {
        forall|d: int|
            0 <= d < 4 ==> (#[trigger] around[d] matches Some(c) ==> self.connectors[d].spec_fits(
                &c,
            ))
    }

    /// Whether the side `d` of the piece, as it lies, meets `constraint`.
    pub open spec fn side_fits(self, d: Direction, constraint: Option<Connector>) -> bool {
        constraint matches Some(c) ==> self.connectors[d.spec_index() as int].spec_fits(&c)
    }

    /// The piece with its `used` mark set to `used`.
    pub open spec fn with_used(self, used: bool) -> PieceView {
        PieceView { used, ..self }
    }

    /// The connectors of the piece in one of its eight orientations: turned
    /// over first if `flipped`, then turned by `turns` quarters.
    pub open spec fn orientation(self, turns: nat, flipped: bool) -> Seq<Connector> {
        if flipped {
            self.flip().rotate_n(turns).connectors
        } else {
            self.rotate_n(turns).connectors
        }
    }

    /// The piece as it lies when the search for a fit tries its `k`-th
    /// orientation, counted from 0: each try is followed by a quarter-turn, and
    /// every fourth quarter-turn by turning the piece over.
    pub open spec fn attempt(self, k: nat) -> PieceView
        decreases k,
    {
        if k == 0 {
            self
        } else {
            let turned = self.attempt((k - 1) as nat).rotate();
            if k % 4 == 0 {
                turned.flip()
            } else {
                turned
            }
        }
    }

    /// The first try from the `k`-th on at which the piece meets `around`; 8 if
    /// there is none.
    pub open spec fn first_fit_from(self, around: Seq<Option<Connector>>, k: nat) -> nat
        decreases 8 - k,
    {
        if k >= 8 {
            8
        } else if self.attempt(k).fits(around) {
            k
        } else {
            self.first_fit_from(around, k + 1)
        }
    }

    /// The first of the eight tries at which the piece meets `around`; 8 if
    /// there is none.
    pub open spec fn first_fit(self, around: Seq<Option<Connector>>) -> nat {
        self.first_fit_from(around, 0)
    }

    /// Whether the piece meets `around` in one of its eight orientations.
    pub open spec fn can_fit(self, around: Seq<Option<Connector>>) -> bool {
        self.first_fit(around) < 8
    }

    /// The piece as the search for a fit leaves it: in the first orientation
    /// that meets `around`, or, if none does, as it lay before, with eight
    /// more quarter-turns counted.
    pub open spec fn settle(self, around: Seq<Option<Connector>>) -> PieceView {
        self.attempt(self.first_fit(around))
    }

    /// The piece with `n` more quarter-turns counted and nothing else changed.
    pub open spec fn with_turns_counted(self, n: nat) -> PieceView {
        PieceView { rotations: self.rotations + n, ..self }
    }
}

impl View for Piece {
    type V = PieceView;

    open spec fn view(&self) -> PieceView {
        PieceView {
            connectors: self.connectors@,
            color: self.color,
            used: self.used,
            flipped: self.flipped,
            rotations: self.rotations as nat,
        }
    }
}

impl Piece {
    /// A fresh piece: not on the board, not turned, not flipped.
    pub open spec fn spec_new(connectors: Connectors, color: Color) -> Piece {
        Piece { connectors, color, used: false, flipped: false, rotations: 0 }
    }

    /// A fresh piece: not on the board, not turned, not flipped.
    #[verifier::when_used_as_spec(spec_new)]
    pub fn new(connectors: Connectors, color: Color) -> (r: Piece)
        ensures
            r == Piece::spec_new(connectors, color),
    {
        Piece { connectors, color, used: false, flipped: false, rotations: 0 }
    }

    /// Turns the piece by a quarter and counts the turn.
    pub fn rotate(&mut self)
        requires
            old(self).rotations < usize::MAX,
        ensures
            final(self)@ == old(self)@.rotate(),
    {
        let c = self.connectors;
        self.connectors = [c[3], c[0], c[1], c[2]];
        self.rotations += 1;
    }

    /// Turns the piece over.
    pub fn flip(&mut self)
        ensures
            final(self)@ == old(self)@.flip(),
    {
        let c = self.connectors;
        self.connectors = [c[2].mirrored(), c[1].mirrored(), c[0].mirrored(), c[3].mirrored()];
        self.flipped = !self.flipped;
    }

    /// The connector in slot `index`.
    pub fn get_connector(&self, index: usize) -> (r: Connector)
        requires
            index < 4,
        ensures
            r == self@.connectors[index as int],
    {
        self.connectors[index]
    }

    /// Whether the piece, as it lies, meets what `connectors_around` asks of
    /// each of its sides.
    pub fn fits(&self, connectors_around: &OptionalConnectors) -> (r: bool)
        ensures
            r == self@.fits(connectors_around@),
    {
        let mut i: usize = 0;
        while i < 4
            invariant
                i <= 4,
                forall|d: int|
                    0 <= d < i ==> (#[trigger] connectors_around@[d] matches Some(c)
                        ==> self@.connectors[d].spec_fits(&c)),
            decreases 4 - i,
        {
            match connectors_around[i] {
                Some(conn) => {
                    if !self.get_connector(i).fits(&conn) {
                        return false;
                    }
                },
                None => {},
            }
            i += 1;
        }
        true
    }
}

/// A piece is what its view shows: two pieces with the same view are the same.
pub proof fn lemma_view_determines_piece(a: Piece, b: Piece)
    requires
        a@ == b@,
    ensures
        a == b,
{
    assert(a.connectors =~= b.connectors);
}

/// Turning a piece over twice gives back the piece as it was: connectors, flip
/// mark and everything else.
pub proof fn lemma_flip_involutive(p: PieceView)
    requires
        p.wf(),
    ensures
        p.flip().flip() == p,
        p.flip().wf(),
{
    assert(p.flip().flip().connectors =~= p.connectors);
}

/// Four quarter-turns bring every connector back to its side; the turn count
/// has grown by four, so it is the same modulo four.
pub proof fn lemma_rotate_four(p: PieceView)
    requires
        p.wf(),
    ensures
        p.rotate().rotate().rotate().rotate().connectors == p.connectors,
        p.rotate().rotate().rotate().rotate().rotations == p.rotations + 4,
        p.rotate().rotate().rotate().rotate().rotations % 4 == p.rotations % 4,
        p.rotate().rotate().rotate().rotate() == (PieceView { rotations: p.rotations + 4, ..p }),
        p.rotate().wf(),
{
    assert(p.rotate().rotate().rotate().rotate().connectors =~= p.connectors);
}

/// Quarter-turns and turning over look at the connectors only: two pieces with
/// the same connectors have the same connectors afterwards.
pub proof fn lemma_same_connectors(a: PieceView, b: PieceView)
    requires
        a.connectors == b.connectors,
    ensures
        a.rotate().connectors == b.rotate().connectors,
        a.flip().connectors == b.flip().connectors,
{
}

/// One more quarter-turn is a quarter-turn of the piece turned so far.
pub proof fn lemma_rotate_n_next(p: PieceView, n: nat)
    ensures
        p.rotate_n(n + 1) == p.rotate_n(n).rotate(),
        p.rotate_n(0) == p,
{
    reveal_with_fuel(PieceView::rotate_n, 2);
}

/// After four quarter-turns every connector is back on its side.
pub proof fn lemma_rotate_n_four(p: PieceView)
    requires
        p.wf(),
    ensures
        p.rotate_n(4).connectors == p.connectors,
{
    lemma_rotate_n_next(p, 0);
    lemma_rotate_n_next(p, 1);
    lemma_rotate_n_next(p, 2);
    lemma_rotate_n_next(p, 3);
    lemma_rotate_four(p);
}

/// The tries of the search for a fit keep the colour and the `used` mark; each
/// try but the first counts one more quarter-turn, and from the fifth try to
/// the eighth the piece lies turned over.
pub proof fn lemma_attempt_marks(p: PieceView, k: nat)
    requires
        p.wf(),
        k <= 8,
    ensures
        p.attempt(k).wf(),
        p.attempt(k) == (PieceView {
            connectors: p.attempt(k).connectors,
            rotations: p.rotations + k,
            flipped: p.flipped != (4 <= k < 8),
            ..p
        }),
    decreases k,
{
    if k > 0 {
        lemma_attempt_marks(p, (k - 1) as nat);
    }
}

/// The tries of the search for a fit go through the eight orientations: four
/// quarter-turns of the piece as it lay, then four of the piece turned over.
pub proof fn lemma_attempt_connectors(p: PieceView, k: nat)
    requires
        p.wf(),
        k < 8,
    ensures
        p.attempt(k).connectors == p.orientation(k % 4, k >= 4),
    decreases k,
{
    if k == 0 {
        lemma_rotate_n_next(p, 0);
    } else {
        let j = (k - 1) as nat;
        lemma_attempt_connectors(p, j);
        let before = p.attempt(j);
        if k == 4 {
            lemma_rotate_n_next(p, 3);
            lemma_same_connectors(before, p.rotate_n(3));
            lemma_rotate_n_four(p);
            lemma_same_connectors(before.rotate(), p);
            lemma_rotate_n_next(p.flip(), 0);
        } else {
            let base = if k > 4 {
                p.flip()
            } else {
                p
            };
            lemma_rotate_n_next(base, j % 4);
            lemma_same_connectors(before, base.rotate_n(j % 4));
        }
    }
}

/// After the eighth try the piece lies as before, with eight more quarter-turns
/// counted.
pub proof fn lemma_attempts_return(p: PieceView)
    requires
        p.wf(),
    ensures
        p.attempt(8) == p.with_turns_counted(8),
{
    lemma_attempt_marks(p, 8);
    lemma_attempt_connectors(p, 7);
    lemma_flip_involutive(p);
    let before = p.attempt(7);
    lemma_rotate_n_next(p.flip(), 3);
    lemma_same_connectors(before, p.flip().rotate_n(3));
    lemma_rotate_n_four(p.flip());
    lemma_same_connectors(before.rotate(), p.flip());
}

/// The first fitting try, where there is one, is a try at which the piece
/// fits, and no earlier try from `k` on fits; where there is none, no try from
/// `k` on fits.
pub proof fn lemma_first_fit_from(p: PieceView, around: Seq<Option<Connector>>, k: nat)
    requires
        k <= 8,
    ensures
        k <= p.first_fit_from(around, k) <= 8,
        p.first_fit_from(around, k) < 8 ==> p.attempt(p.first_fit_from(around, k)).fits(around),
        forall|j: nat| k <= j < p.first_fit_from(around, k) ==> !p.attempt(j).fits(around),
    decreases 8 - k,
{
    if k < 8 && !p.attempt(k).fits(around) {
        lemma_first_fit_from(p, around, k + 1);
    }
}

/// A piece can be made to fit exactly when one of its eight orientations meets
/// the constraints on all four sides. The search then leaves it in such an
/// orientation; otherwise it leaves the piece as it lay, with eight more
/// quarter-turns counted. Colour and `used` mark stay as they were.
pub proof fn lemma_can_fit(p: PieceView, around: Seq<Option<Connector>>)
    requires
        p.wf(),
    ensures
        p.can_fit(around) <==> exists|turns: nat, flipped: bool|
            turns < 4 && (PieceView {
                connectors: #[trigger] p.orientation(turns, flipped),
                ..p
            }).fits(around),
        p.settle(around).wf(),
        p.settle(around).color == p.color,
        p.settle(around).used == p.used,
        p.can_fit(around) ==> p.settle(around).fits(around),
        !p.can_fit(around) ==> p.settle(around) == p.with_turns_counted(8),
{
    lemma_first_fit_from(p, around, 0);
    let k = p.first_fit(around);
    lemma_attempt_marks(p, k);
    lemma_attempts_return(p);
    if k < 8 {
        // the first fitting try shows one of the eight orientations
        lemma_attempt_connectors(p, k);
        assert((PieceView { connectors: p.orientation(k % 4, k >= 4), ..p }).fits(around));
    } else {
        assert forall|turns: nat, flipped: bool| turns < 4 implies !(PieceView {
            connectors: #[trigger] p.orientation(turns, flipped),
            ..p
        }).fits(around) by {
            // the orientation was tried, as one of the eight tries
            let j: nat = if flipped {
                turns + 4
            } else {
                turns
            };
            lemma_attempt_connectors(p, j);
        }
    }
}

} // verus!
