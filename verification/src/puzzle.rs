//! The board, the puzzle (a board with its pool of pieces) and its builder.

use crate::piece::{
    Color, Connector, ConnectorGender, ConnectorOffset, ConnectorType, Direction,
    OptionalConnectors, Piece, PieceView,
};
use vstd::prelude::*;

verus! {

/// Which pieces of a pool take part in a puzzle.
#[derive(Clone, Copy, Debug, PartialEq, Eq, Structural)]
pub enum PieceSet {
    Yellow,
    Green,
    Both,
}

impl PieceSet {
    /// Whether a piece of colour `color` belongs to the set.
    pub open spec fn spec_admits(&self, color: Color) -> bool {
        match self {
            PieceSet::Yellow => color == Color::Yellow,
            PieceSet::Green => color == Color::Green,
            PieceSet::Both => true,
        }
    }

    /// Whether a piece of colour `color` belongs to the set.
    #[verifier::when_used_as_spec(spec_admits)]
    pub fn admits(&self, color: Color) -> (r: bool)
        ensures
            r == self.spec_admits(color),
    {
        match self {
            PieceSet::Yellow => color == Color::Yellow,
            PieceSet::Green => color == Color::Green,
            PieceSet::Both => true,
        }
    }
}

impl PieceSet {
    /// The pieces of `pieces` that belong to the set, in their order.
    pub open spec fn select(&self, pieces: Seq<Piece>) -> Seq<Piece> {
        pieces.filter(|p: Piece| self.spec_admits(p.color))
    }
}

/// The set of both colours selects every piece; any set selects pieces of its
/// colours only, and every piece of the pool that has one of them.
pub proof fn lemma_select(set: PieceSet, pieces: Seq<Piece>)
    ensures
        set == PieceSet::Both ==> set.select(pieces) == pieces,
        set.select(pieces).len() <= pieces.len(),
        forall|i: int|
            0 <= i < set.select(pieces).len() ==> set.spec_admits(
                (#[trigger] set.select(pieces)[i]).color,
            ),
        forall|i: int|
            0 <= i < pieces.len() && set.spec_admits(pieces[i].color) ==> set.select(
                pieces,
            ).contains(#[trigger] pieces[i]),
    decreases pieces.len(),
{
    let chosen = |p: Piece| set.spec_admits(p.color);
    reveal(Seq::filter);
    if pieces.len() > 0 {
        let front = pieces.drop_last();
        lemma_select(set, front);
        let selected = front.filter(chosen);
        assert forall|i: int| 0 <= i < pieces.len() && set.spec_admits(
            pieces[i].color,
        ) implies set.select(pieces).contains(#[trigger] pieces[i]) by {
            if i < front.len() {
                // the piece was selected from the front, at some place `j`
                let j = choose|j: int| 0 <= j < selected.len() && selected[j] == front[i];
                assert(set.select(pieces)[j] == pieces[i]);
            }
        }
    }
}

/// For a pool that holds the yellow pieces first and the green ones behind
/// them: how many pieces of the pool belong to `piece_set`, and where in the
/// pool the first of them lies.
pub fn get_piece_set_info(piece_set: &PieceSet) -> (r: (usize, usize))
    ensures
        r == (match piece_set {
            PieceSet::Yellow => (9usize, 0usize),
            PieceSet::Green => (16usize, 9usize),
            PieceSet::Both => (25usize, 0usize),
        }),
{
    match piece_set {
        PieceSet::Yellow => (9, 0),
        PieceSet::Green => (16, 9),
        PieceSet::Both => (25, 0),
    }
}

/// Width and height of a board, in cells.
#[derive(Clone, Copy, Debug, PartialEq, Eq, Structural)]
pub struct Dimensions {
    pub width: usize,
    pub height: usize,
}

impl Dimensions {
    pub fn new(width: usize, height: usize) -> (r: Dimensions)
        ensures
            r.width == width,
            r.height == height,
    {
        Self { width, height }
    }
}

/// One cell of the board: empty, or holding the identifier of a piece.
///
/// Identifier 0 is a piece like any other, so emptiness is a mark of its own
/// and is never read off the identifier.
#[derive(Clone, Copy, Debug)]
pub struct Square {
    empty: bool,
    piece_id: usize,
}

impl View for Square {
    type V = Option<nat>;

    closed spec fn view(&self) -> Option<nat> {
        if self.empty {
            None
        } else {
            Some(self.piece_id as nat)
        }
    }
}

impl Square {
    /// An empty square carries identifier 0.
    #[verifier::type_invariant]
    spec fn inv(&self) -> bool {
        self.empty ==> self.piece_id == 0
    }

    pub(crate) fn empty() -> (r: Square)
        ensures
            r@ is None,
    {
        Self { empty: true, piece_id: 0 }
    }

    pub(crate) fn holding(piece_id: usize) -> (r: Square)
        ensures
            r@ == Some(piece_id as nat),
    {
        Self { empty: false, piece_id }
    }

    pub fn is_empty(&self) -> (r: bool)
        ensures
            r == (self@ is None),
    {
        self.empty
    }

    /// The identifier of the piece on the square; 0 when the square is empty.
    pub fn piece_id(&self) -> (r: usize)
        ensures
            r == (match self@ {
                Some(id) => id,
                None => 0,
            }),
    {
        proof {
            use_type_invariant(self);
        }
        self.piece_id
    }
}

/// A board as a mathematical value: its cells in row-major order, each empty or
/// holding a piece identifier.
pub struct BoardView {
    pub width: nat,
    pub height: nat,
    pub cells: Seq<Option<nat>>,
}

impl BoardView {
    /// Number of cells.
    pub open spec fn size(self) -> nat {
        self.width * self.height
    }

    /// There is one cell per grid position.
    pub open spec fn wf(self) -> bool {
        self.cells.len() == self.size()
    }

    /// The board of the given size without any piece.
    pub open spec fn empty(width: nat, height: nat) -> BoardView {
        BoardView { width, height, cells: Seq::new(width * height, |i: int| None) }
    }

    /// Whether no cell holds a piece.
    pub open spec fn is_empty(self) -> bool {
        forall|p: int| 0 <= p < self.cells.len() ==> (#[trigger] self.cells[p]) is None
    }

    /// Whether `position` lies in the outermost row or column on the side
    /// `direction`.
    pub open spec fn on_edge(self, position: nat, direction: Direction) -> bool {
        match direction {
            Direction::Up => position < self.width,
            Direction::Down => position >= self.width * (self.height - 1),
            Direction::Left => position % self.width == 0,
            Direction::Right => position % self.width == self.width - 1,
        }
    }

    /// The position one cell away from `position` towards `direction`.
    pub open spec fn neighbor(self, position: nat, direction: Direction) -> int {
        match direction {
            Direction::Up => position as int - self.width,
            Direction::Down => position as int + self.width,
            Direction::Left => position as int - 1,
            Direction::Right => position as int + 1,
        }
    }

    /// What a query for the cell at `position` reports: the identifier (0 for
    /// an empty cell) and whether the cell is empty.
    pub open spec fn report(self, position: int) -> (usize, bool) {
        match self.cells[position] {
            Some(id) => (id as usize, false),
            None => (0, true),
        }
    }

    /// The board with piece `piece_id` at `position`.
    pub open spec fn place(self, position: nat, piece_id: nat) -> BoardView {
        BoardView { cells: self.cells.update(position as int, Some(piece_id)), ..self }
    }

    /// The board with the cell at `position` emptied.
    pub open spec fn clear(self, position: nat) -> BoardView {
        BoardView { cells: self.cells.update(position as int, None), ..self }
    }
}

/// A cell that is not on the edge towards `direction` has its neighbour in that
/// direction on the board.
pub proof fn lemma_neighbor_on_board(board: BoardView, position: nat, direction: Direction)
    requires
        board.wf(),
        position < board.size(),
        !board.on_edge(position, direction),
    ensures
        0 <= board.neighbor(position, direction) < board.size(),
{
    let w = board.width as int;
    let h = board.height as int;
    let p = position as int;
    assert(w > 0 && h > 0) by (nonlinear_arith)
        requires
            0 <= p < w * h,
            0 <= w,
            0 <= h,
    ;
    match direction {
        Direction::Up => {},
        Direction::Down => {
            assert(w * (h - 1) + w == w * h) by (nonlinear_arith);
        },
        Direction::Left => {
            assert(0int % w == 0) by {
                vstd::arithmetic::div_mod::lemma_small_mod(0, w as nat);
            }
        },
        Direction::Right => {
            let q = p / w;
            let r = p % w;
            assert(p == w * q + r && 0 <= r < w) by {
                vstd::arithmetic::div_mod::lemma_fundamental_div_mod(p, w);
                vstd::arithmetic::div_mod::lemma_mod_bound(p, w);
            }
            assert(q < h) by (nonlinear_arith)
                requires
                    p == w * q + r,
                    0 <= r,
                    0 < w,
                    p < w * h,
            ;
            assert(p + 1 < w * h) by (nonlinear_arith)
                requires
                    p == w * q + r,
                    r + 1 < w,
                    q + 1 <= h,
                    0 < w,
            ;
        },
    }
}

/// Stepping to a neighbour and back: the neighbour of a cell towards
/// `direction` is another cell, it is not on the edge facing back, and its
/// neighbour in the facing direction is the cell itself.
pub proof fn lemma_neighbor_back(board: BoardView, position: nat, direction: Direction)
    requires
        board.wf(),
        position < board.size(),
        !board.on_edge(position, direction),
    ensures
        0 <= board.neighbor(position, direction) < board.size(),
        board.neighbor(position, direction) != position,
        !board.on_edge(board.neighbor(position, direction) as nat, direction.spec_opposite()),
        board.neighbor(board.neighbor(position, direction) as nat, direction.spec_opposite())
            == position,
{
    lemma_neighbor_on_board(board, position, direction);
    let w = board.width as int;
    let h = board.height as int;
    let p = position as int;
    assert(w > 0 && h > 0) by (nonlinear_arith)
        requires
            0 <= p < w * h,
            0 <= w,
            0 <= h,
    ;
    let q = p / w;
    let r = p % w;
    assert(p == w * q + r && 0 <= r < w) by {
        vstd::arithmetic::div_mod::lemma_fundamental_div_mod(p, w);
        vstd::arithmetic::div_mod::lemma_mod_bound(p, w);
    }
    match direction {
        Direction::Up => {
            assert(w * (h - 1) + w == w * h) by (nonlinear_arith);
        },
        Direction::Down => {},
        Direction::Left => {
            assert(0int % w == 0) by {
                vstd::arithmetic::div_mod::lemma_small_mod(0, w as nat);
            }
            assert((p - 1) % w == r - 1) by {
                vstd::arithmetic::div_mod::lemma_fundamental_div_mod_converse(p - 1, w, q, r - 1);
            }
        },
        Direction::Right => {
            assert((p + 1) % w == r + 1) by {
                vstd::arithmetic::div_mod::lemma_fundamental_div_mod_converse(p + 1, w, q, r + 1);
            }
        },
    }
}

/// A grid of squares, stored row by row.
#[derive(Debug)]
pub struct Board {
    pub squares: Vec<Square>,
    pub dimensions: Dimensions,
}

impl View for Board {
    type V = BoardView;

    open spec fn view(&self) -> BoardView {
        BoardView {
            width: self.dimensions.width as nat,
            height: self.dimensions.height as nat,
            cells: Seq::new(self.squares@.len(), |i: int| self.squares@[i]@),
        }
    }
}

impl Board {
    /// The board has one square per grid position.
    pub open spec fn wf(&self) -> bool {
        self@.wf()
    }

    /// An empty board of the given dimensions.
    pub fn new(dimensions: Dimensions) -> (r: Board)
        requires
            dimensions.width * dimensions.height <= usize::MAX,
        ensures
            r.wf(),
            r.dimensions == dimensions,
            r@ == BoardView::empty(dimensions.width as nat, dimensions.height as nat),
            r@.is_empty(),
    {
        let size: usize = dimensions.width * dimensions.height;
        let mut squares: Vec<Square> = Vec::new();
        while squares.len() < size
            invariant
                squares.len() <= size,
                forall|i: int| 0 <= i < squares.len() ==> (#[trigger] squares@[i])@ is None,
            decreases size - squares.len(),
        {
            squares.push(Square::empty());
        }
        let r = Self { squares, dimensions };
        assert(r@.cells =~= BoardView::empty(
            dimensions.width as nat,
            dimensions.height as nat,
        ).cells);
        r
    }

    /// Number of cells.
    pub fn get_size(&self) -> (r: usize)
        requires
            self.wf(),
        ensures
            r == self@.size(),
    {
        assert(self@.cells.len() == self.squares.len());
        self.dimensions.width * self.dimensions.height
    }

    /// The identifier on the cell at `position` (0 for an empty cell) and
    /// whether the cell is empty.
    pub fn get_piece(&self, position: usize) -> (r: (usize, bool))
        requires
            position < self@.cells.len(),
        ensures
            r == self@.report(position as int),
            r.1 == (self@.cells[position as int] is None),
    {
        let square = self.squares[position];
        (square.piece_id(), square.is_empty())
    }

    /// What `get_piece` reports of the cell next to `position` towards
    /// `direction`, counted along the row-major order.
    pub fn get_piece_towards(&self, position: usize, direction: Direction) -> (r: (usize, bool))
        requires
            0 <= self@.neighbor(position as nat, direction) < self@.cells.len(),
        ensures
            r == self@.report(self@.neighbor(position as nat, direction)),
    {
        assert(self@.cells.len() == self.squares.len());
        let pos: usize = match direction {
            Direction::Up => position - self.dimensions.width,
            Direction::Down => position + self.dimensions.width,
            Direction::Left => position - 1,
            Direction::Right => position + 1,
        };
        self.get_piece(pos)
    }

    /// Puts piece `piece_id` on the cell at `position`.
    pub fn add_piece(&mut self, position: usize, piece_id: usize)
        requires
            position < old(self)@.cells.len(),
        ensures
            final(self)@ == old(self)@.place(position as nat, piece_id as nat),
            final(self).dimensions == old(self).dimensions,
            old(self).wf() ==> final(self).wf(),
    {
        self.squares[position] = Square::holding(piece_id);
        assert(self@.cells =~= old(self)@.place(position as nat, piece_id as nat).cells);
    }

    /// Empties the cell at `position`.
    pub fn remove_piece(&mut self, position: usize)
        requires
            position < old(self)@.cells.len(),
        ensures
            final(self)@ == old(self)@.clear(position as nat),
            final(self).dimensions == old(self).dimensions,
            old(self).wf() ==> final(self).wf(),
    {
        self.squares[position] = Square::empty();
        assert(self@.cells =~= old(self)@.clear(position as nat).cells);
    }

    /// A copy of the squares, row by row.
    pub fn get_squares(&self) -> (r: Vec<Square>)
        ensures
            r@.len() == self@.cells.len(),
            forall|i: int| 0 <= i < r@.len() ==> (#[trigger] r@[i])@ == self@.cells[i],
    {
        let mut r: Vec<Square> = Vec::new();
        let mut i: usize = 0;
        while i < self.squares.len()
            invariant
                i <= self.squares.len(),
                r@.len() == i,
                forall|j: int| 0 <= j < i ==> (#[trigger] r@[j])@ == self.squares@[j]@,
            decreases self.squares.len() - i,
        {
            r.push(self.squares[i]);
            i += 1;
        }
        r
    }

    /// Whether `position` lies in the outermost row or column on the side
    /// `direction`.
    pub fn is_on_edge(&self, position: usize, direction: Direction) -> (r: bool)
        requires
            self.wf(),
            self.dimensions.width > 0,
            self.dimensions.height > 0,
        ensures
            r == self@.on_edge(position as nat, direction),
    {
        let width: usize = self.dimensions.width;
        let height: usize = self.dimensions.height;
        assert(self@.cells.len() == self.squares.len());
        assert(width * (height - 1) <= width * height) by (nonlinear_arith)
            requires
                height > 0,
        ;
        match direction {
            Direction::Up => position < width,
            Direction::Down => position >= width * (height - 1),
            Direction::Left => position % width == 0,
            Direction::Right => position % width == width - 1,
        }
    }
}

/// A puzzle as a mathematical value: the pool of pieces, and the board whose
/// cells name pieces by their place in the pool.
pub struct PuzzleView {
    pub pieces: Seq<PieceView>,
    pub board: BoardView,
}

impl PuzzleView {
    /// The board has one cell per grid position, and every identifier on it
    /// names a piece of the pool.
    pub open spec fn wf(self) -> bool {
        &&& self.board.wf()
        &&& forall|i: int| 0 <= i < self.pieces.len() ==> (#[trigger] self.pieces[i]).wf()
        &&& forall|p: int|
            0 <= p < self.board.cells.len() ==> (#[trigger] self.board.cells[p] matches Some(id)
                ==> id < self.pieces.len())
    }

    /// The connector that the side `direction` of a piece placed at `position`
    /// has to fit: the straight edge at the rim of the board; else, where the
    /// neighbouring cell holds a piece, the connector which that piece turns
    /// towards `position`; none where the neighbouring cell is empty.
    pub open spec fn constraint(self, position: nat, direction: Direction) -> Option<Connector> {
        if self.board.on_edge(position, direction) {
            Some(Connector::spec_flat())
        } else {
            let back = direction.spec_opposite().spec_index() as int;
            match self.board.cells[self.board.neighbor(position, direction)] {
                Some(id) => Some(self.pieces[id as int].connectors[back]),
                None => None,
            }
        }
    }

    /// The constraints on all four sides of `position`, by direction.
    pub open spec fn around(self, position: nat) -> Seq<Option<Connector>> {
        seq![
            self.constraint(position, Direction::Left),
            self.constraint(position, Direction::Up),
            self.constraint(position, Direction::Right),
            self.constraint(position, Direction::Down),
        ]
    }
}

/// A board with a cell has at least one row and one column.
pub proof fn lemma_board_with_cell(board: BoardView, position: nat)
    requires
        position < board.size(),
    ensures
        board.width > 0,
        board.height > 0,
{
    assert(board.width > 0 && board.height > 0) by (nonlinear_arith)
        requires
            position < board.width * board.height,
    ;
}

/// At the rim of the board the constraint is a straight edge, whatever lies on
/// the board.
pub proof fn lemma_rim_is_flat(puzzle: PuzzleView, position: nat, direction: Direction)
    requires
        puzzle.board.on_edge(position, direction),
    ensures
        puzzle.constraint(position, direction) == Some(Connector::spec_flat()),
        puzzle.around(position)[direction.spec_index() as int] == Some(Connector::spec_flat()),
{
}

/// A pool of pieces and a board.
#[derive(Debug)]
pub struct Puzzle {
    pub pieces: Vec<Piece>,
    pub board: Board,
}

impl View for Puzzle {
    type V = PuzzleView;

    open spec fn view(&self) -> PuzzleView {
        PuzzleView { pieces: self.pieces@.map_values(|p: Piece| p@), board: self.board@ }
    }
}

impl Puzzle {
    /// A puzzle with an empty board of the given dimensions and no pieces yet.
    pub fn new(dimensions: Dimensions) -> (r: Puzzle)
        requires
            dimensions.width * dimensions.height <= usize::MAX,
        ensures
            r@.wf(),
            r.pieces@.len() == 0,
            r.board.dimensions == dimensions,
            r@.board == BoardView::empty(dimensions.width as nat, dimensions.height as nat),
            r@.board.is_empty(),
    {
        Self { pieces: Vec::new(), board: Board::new(dimensions) }
    }

    /// What the four sides of a piece placed at `position` have to fit: the
    /// straight edge where the board ends, the facing connector of a
    /// neighbouring piece, and nothing where the neighbouring cell is empty.
    pub fn get_connectors_around(&self, position: usize) -> (r: OptionalConnectors)
        requires
            self@.wf(),
            position < self@.board.size(),
        ensures
            r@ == self@.around(position as nat),
            forall|d: Direction|
                self@.board.on_edge(position as nat, d) ==> r@[#[trigger] d.spec_index() as int]
                    == Some(Connector::spec_flat()),
    {
        let mut connectors: OptionalConnectors = [None;4];

        self.get_connector_in_direction(&mut connectors, position, Direction::Left);
        self.get_connector_in_direction(&mut connectors, position, Direction::Up);
        self.get_connector_in_direction(&mut connectors, position, Direction::Right);
        self.get_connector_in_direction(&mut connectors, position, Direction::Down);

        connectors
    }

    /// Writes the constraint on the side `direction` of `position` into its
    /// slot of `connectors`; leaves the slot as it is where there is none.
    fn get_connector_in_direction(
        &self,
        connectors: &mut OptionalConnectors,
        position: usize,
        direction: Direction,
    )
        requires
            self@.wf(),
            position < self@.board.size(),
        ensures
            final(connectors)@ == (match self@.constraint(position as nat, direction) {
                Some(c) => old(connectors)@.update(direction.spec_index() as int, Some(c)),
                None => old(connectors)@,
            }),
    {
        proof {
            lemma_board_with_cell(self@.board, position as nat);
        }
        if self.board.is_on_edge(position, direction) {
            // the outside edges must always be flat
            connectors[direction.index()] = Some(Connector::flat());
        } else {
            proof {
                lemma_neighbor_on_board(self@.board, position as nat, direction);
            }
            let (piece_id, empty) = self.board.get_piece_towards(position, direction);
            if !empty {
                connectors[direction.index()] = Some(
                    self.pieces[piece_id].get_connector(direction.opposite().index()),
                );
            }
        }
    }
}

/// What a builder has been told so far.
pub struct PuzzleBuilderView {
    pub pieces: Option<Seq<Piece>>,
    pub dimensions: Option<Dimensions>,
    pub piece_set: Option<PieceSet>,
}

impl PuzzleBuilderView {
    /// Whether a puzzle can be built: the dimensions are set and the board has
    /// a number of cells that fits a machine word, and with a pool of pieces
    /// comes a piece set.
    pub open spec fn ready(self) -> bool {
        &&& self.dimensions matches Some(d) && d.width * d.height <= usize::MAX
        &&& self.pieces is Some ==> self.piece_set is Some
    }

    /// The pieces that a puzzle is built with: those of the pool that belong
    /// to the piece set; none without a pool.
    pub open spec fn chosen(self) -> Seq<Piece> {
        match self.pieces {
            Some(pieces) => self.piece_set->0.select(pieces),
            None => Seq::empty(),
        }
    }
}

/// Collects the dimensions, the pool of pieces and the piece set, and builds
/// the puzzle from them.
pub struct PuzzleBuilder {
    pieces: Option<Vec<Piece>>,
    dimensions: Option<Dimensions>,
    piece_set: Option<PieceSet>,
}

/// The four pieces of a small sample pool: yellow pieces with two straight
/// edges side by side.
pub open spec fn yellow_corner_pieces() -> Seq<Piece> {
    let flat = Connector::spec_flat();
    let female_small_left = Connector {
        gender: ConnectorGender::Female,
        ctype: ConnectorType::Small,
        offset: ConnectorOffset::Left,
    };
    let male_large_right = Connector {
        gender: ConnectorGender::Male,
        ctype: ConnectorType::Large,
        offset: ConnectorOffset::Right,
    };
    let male_small_right = Connector {
        gender: ConnectorGender::Male,
        ctype: ConnectorType::Small,
        offset: ConnectorOffset::Right,
    };
    let female_large_left = Connector {
        gender: ConnectorGender::Female,
        ctype: ConnectorType::Large,
        offset: ConnectorOffset::Left,
    };
    seq![
        Piece::spec_new([flat, flat, female_small_left, male_large_right], Color::Yellow),
        Piece::spec_new([flat, flat, female_small_left, male_small_right], Color::Yellow),
        Piece::spec_new([flat, flat, female_large_left, male_small_right], Color::Yellow),
        Piece::spec_new([flat, flat, male_small_right, female_small_left], Color::Yellow),
    ]
}

impl View for PuzzleBuilder {
    type V = PuzzleBuilderView;

    closed spec fn view(&self) -> PuzzleBuilderView {
        PuzzleBuilderView {
            pieces: match self.pieces {
                Some(pieces) => Some(pieces@),
                None => None,
            },
            dimensions: self.dimensions,
            piece_set: self.piece_set,
        }
    }
}

impl PuzzleBuilder {
    /// A builder that has been told nothing yet.
    pub fn new() -> (r: PuzzleBuilder)
        ensures
            r@ == (PuzzleBuilderView { pieces: None, dimensions: None, piece_set: None }),
    {
        Self { pieces: None, dimensions: None, piece_set: None }
    }

    /// Sets the dimensions of the board.
    pub fn with_dimensions(&mut self, dimensions: Dimensions) -> (r: &mut Self)
        ensures
            r@ == (PuzzleBuilderView { dimensions: Some(dimensions), ..old(self)@ }),
            *final(self) == *final(r),
    {
        self.dimensions = Some(dimensions);
        self
    }

    /// Sets the piece set by which the pool is filtered.
    pub fn with_piece_set(&mut self, piece_set: PieceSet) -> (r: &mut Self)
        ensures
            r@ == (PuzzleBuilderView { piece_set: Some(piece_set), ..old(self)@ }),
            *final(self) == *final(r),
    {
        self.piece_set = Some(piece_set);
        self
    }

    /// Sets the pool of pieces.
    pub fn with_pieces(&mut self, pieces: Vec<Piece>) -> (r: &mut Self)
        ensures
            r@ == (PuzzleBuilderView { pieces: Some(pieces@), ..old(self)@ }),
            *final(self) == *final(r),
    {
        self.pieces = Some(pieces);
        self
    }

    /// Sets the pool of pieces to the four yellow corner pieces.
    pub fn with_yellow_corner_pieces(&mut self) -> (r: &mut Self)
        ensures
            r@ == (PuzzleBuilderView { pieces: Some(yellow_corner_pieces()), ..old(self)@ }),
            *final(self) == *final(r),
    {
        let mut pieces = Vec::new();

        let flat = Connector::flat();

        let female_small_left = Connector::new(
            ConnectorGender::Female,
            ConnectorType::Small,
            ConnectorOffset::Left,
        );
        let male_large_right = Connector::new(
            ConnectorGender::Male,
            ConnectorType::Large,
            ConnectorOffset::Right,
        );
        let connectors = [flat, flat, female_small_left, male_large_right];
        pieces.push(Piece::new(connectors, Color::Yellow));

        let male_small_right = Connector::new(
            ConnectorGender::Male,
            ConnectorType::Small,
            ConnectorOffset::Right,
        );
        let connectors = [flat, flat, female_small_left, male_small_right];
        pieces.push(Piece::new(connectors, Color::Yellow));

        let female_large_left = Connector::new(
            ConnectorGender::Female,
            ConnectorType::Large,
            ConnectorOffset::Left,
        );
        let connectors = [flat, flat, female_large_left, male_small_right];
        pieces.push(Piece::new(connectors, Color::Yellow));

        let connectors = [flat, flat, male_small_right, female_small_left];
        pieces.push(Piece::new(connectors, Color::Yellow));

        assert(pieces@ =~= yellow_corner_pieces());
        self.pieces = Some(pieces);

        self
    }

    /// Builds the puzzle: an empty board of the dimensions set, and the pieces
    /// of the pool that belong to the piece set. The builder stays as it is.
    pub fn build(&mut self) -> (r: Puzzle)
        requires
            old(self)@.ready(),
        ensures
            final(self)@ == old(self)@,
            r.board.dimensions == old(self)@.dimensions->0,
            r@.board == BoardView::empty(
                r.board.dimensions.width as nat,
                r.board.dimensions.height as nat,
            ),
            r@.board.is_empty(),
            r@.wf(),
            r.pieces@ == old(self)@.chosen(),
    {
        let dimensions = match &self.dimensions {
            Some(d) => *d,
            None => Dimensions::new(0, 0),
        };
        let mut puzzle = Puzzle::new(dimensions);

        match (&self.pieces, &self.piece_set) {
            (Some(pool), Some(piece_set)) => {
                let ghost chosen = |p: Piece| piece_set.spec_admits(p.color);
                let mut pieces: Vec<Piece> = Vec::new();
                let mut i: usize = 0;
                assert(pool@.take(0).filter(chosen) =~= Seq::<Piece>::empty()) by {
                    reveal(Seq::filter);
                }
                while i < pool.len()
                    invariant
                        i <= pool.len(),
                        chosen == |p: Piece| piece_set.spec_admits(p.color),
                        pieces@ == pool@.take(i as int).filter(chosen),
                    decreases pool.len() - i,
                {
                    let piece = pool[i];
                    proof {
                        reveal(Seq::filter);
                        assert(pool@.take(i + 1).drop_last() =~= pool@.take(i as int));
                    }
                    if piece_set.admits(piece.color) {
                        pieces.push(piece);
                    }
                    i += 1;
                }
                assert(pool@.take(pool.len() as int) =~= pool@);
                puzzle.pieces = pieces;
            },
            _ => {},
        }

        proof {
            lemma_pool_wf(&puzzle);
        }
        puzzle
    }
}

/// Every piece of a pool has its four connectors.
pub proof fn lemma_pool_wf(puzzle: &Puzzle)
    ensures
        forall|i: int| 0 <= i < puzzle@.pieces.len() ==> (#[trigger] puzzle@.pieces[i]).wf(),
{
}

} // verus!
