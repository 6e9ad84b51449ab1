use puzzhagoras_solver::piece::{
    Color, Connector, ConnectorGender, ConnectorOffset, ConnectorType, Direction, Piece,
};
use puzzhagoras_solver::puzzle::{Dimensions, PieceSet, Puzzle, PuzzleBuilder};
use puzzhagoras_solver::solver::{PuzzleState, Solver};

const DIRECTIONS: [Direction; 4] =
    [Direction::Left, Direction::Up, Direction::Right, Direction::Down];

fn con(gender: ConnectorGender, ctype: ConnectorType, offset: ConnectorOffset) -> Connector {
    Connector::new(gender, ctype, offset)
}

fn flat() -> Connector {
    Connector::flat()
}

fn msl() -> Connector {
    con(ConnectorGender::Male, ConnectorType::Small, ConnectorOffset::Left)
}

fn msr() -> Connector {
    con(ConnectorGender::Male, ConnectorType::Small, ConnectorOffset::Right)
}

fn mll() -> Connector {
    con(ConnectorGender::Male, ConnectorType::Large, ConnectorOffset::Left)
}

fn mlr() -> Connector {
    con(ConnectorGender::Male, ConnectorType::Large, ConnectorOffset::Right)
}

fn fsl() -> Connector {
    con(ConnectorGender::Female, ConnectorType::Small, ConnectorOffset::Left)
}

fn fsr() -> Connector {
    con(ConnectorGender::Female, ConnectorType::Small, ConnectorOffset::Right)
}

fn fll() -> Connector {
    con(ConnectorGender::Female, ConnectorType::Large, ConnectorOffset::Left)
}

fn flr() -> Connector {
    con(ConnectorGender::Female, ConnectorType::Large, ConnectorOffset::Right)
}

/// The four corners of a 2 x 2 puzzle, as they lie in its solution:
///
///   top left:     right msl, down mll      top right:    left fsr, down msr
///   bottom left:  up flr, right mlr        bottom right: left fll, up fsl
fn top_left() -> Piece {
    Piece::new([flat(), flat(), msl(), mll()], Color::Yellow)
}

fn top_right() -> Piece {
    Piece::new([fsr(), flat(), flat(), msr()], Color::Yellow)
}

fn bottom_left() -> Piece {
    Piece::new([flat(), flr(), mlr(), flat()], Color::Yellow)
}

fn bottom_right() -> Piece {
    Piece::new([fll(), fsl(), flat(), flat()], Color::Yellow)
}

fn connectors_of(piece: &Piece) -> [Connector; 4] {
    [
        piece.get_connector(0),
        piece.get_connector(1),
        piece.get_connector(2),
        piece.get_connector(3),
    ]
}

fn solver_for(width: usize, height: usize, pieces: Vec<Piece>, set: PieceSet) -> Solver {
    let puzzle: Puzzle = PuzzleBuilder::new()
        .with_dimensions(Dimensions::new(width, height))
        .with_pieces(pieces)
        .with_piece_set(set)
        .build();
    Solver::new(puzzle)
}

/// The board as a list of cells: `None` for an empty one.
fn cells(solver: &Solver) -> Vec<Option<usize>> {
    solver
        .get_board_squares()
        .iter()
        .map(|s| if s.is_empty() { None } else { Some(s.piece_id()) })
        .collect()
}

/// Steps until the search is over; gives the states of all steps.
fn run(solver: &mut Solver, limit: usize) -> Vec<PuzzleState> {
    let mut states = Vec::new();
    loop {
        assert!(solver.can_step(), "a search that is not over can make a step");
        let state = solver.step();
        states.push(state);
        if state == PuzzleState::Solved || state == PuzzleState::Unsolvable {
            return states;
        }
        assert!(states.len() < limit, "no end after {} steps", limit);
    }
}

/// Checks a filled board against the rules, without the library's help.
fn assert_solution(solver: &Solver, width: usize, height: usize, pool: usize) {
    let board = cells(solver);
    assert_eq!(board.len(), width * height);
    let mut seen = vec![false; pool];
    for cell in &board {
        let id = cell.expect("no cell is empty");
        assert!(id < pool);
        assert!(!seen[id], "piece {} lies on two cells", id);
        seen[id] = true;
        assert!(solver.get_piece(id).used);
    }
    for row in 0..height {
        for col in 0..width {
            let here = solver.get_piece(board[row * width + col].unwrap());
            let c = connectors_of(&here);
            if col == 0 {
                assert_eq!(c[0].gender, ConnectorGender::Flat);
            }
            if row == 0 {
                assert_eq!(c[1].gender, ConnectorGender::Flat);
            }
            if col + 1 == width {
                assert_eq!(c[2].gender, ConnectorGender::Flat);
            } else {
                let right = solver.get_piece(board[row * width + col + 1].unwrap());
                assert!(c[2].fits(&right.get_connector(0)));
                assert!(right.get_connector(0).fits(&c[2]));
            }
            if row + 1 == height {
                assert_eq!(c[3].gender, ConnectorGender::Flat);
            } else {
                let below = solver.get_piece(board[(row + 1) * width + col].unwrap());
                assert!(c[3].fits(&below.get_connector(1)));
                assert!(below.get_connector(1).fits(&c[3]));
            }
        }
    }
}

/// The pieces of a solvable puzzle of the given size: the piece for row `r`
/// and column `c` has the identifier `r * width + c`, and lies as in the
/// solution.
fn grid_pieces(width: usize, height: usize) -> Vec<Piece> {
    let size = |n: usize| if n % 2 == 0 { ConnectorType::Small } else { ConnectorType::Large };
    let mut pieces = Vec::new();
    for row in 0..height {
        for col in 0..width {
            let left = if col == 0 {
                flat()
            } else {
                con(ConnectorGender::Female, size(row + col), ConnectorOffset::Right)
            };
            let right = if col + 1 == width {
                flat()
            } else {
                con(ConnectorGender::Male, size(row + col + 1), ConnectorOffset::Left)
            };
            let up = if row == 0 {
                flat()
            } else {
                con(ConnectorGender::Male, size(row * 3 + col), ConnectorOffset::Right)
            };
            let down = if row + 1 == height {
                flat()
            } else {
                con(ConnectorGender::Female, size((row + 1) * 3 + col), ConnectorOffset::Left)
            };
            pieces.push(Piece::new([left, up, right, down], Color::Green));
        }
    }
    pieces
}

#[test]
fn new_solver_shows_the_puzzle_untouched() {
    let pool = vec![top_left(), top_right(), bottom_left(), bottom_right()];
    let solver = solver_for(2, 2, pool.clone(), PieceSet::Both);
    assert_eq!(cells(&solver), vec![None, None, None, None]);
    for id in 0..4 {
        assert_eq!(solver.get_piece(id), pool[id]);
    }
    assert!(solver.can_step());
}

#[test]
fn four_corners_solve_in_four_steps_without_backtracking() {
    let pool = vec![top_left(), top_right(), bottom_left(), bottom_right()];
    let mut solver = solver_for(2, 2, pool.clone(), PieceSet::Both);

    assert_eq!(solver.step(), PuzzleState::Progressing);
    assert_eq!(cells(&solver), vec![Some(0), None, None, None]);
    assert_eq!(solver.step(), PuzzleState::Progressing);
    assert_eq!(cells(&solver), vec![Some(0), Some(1), None, None]);
    assert_eq!(solver.step(), PuzzleState::Progressing);
    assert_eq!(cells(&solver), vec![Some(0), Some(1), Some(2), None]);
    assert_eq!(solver.step(), PuzzleState::Solved);
    assert_eq!(cells(&solver), vec![Some(0), Some(1), Some(2), Some(3)]);

    for id in 0..4 {
        let piece = solver.get_piece(id);
        assert!(piece.used);
        assert!(!piece.flipped);
        assert_eq!(piece.rotations, 0);
        assert_eq!(connectors_of(&piece), connectors_of(&pool[id]));
    }
    assert_solution(&solver, 2, 2, 4);
    assert!(!solver.can_step());
}

#[test]
fn four_corners_are_turned_and_flipped_into_place() {
    // the second piece comes a quarter-turn too far, the fourth turned over
    let mut second = top_right();
    second.rotate();
    let second = Piece::new(connectors_of(&second), Color::Yellow);
    let mut fourth = bottom_right();
    fourth.flip();
    let fourth = Piece::new(connectors_of(&fourth), Color::Yellow);
    assert_eq!(connectors_of(&second), [msr(), fsr(), flat(), flat()]);
    assert_eq!(connectors_of(&fourth), [flat(), fsr(), flr(), flat()]);

    let pool = vec![top_left(), second, bottom_left(), fourth];
    let mut solver = solver_for(2, 2, pool, PieceSet::Both);
    let states = run(&mut solver, 100);
    assert_eq!(
        states,
        vec![
            PuzzleState::Progressing,
            PuzzleState::Progressing,
            PuzzleState::Progressing,
            PuzzleState::Solved
        ]
    );
    assert_eq!(cells(&solver), vec![Some(0), Some(1), Some(2), Some(3)]);

    // three more quarter-turns bring the second piece round
    let placed = solver.get_piece(1);
    assert_eq!(connectors_of(&placed), connectors_of(&top_right()));
    assert_eq!(placed.rotations, 3);
    assert!(!placed.flipped);
    assert!(placed.used);

    // the fourth fits in none of its four turns, and at once when turned over
    let placed = solver.get_piece(3);
    assert_eq!(connectors_of(&placed), connectors_of(&bottom_right()));
    assert_eq!(placed.rotations, 4);
    assert!(placed.flipped);
    assert!(placed.used);

    assert_solution(&solver, 2, 2, 4);
}

#[test]
fn rotations_are_tried_before_the_flip() {
    // a piece with four straight edges but one fits the single cell of a
    // 1 x 1 board in no orientation; one with four straight edges fits at once
    let odd = Piece::new([flat(), flat(), flat(), msl()], Color::Green);
    let plain = Piece::new([flat(), flat(), flat(), flat()], Color::Green);
    let mut solver = solver_for(1, 1, vec![odd, plain], PieceSet::Both);
    assert_eq!(solver.step(), PuzzleState::Solved);
    assert_eq!(cells(&solver), vec![Some(1)]);

    // the rejected piece went through all eight orientations and lies as before
    let rejected = solver.get_piece(0);
    assert_eq!(connectors_of(&rejected), connectors_of(&odd));
    assert_eq!(rejected.rotations, 8);
    assert!(!rejected.flipped);
    assert!(!rejected.used);

    let placed = solver.get_piece(1);
    assert_eq!(placed.rotations, 0);
    assert!(!placed.flipped);
    assert!(placed.used);
}

#[test]
fn first_fitting_orientation_is_kept() {
    // on a board of one row and two columns the first cell asks for straight
    // edges left, above and below; the piece fits after two quarter-turns
    let piece = Piece::new([msl(), flat(), flat(), flat()], Color::Green);
    let mut solver = solver_for(2, 1, vec![piece], PieceSet::Both);
    assert_eq!(solver.step(), PuzzleState::Progressing);
    let placed = solver.get_piece(0);
    assert_eq!(connectors_of(&placed), [flat(), flat(), msl(), flat()]);
    assert_eq!(placed.rotations, 2);
    assert!(!placed.flipped);
    assert!(placed.used);
}

#[test]
fn a_flipped_fit_is_found_after_the_four_turns() {
    // the second cell of a 2 x 1 board asks on its left for a connector that
    // fits msl: female, small, leaning right. The only piece left has one
    // leaning left, and fits turned over.
    let first = Piece::new([flat(), flat(), msl(), flat()], Color::Green);
    let second = Piece::new([fsl(), flat(), flat(), flat()], Color::Green);
    let mut solver = solver_for(2, 1, vec![first, second], PieceSet::Both);
    assert_eq!(solver.step(), PuzzleState::Progressing);
    assert_eq!(solver.step(), PuzzleState::Solved);
    let placed = solver.get_piece(1);
    // four quarter-turns, the flip, and two quarter-turns of the flipped piece
    assert_eq!(connectors_of(&placed), [fsr(), flat(), flat(), flat()]);
    assert_eq!(placed.rotations, 6);
    assert!(placed.flipped);
    assert_solution(&solver, 2, 1, 2);
}

#[test]
fn three_usable_pieces_cannot_fill_four_cells() {
    // the green piece is filtered out of the pool
    let mut green = top_right();
    green.color = Color::Green;
    let pool = vec![top_left(), green, bottom_left(), bottom_right()];
    let mut solver = solver_for(2, 2, pool, PieceSet::Yellow);

    let states = run(&mut solver, 10_000);
    assert_eq!(*states.last().unwrap(), PuzzleState::Unsolvable);
    assert!(!states.contains(&PuzzleState::Solved));
    // every step before the last placed a piece or stepped back
    for state in &states[..states.len() - 1] {
        assert!(*state == PuzzleState::Progressing || *state == PuzzleState::Backtrack);
    }
    assert_eq!(cells(&solver), vec![None, None, None, None]);
    for id in 0..3 {
        assert!(!solver.get_piece(id).used);
        assert_eq!(solver.get_piece(id).color, Color::Yellow);
    }
}

#[test]
fn no_pieces_no_solution() {
    let mut solver = solver_for(2, 2, vec![], PieceSet::Both);
    assert_eq!(solver.step(), PuzzleState::Unsolvable);
    assert_eq!(cells(&solver), vec![None, None, None, None]);
}

#[test]
fn backtracking_takes_the_piece_off_and_frees_it() {
    // two pieces that fit the first cell of a 2 x 1 board and nothing else
    let x = Piece::new([flat(), flat(), mll(), flat()], Color::Green);
    let y = Piece::new([flat(), flat(), msl(), flat()], Color::Green);
    let mut solver = solver_for(2, 1, vec![x, y], PieceSet::Both);

    // piece 0 is placed on cell 0
    assert_eq!(solver.step(), PuzzleState::Progressing);
    assert_eq!(cells(&solver), vec![Some(0), None]);
    assert!(solver.get_piece(0).used);
    assert!(!solver.get_piece(1).used);

    // nothing fits cell 1: step back
    assert_eq!(solver.step(), PuzzleState::Backtrack);
    assert_eq!(cells(&solver), vec![Some(0), None]);
    assert_eq!(solver.get_piece(1).rotations, 8);
    assert!(!solver.get_piece(1).flipped);
    assert_eq!(connectors_of(&solver.get_piece(1)), connectors_of(&y));

    // piece 0 is taken off and freed, the next piece takes its place
    assert_eq!(solver.step(), PuzzleState::Progressing);
    assert_eq!(cells(&solver), vec![Some(1), None]);
    assert!(!solver.get_piece(0).used);
    assert!(solver.get_piece(1).used);
    // the piece placed now keeps the count of its earlier, failed tries
    assert_eq!(solver.get_piece(1).rotations, 8);
    assert!(!solver.get_piece(1).flipped);

    // piece 0 is free again and is tried on cell 1; it does not fit
    assert_eq!(solver.step(), PuzzleState::Backtrack);
    assert_eq!(cells(&solver), vec![Some(1), None]);
    assert_eq!(solver.get_piece(0).rotations, 8);
    assert!(!solver.get_piece(0).used);

    // piece 1 is taken off; no piece comes after it
    assert_eq!(solver.step(), PuzzleState::Unsolvable);
    assert_eq!(cells(&solver), vec![None, None]);
    assert!(!solver.get_piece(0).used);
    assert!(!solver.get_piece(1).used);
}

#[test]
fn a_dead_end_is_left_for_the_next_candidate() {
    // the first piece fits the first cell, but shows a straight edge to the
    // right, and no other piece has three straight edges to go beside it
    let dead_end = Piece::new([flat(), flat(), flat(), mll()], Color::Yellow);
    let pool = vec![dead_end, top_left(), top_right(), bottom_left(), bottom_right()];
    let mut solver = solver_for(2, 2, pool, PieceSet::Both);

    assert_eq!(solver.step(), PuzzleState::Progressing);
    assert_eq!(cells(&solver), vec![Some(0), None, None, None]);
    assert_eq!(solver.step(), PuzzleState::Backtrack);
    assert_eq!(cells(&solver), vec![Some(0), None, None, None]);
    assert_eq!(solver.step(), PuzzleState::Progressing);
    assert_eq!(cells(&solver), vec![Some(1), None, None, None]);
    assert!(!solver.get_piece(0).used);

    let states = run(&mut solver, 100);
    assert_eq!(
        states,
        vec![PuzzleState::Progressing, PuzzleState::Progressing, PuzzleState::Solved]
    );
    assert_eq!(cells(&solver), vec![Some(1), Some(2), Some(3), Some(4)]);
    assert!(!solver.get_piece(0).used);
    // the piece was put through its orientations at each of the other cells
    assert_eq!(solver.get_piece(0).rotations, 24);
    assert_eq!(connectors_of(&solver.get_piece(0)), connectors_of(&dead_end));
    assert_solution(&solver, 2, 2, 5);
}

#[test]
fn used_pieces_are_passed_over() {
    // two pieces alike: the second cell takes the second of them
    let a = Piece::new([flat(), flat(), flat(), flat()], Color::Green);
    let mut solver = solver_for(2, 1, vec![a, a], PieceSet::Both);
    assert_eq!(solver.step(), PuzzleState::Progressing);
    assert_eq!(solver.step(), PuzzleState::Solved);
    assert_eq!(cells(&solver), vec![Some(0), Some(1)]);
    assert_eq!(solver.get_piece(0).rotations, 0);
    assert_eq!(solver.get_piece(1).rotations, 0);
}

#[test]
fn a_piece_marked_used_is_never_placed() {
    let mut taken = Piece::new([flat(), flat(), flat(), flat()], Color::Green);
    taken.used = true;
    let mut solver = solver_for(1, 1, vec![taken], PieceSet::Both);
    assert_eq!(solver.step(), PuzzleState::Unsolvable);
    assert_eq!(cells(&solver), vec![None]);
    assert_eq!(solver.get_piece(0).rotations, 0);
}

#[test]
fn shuffled_three_by_three_is_solved() {
    let solution = grid_pieces(3, 3);
    // the pool holds the pieces in reverse order, each turned some more
    let mut pool = Vec::new();
    for (i, piece) in solution.iter().rev().enumerate() {
        let mut piece = *piece;
        for _ in 0..(i % 4) {
            piece.rotate();
        }
        if i % 3 == 1 {
            piece.flip();
        }
        pool.push(Piece::new(connectors_of(&piece), Color::Green));
    }
    let mut solver = solver_for(3, 3, pool, PieceSet::Green);
    let states = run(&mut solver, 1_000_000);
    assert_eq!(*states.last().unwrap(), PuzzleState::Solved);
    assert_eq!(states.iter().filter(|s| **s == PuzzleState::Solved).count(), 1);
    assert_solution(&solver, 3, 3, 9);
    // as many pieces were placed as cells were filled and steps were taken back
    let placed = states
        .iter()
        .filter(|s| **s == PuzzleState::Progressing || **s == PuzzleState::Solved)
        .count();
    let back = states.iter().filter(|s| **s == PuzzleState::Backtrack).count();
    assert_eq!(placed, 9 + back);
    assert!(!solver.can_step());
}

#[test]
fn three_by_three_without_its_centre_piece_is_unsolvable() {
    let mut pool = grid_pieces(3, 3);
    pool.remove(4);
    let mut solver = solver_for(3, 3, pool, PieceSet::Both);
    let states = run(&mut solver, 1_000_000);
    assert_eq!(*states.last().unwrap(), PuzzleState::Unsolvable);
    assert_eq!(cells(&solver), vec![None; 9]);
    for id in 0..8 {
        assert!(!solver.get_piece(id).used);
    }
    let placed = states.iter().filter(|s| **s == PuzzleState::Progressing).count();
    let back = states.iter().filter(|s| **s == PuzzleState::Backtrack).count();
    assert_eq!(placed, back);
}

#[test]
fn a_step_turns_no_piece_more_than_eight_times() {
    let mut pool = grid_pieces(3, 2);
    pool.reverse();
    let mut solver = solver_for(3, 2, pool, PieceSet::Both);
    let mut steps = 0;
    loop {
        let before: Vec<usize> = (0..6).map(|id| solver.get_piece(id).rotations).collect();
        let state = solver.step();
        for id in 0..6 {
            let now = solver.get_piece(id).rotations;
            assert!(before[id] <= now && now <= before[id] + 8);
        }
        steps += 1;
        if state == PuzzleState::Solved || state == PuzzleState::Unsolvable {
            assert_eq!(state, PuzzleState::Solved);
            break;
        }
        assert!(steps < 100_000);
    }
    assert_solution(&solver, 3, 2, 6);
}

#[test]
fn cannot_step_close_to_the_end_of_the_turn_count() {
    let mut worn = Piece::new([flat(), flat(), flat(), flat()], Color::Green);
    worn.rotations = usize::MAX - 7;
    let solver = solver_for(1, 1, vec![worn], PieceSet::Both);
    assert!(!solver.can_step());

    let mut fine = Piece::new([flat(), flat(), flat(), flat()], Color::Green);
    fine.rotations = usize::MAX - 8;
    let mut solver = solver_for(1, 1, vec![fine], PieceSet::Both);
    assert!(solver.can_step());
    assert_eq!(solver.step(), PuzzleState::Solved);
    assert_eq!(solver.get_piece(0).rotations, usize::MAX - 8);
}

#[test]
fn cannot_step_on_a_board_without_cells() {
    let solver = solver_for(0, 3, vec![top_left()], PieceSet::Both);
    assert!(!solver.can_step());
    assert_eq!(cells(&solver), vec![]);
}

#[test]
fn directions_name_the_sides_in_board_order() {
    // the connector that a piece shows its right neighbour is the one in the
    // slot of `Right`, and the neighbour answers with the one in the slot of
    // its opposite
    let mut solver = solver_for(2, 1, vec![
        Piece::new([flat(), flat(), msl(), flat()], Color::Green),
        Piece::new([fsr(), flat(), flat(), flat()], Color::Green),
    ], PieceSet::Both);
    assert_eq!(solver.step(), PuzzleState::Progressing);
    assert_eq!(solver.step(), PuzzleState::Solved);
    let left = solver.get_piece(0);
    let right = solver.get_piece(1);
    assert!(left
        .get_connector(Direction::Right.index())
        .fits(&right.get_connector(Direction::Right.opposite().index())));
    for direction in DIRECTIONS {
        assert_eq!(direction.opposite().opposite(), direction);
    }
}

/// The piece after `tries` failed tries of the search for a fit: a
/// quarter-turn after each, and the piece turned over after every fourth.
fn after_tries(piece: &Piece, tries: usize) -> Piece {
    let mut piece = *piece;
    for done in 1..=tries {
        piece.rotate();
        if done % 4 == 0 {
            piece.flip();
        }
    }
    piece
}

/// Checks that the pieces, laid row by row as they are, make a solution.
fn assert_fits_together(width: usize, height: usize, laid: &[Piece]) {
    assert_eq!(laid.len(), width * height);
    for row in 0..height {
        for col in 0..width {
            let c = connectors_of(&laid[row * width + col]);
            if col == 0 {
                assert_eq!(c[0].gender, ConnectorGender::Flat);
            }
            if row == 0 {
                assert_eq!(c[1].gender, ConnectorGender::Flat);
            }
            if col + 1 == width {
                assert_eq!(c[2].gender, ConnectorGender::Flat);
            } else {
                assert!(c[2].fits(&laid[row * width + col + 1].get_connector(0)));
            }
            if row + 1 == height {
                assert_eq!(c[3].gender, ConnectorGender::Flat);
            } else {
                assert!(c[3].fits(&laid[(row + 1) * width + col].get_connector(1)));
            }
        }
    }
}

#[test]
fn only_the_first_fitting_orientation_of_a_piece_is_tried() {
    // Six pieces for a board two cells wide and three high. The four corner
    // pieces fit the first cell as they come, and one of them would have to
    // lie there turned over for the rest to fit: the search takes each as it
    // comes, finds nothing to go beside it, and gives up.
    let pool = vec![
        Piece::new([flat(), flat(), fsl(), fsl()], Color::Green),
        Piece::new([mll(), flat(), mll(), msl()], Color::Green),
        Piece::new([flat(), flat(), fll(), fsl()], Color::Green),
        Piece::new([msr(), flat(), mlr(), fsl()], Color::Green),
        Piece::new([flat(), flat(), flr(), msl()], Color::Green),
        Piece::new([msl(), flat(), flat(), flr()], Color::Green),
    ];

    // the pieces do make a puzzle: here is how they go together
    let laid = [
        after_tries(&pool[0], 7),
        after_tries(&pool[4], 1),
        after_tries(&pool[3], 7),
        after_tries(&pool[1], 1),
        after_tries(&pool[5], 2),
        after_tries(&pool[2], 5),
    ];
    assert_fits_together(2, 3, &laid);

    let mut solver = solver_for(2, 3, pool, PieceSet::Both);
    let mut boards = Vec::new();
    let mut states = Vec::new();
    loop {
        let state = solver.step();
        states.push(state);
        boards.push(cells(&solver)[0]);
        if state == PuzzleState::Solved || state == PuzzleState::Unsolvable {
            break;
        }
        assert!(states.len() < 1000);
    }
    assert_eq!(
        states,
        vec![
            PuzzleState::Progressing,
            PuzzleState::Backtrack,
            PuzzleState::Progressing,
            PuzzleState::Backtrack,
            PuzzleState::Progressing,
            PuzzleState::Backtrack,
            PuzzleState::Progressing,
            PuzzleState::Backtrack,
            PuzzleState::Unsolvable,
        ]
    );
    // the pieces that lay on the first cell, step by step
    assert_eq!(
        boards,
        vec![Some(0), Some(0), Some(2), Some(2), Some(4), Some(4), Some(5), Some(5), None]
    );
    assert_eq!(cells(&solver), vec![None; 6]);
}
