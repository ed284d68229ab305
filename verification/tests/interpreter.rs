use chessembly_bot::chessembly::board::{Board, BoardState, BothBoardState};
use chessembly_bot::chessembly::geometry::WallCollision;
use chessembly_bot::chessembly::script::ChessemblyCompiled;
use chessembly_bot::chessembly::{ChessMove, Color, MoveType, Piece, PieceSpan, Position};

fn piece(kind: &'static str, color: Color) -> PieceSpan<'static> {
    PieceSpan::Piece(Piece { piece_type: kind, color })
}

fn program(text: &'static str) -> &'static ChessemblyCompiled<'static> {
    Box::leak(Box::new(ChessemblyCompiled::from_script(text).unwrap()))
}

fn board_with(
    script: &'static ChessemblyCompiled<'static>,
    pieces: &[(Position, &'static str, Color)],
) -> Board<'static> {
    let mut board = Board::empty(script, false, false);
    for (p, kind, color) in pieces {
        board.set_piece(p, piece(kind, *color));
    }
    board
}

/// The moves as (take, move_to, type), in their order.
fn shape(moves: &[ChessMove]) -> Vec<(Position, Position, MoveType)> {
    moves.iter().map(|m| (m.take, m.move_to, m.move_type)).collect()
}

fn run(text: &'static str, pieces: &[(Position, &'static str, Color)], at: Position) -> Vec<ChessMove<'static>> {
    let script = program(text);
    let mut board = board_with(script, pieces);
    script.generate_moves(&mut board, &at, false).unwrap()
}

const W: Color = Color::White;
const B: Color = Color::Black;

#[test]
fn move_lands_on_empty_squares_only() {
    let pieces = [((3, 4), "x", W), ((3, 3), "y", B), ((4, 4), "y", W)];
    let moves = run("move(0,1);move(1,0);move(-1,0);move(0,-1);move(0,0)", &pieces, (3, 4));
    assert_eq!(
        shape(&moves),
        vec![((2, 4), (2, 4), MoveType::Move), ((3, 5), (3, 5), MoveType::Move)]
    );
    assert!(moves.iter().all(|m| m.from == (3, 4)));
    assert!(moves.iter().all(|m| m.state_change.is_none() && m.transition.is_none()));
}

#[test]
fn take_captures_the_other_side_only() {
    let pieces = [((3, 4), "x", W), ((3, 3), "y", B), ((4, 4), "y", W)];
    let moves = run("take(0,1);take(1,0);take(-1,0)", &pieces, (3, 4));
    assert_eq!(shape(&moves), vec![((3, 3), (3, 3), MoveType::Take)]);
}

#[test]
fn take_move_slides_until_it_meets_a_piece() {
    let pieces = [((0, 7), "x", W), ((0, 3), "y", B), ((4, 7), "y", W)];
    let moves = run("take-move(0,1) repeat(1);take-move(1,0) repeat(1)", &pieces, (0, 7));
    assert_eq!(
        shape(&moves),
        vec![
            ((0, 6), (0, 6), MoveType::TakeMove),
            ((0, 5), (0, 5), MoveType::TakeMove),
            ((0, 4), (0, 4), MoveType::TakeMove),
            ((0, 3), (0, 3), MoveType::TakeMove),
            ((1, 7), (1, 7), MoveType::TakeMove),
            ((2, 7), (2, 7), MoveType::TakeMove),
            ((3, 7), (3, 7), MoveType::TakeMove),
        ]
    );
}

#[test]
fn catch_takes_from_afar_and_stays() {
    let pieces = [((3, 4), "x", W), ((5, 2), "y", B), ((1, 2), "y", W)];
    let moves = run("catch(2,2);catch(-2,2);catch(2,-2)", &pieces, (3, 4));
    assert_eq!(shape(&moves), vec![((5, 2), (3, 4), MoveType::Catch)]);
}

#[test]
fn jump_turns_the_latest_take_into_a_capture_from_behind() {
    let pieces = [((3, 4), "x", W), ((3, 3), "y", B)];
    let moves = run("take(0,1) jump(0,1)", &pieces, (3, 4));
    assert_eq!(shape(&moves), vec![((3, 3), (3, 2), MoveType::TakeJump)]);
    let blocked = [((3, 4), "x", W), ((3, 3), "y", B), ((3, 2), "z", B)];
    let moves = run("take(0,1) jump(0,1)", &blocked, (3, 4));
    assert_eq!(shape(&moves), vec![]);
    let moves = run("jump(0,1)", &pieces, (3, 4));
    assert_eq!(shape(&moves), vec![]);
    let moves = run("take(0,1) jump(0,0) move(1,0)", &pieces, (3, 4));
    assert_eq!(shape(&moves), vec![]);
}

#[test]
fn shift_goes_to_occupied_squares() {
    let pieces = [((3, 4), "x", W), ((3, 3), "y", B), ((4, 4), "y", W)];
    let moves = run("shift(0,1);shift(1,0);shift(-1,0);shift(0,-9)", &pieces, (3, 4));
    assert_eq!(
        shape(&moves),
        vec![((3, 4), (3, 3), MoveType::Shift), ((3, 4), (4, 4), MoveType::Shift)]
    );
}

#[test]
fn anchor_carries_the_cursor_and_the_wall_stops_the_chain() {
    let pieces = [((3, 4), "x", W)];
    let moves = run("anchor(2,2) move(1,0);anchor(0,5) move(0,-1)", &pieces, (3, 4));
    assert_eq!(shape(&moves), vec![((6, 2), (6, 2), MoveType::Move)]);
}

#[test]
fn peek_steps_onto_an_empty_square_and_observe_only_looks() {
    let pieces = [((3, 4), "x", W), ((3, 1), "y", B)];
    let moves = run("peek(0,1) move(0,1)", &pieces, (3, 4));
    assert_eq!(shape(&moves), vec![((3, 2), (3, 2), MoveType::Move)]);
    let moves = run("observe(0,1) move(0,1)", &pieces, (3, 4));
    assert_eq!(shape(&moves), vec![((3, 3), (3, 3), MoveType::Move)]);
    let moves = run("peek(0,3) move(1,0)", &pieces, (3, 4));
    assert_eq!(shape(&moves), vec![]);
    let moves = run("observe(0,3) move(1,0)", &pieces, (3, 4));
    assert_eq!(shape(&moves), vec![]);
    let moves = run("observe(0,3) not move(1,0)", &pieces, (3, 4));
    assert_eq!(shape(&moves), vec![((4, 4), (4, 4), MoveType::Move)]);
}

#[test]
fn questions_about_the_board_set_the_flag() {
    let pieces = [((3, 4), "guard", W), ((3, 3), "rook", B), ((4, 4), "pawn", W)];
    let yes = vec![((2, 4), (2, 4), MoveType::Move)];
    let no: Vec<(Position, Position, MoveType)> = vec![];
    for (text, expected) in [
        ("enemy(0,1) move(-1,0)", &yes),
        ("enemy(1,0) move(-1,0)", &no),
        ("enemy(-1,0) move(-1,0)", &no),
        ("friendly(1,0) move(-1,0)", &yes),
        ("friendly(0,1) move(-1,0)", &no),
        ("friendly(0,0) move(-1,0)", &yes),
        ("piece(guard) move(-1,0)", &yes),
        ("piece(rook) move(-1,0)", &no),
        ("piece-on(rook,0,1) move(-1,0)", &yes),
        ("piece-on(pawn,0,1) move(-1,0)", &no),
        ("piece-on(pawn,1,0) move(-1,0)", &yes),
        ("piece-on(pawn,0,-1) move(-1,0)", &no),
        ("piece-on(pawn,9,0) not move(-1,0)", &yes),
        ("enemy(0,9) move(-1,0)", &no),
        ("not move(-1,0)", &no),
        ("not not move(-1,0)", &yes),
    ] {
        assert_eq!(&shape(&run(text, &pieces, (3, 4))), expected, "{}", text);
    }
}

#[test]
fn questions_about_the_walls() {
    let corner = [((0, 0), "x", W)];
    let yes = vec![((1, 0), (1, 0), MoveType::Move)];
    let no: Vec<(Position, Position, MoveType)> = vec![];
    for (text, expected) in [
        ("bound(-1,0) move(1,0)", &yes),
        ("bound(1,0) move(1,0)", &no),
        ("edge(-1,0) move(1,0)", &yes),
        ("edge(-1,1) move(1,0)", &no),
        ("corner(-1,1) move(1,0)", &yes),
        ("corner(-1,0) move(1,0)", &no),
        ("edge-left(-1,0) move(1,0)", &yes),
        ("edge-left(-1,-1) move(1,0)", &yes),
        ("edge-right(-1,0) move(1,0)", &no),
        ("edge-right(8,0) move(1,0)", &yes),
        ("edge-top(0,1) move(1,0)", &yes),
        ("edge-top(0,-1) move(1,0)", &no),
        ("edge-bottom(0,-8) move(1,0)", &yes),
        ("edge-bottom(0,-7) move(1,0)", &no),
        ("corner-top-left(-1,1) move(1,0)", &yes),
        ("corner-top-right(8,1) move(1,0)", &yes),
        ("corner-bottom-left(-1,-8) move(1,0)", &yes),
        ("corner-bottom-right(8,-8) move(1,0)", &yes),
        ("corner-top-left(8,1) move(1,0)", &no),
    ] {
        assert_eq!(&shape(&run(text, &corner, (0, 0))), expected, "{}", text);
    }
}

#[test]
fn black_names_the_walls_from_its_own_side() {
    let corner = [((0, 0), "x", B)];
    let yes = vec![((1, 0), (1, 0), MoveType::Move)];
    let no: Vec<(Position, Position, MoveType)> = vec![];
    for (text, expected) in [
        ("edge-bottom(0,-1) move(1,0)", &yes),
        ("edge-top(0,-1) move(1,0)", &no),
        ("edge-right(-1,0) move(1,0)", &yes),
        ("edge-left(-1,0) move(1,0)", &no),
        ("corner-bottom-right(-1,-1) move(1,0)", &yes),
        ("bound(0,1) move(1,0)", &no),
        ("bound(0,-1) move(1,0)", &yes),
    ] {
        assert_eq!(&shape(&run(text, &corner, (0, 0))), expected, "{}", text);
    }
}

#[test]
fn black_moves_down_the_board() {
    let pieces = [((3, 1), "x", B), ((4, 2), "y", W)];
    let moves = run("move(0,1);take(1,1);take(-1,1)", &pieces, (3, 1));
    assert_eq!(
        shape(&moves),
        vec![((3, 2), (3, 2), MoveType::Move), ((4, 2), (4, 2), MoveType::Take)]
    );
}

#[test]
fn moves_carry_the_state_and_the_transition_set_before_them() {
    let pieces = [((3, 4), "x", W)];
    let moves = run(
        "move(0,1) set-state(a,1) move(0,1) set-state(b,2) transition(queen) move(0,1) transition() move(0,1)",
        &pieces,
        (3, 4),
    );
    assert_eq!(moves.len(), 4);
    assert_eq!(moves[0].state_change, None);
    assert_eq!(moves[0].transition, None);
    assert_eq!(moves[1].state_change, Some(vec![("a", 1)]));
    assert_eq!(moves[2].state_change, Some(vec![("a", 1), ("b", 2)]));
    assert_eq!(moves[2].transition, Some("queen"));
    assert_eq!(moves[3].state_change, Some(vec![("a", 1), ("b", 2)]));
    assert_eq!(moves[3].transition, None);
    let again = run("set-state(a,1) move(0,1);move(1,0)", &pieces, (3, 4));
    assert_eq!(again[0].state_change, Some(vec![("a", 1)]));
    assert_eq!(again[1].state_change, None);
}

#[test]
fn if_state_reads_the_register_of_the_moving_side() {
    let script = program("if-state(moved,0) move(0,2);if-state(moved,1) move(1,0);if-state(other,0) move(-1,0)");
    let mut board = board_with(script, &[((3, 4), "x", W)]);
    let moves = script.generate_moves(&mut board, &(3, 4), false).unwrap();
    assert_eq!(
        shape(&moves),
        vec![((3, 2), (3, 2), MoveType::Move), ((2, 4), (2, 4), MoveType::Move)]
    );
    let mut white = BoardState::new();
    white.register = vec![("moved", 7), ("moved", 1)];
    let mut black = BoardState::new();
    black.register = vec![("other", 1)];
    board.set_state(BothBoardState { white, black });
    let moves = script.generate_moves(&mut board, &(3, 4), false).unwrap();
    assert_eq!(
        shape(&moves),
        vec![((4, 4), (4, 4), MoveType::Move), ((2, 4), (2, 4), MoveType::Move)]
    );
}

#[test]
fn a_block_has_its_own_cursor_and_flag() {
    let pieces = [((3, 4), "x", W)];
    let moves = run("{ move(0,1) move(0,1) } { move(1,0) } move(-1,0)", &pieces, (3, 4));
    assert_eq!(
        shape(&moves),
        vec![
            ((3, 3), (3, 3), MoveType::Move),
            ((3, 2), (3, 2), MoveType::Move),
            ((4, 4), (4, 4), MoveType::Move),
            ((2, 4), (2, 4), MoveType::Move),
        ]
    );
    let moves = run("{ move(0,9) move(0,1) } move(1,0)", &pieces, (3, 4));
    assert_eq!(shape(&moves), vec![((4, 4), (4, 4), MoveType::Move)]);
    let moves = run("{ { move(0,9) } move(0,1) } move(1,0)", &pieces, (3, 4));
    assert_eq!(
        shape(&moves),
        vec![((3, 3), (3, 3), MoveType::Move), ((4, 4), (4, 4), MoveType::Move)]
    );
    let moves = run("move(0,9) move(1,0)", &pieces, (3, 4));
    assert_eq!(shape(&moves), vec![]);
    let moves = run("} move(1,0)", &pieces, (3, 4));
    assert_eq!(shape(&moves), vec![]);
    let moves = run("{ move(0,9) move(1,0)", &pieces, (3, 4));
    assert_eq!(shape(&moves), vec![]);
}

#[test]
fn do_and_while_loop_as_long_as_the_flag_stands() {
    let pieces = [((0, 7), "x", W), ((0, 4), "wall", W)];
    let moves = run("do move(0,1) while move(1,0)", &pieces, (0, 7));
    assert_eq!(
        shape(&moves),
        vec![
            ((0, 6), (0, 6), MoveType::Move),
            ((0, 5), (0, 5), MoveType::Move),
            ((1, 5), (1, 5), MoveType::Move),
        ]
    );
    let moves = run("do while move(1,0)", &pieces, (0, 7));
    assert_eq!(shape(&moves), vec![((1, 7), (1, 7), MoveType::Move)]);
    let moves = run("move(1,0) do", &pieces, (0, 7));
    assert_eq!(shape(&moves), vec![((1, 7), (1, 7), MoveType::Move)]);
}

#[test]
fn jumps_go_to_the_first_label_of_the_name() {
    let pieces = [((3, 4), "x", W)];
    let moves = run("jmp(a) move(0,1) label(a) move(1,0) label(a) move(0,-1)", &pieces, (3, 4));
    assert_eq!(
        shape(&moves),
        vec![((4, 4), (4, 4), MoveType::Move), ((4, 5), (4, 5), MoveType::Move)]
    );
    let moves = run("move(0,9) jne(a) move(0,1) label(a) move(1,0)", &pieces, (3, 4));
    assert_eq!(shape(&moves), vec![((4, 4), (4, 4), MoveType::Move)]);
    let moves = run("jne(a) move(0,1) label(a) move(1,0)", &pieces, (3, 4));
    assert_eq!(
        shape(&moves),
        vec![((3, 3), (3, 3), MoveType::Move), ((4, 3), (4, 3), MoveType::Move)]
    );
    let moves = run("move(0,9) jmp(a) move(0,1) label(a) move(1,0)", &pieces, (3, 4));
    assert_eq!(
        shape(&moves),
        vec![((3, 3), (3, 3), MoveType::Move), ((4, 3), (4, 3), MoveType::Move)]
    );
    let moves = run("move(1,0) jmp(nowhere) move(1,0)", &pieces, (3, 4));
    assert_eq!(shape(&moves), vec![((4, 4), (4, 4), MoveType::Move)]);
}

#[test]
fn repeat_goes_back_and_ends_the_chain_where_it_cannot() {
    let pieces = [((3, 4), "x", W)];
    let moves = run("move(1,0) repeat(0) move(0,1)", &pieces, (3, 4));
    assert_eq!(shape(&moves), vec![((4, 4), (4, 4), MoveType::Move)]);
    let moves = run("move(1,0) repeat(2) move(0,1)", &pieces, (3, 4));
    assert_eq!(shape(&moves), vec![((4, 4), (4, 4), MoveType::Move)]);
    let moves = run("move(1,0) repeat(1)", &pieces, (3, 4));
    assert_eq!(moves.len(), 4);
}

#[test]
fn an_unknown_instruction_ends_its_chain_but_no_other() {
    let pieces = [((3, 4), "x", W)];
    let moves = run("move(1,0) fly(1,1) move(1,0);move(0,1)", &pieces, (3, 4));
    assert_eq!(
        shape(&moves),
        vec![((4, 4), (4, 4), MoveType::Move), ((3, 3), (3, 3), MoveType::Move)]
    );
}

#[test]
fn a_chain_that_never_ends_is_cut_off() {
    let pieces = [((3, 4), "x", W)];
    let moves = run("label(a) jmp(a);move(1,0)", &pieces, (3, 4));
    assert_eq!(shape(&moves), vec![((4, 4), (4, 4), MoveType::Move)]);
    let moves = run("move(1,0) label(a) not not jmp(a)", &pieces, (3, 4));
    assert_eq!(shape(&moves), vec![((4, 4), (4, 4), MoveType::Move)]);
}

#[test]
fn of_two_moves_with_the_same_squares_the_later_one_stays() {
    let pieces = [((3, 4), "x", W)];
    let moves = run(
        "move(1,0);move(0,1);transition(queen) move(1,0);move(-1,0)",
        &pieces,
        (3, 4),
    );
    assert_eq!(
        shape(&moves),
        vec![
            ((3, 3), (3, 3), MoveType::Move),
            ((4, 4), (4, 4), MoveType::Move),
            ((2, 4), (2, 4), MoveType::Move),
        ]
    );
    assert_eq!(moves[1].transition, Some("queen"));
    let mut list = run("move(1,0);move(0,1);move(-1,0)", &pieces, (3, 4));
    let again = ChessMove {
        from: (3, 4),
        take: (4, 4),
        move_to: (4, 4),
        move_type: MoveType::Take,
        state_change: None,
        transition: None,
    };
    ChessemblyCompiled::push_node(&mut list, again);
    assert_eq!(
        shape(&list),
        vec![
            ((2, 4), (2, 4), MoveType::Move),
            ((3, 3), (3, 3), MoveType::Move),
            ((4, 4), (4, 4), MoveType::Take),
        ]
    );
    let other = ChessMove {
        from: (3, 4),
        take: (4, 4),
        move_to: (4, 3),
        move_type: MoveType::TakeJump,
        state_change: None,
        transition: None,
    };
    ChessemblyCompiled::push_node(&mut list, other);
    assert_eq!(list.len(), 4);
}

#[test]
fn there_is_no_result_for_an_empty_square() {
    let script = program("move(1,0)");
    let mut board = board_with(script, &[((3, 4), "x", W)]);
    assert_eq!(script.generate_moves(&mut board, &(0, 0), false), Err(()));
    assert_eq!(script.generate_moves(&mut board, &(9, 9), true), Err(()));
    assert!(script.generate_moves(&mut board, &(3, 4), true).is_ok());
    assert!(script.run(&board, &(0, 0), 0, false).is_empty());
}

#[test]
fn check_and_danger_see_the_attacks_only_where_they_count() {
    let script = program("check move(1,0);danger(0,1) move(-1,0);danger(0,-1) not move(0,-1)");
    let pieces = [((3, 4), "king", W), ((3, 0), "rook", B), ((6, 6), "guard", W)];
    let mut board = board_with(script, &pieces);
    let loud = script.generate_moves(&mut board, &(6, 6), true).unwrap();
    assert_eq!(
        shape(&loud),
        vec![((7, 6), (7, 6), MoveType::Move), ((6, 7), (6, 7), MoveType::Move)]
    );
    let quiet = script.generate_moves(&mut board, &(6, 6), false).unwrap();
    assert_eq!(
        shape(&quiet),
        vec![((7, 6), (7, 6), MoveType::Move), ((6, 7), (6, 7), MoveType::Move)]
    );
    board.set_piece(&(3, 4), PieceSpan::Empty);
    board.set_piece(&(3, 0), PieceSpan::Empty);
    board.set_piece(&(6, 0), piece("rook", B));
    let loud = script.generate_moves(&mut board, &(6, 6), true).unwrap();
    assert_eq!(
        shape(&loud),
        vec![((5, 6), (5, 6), MoveType::Move), ((6, 7), (6, 7), MoveType::Move)]
    );
    assert!(script.is_danger(&mut board, &(6, 5), W));
    assert!(script.is_danger(&mut board, &(6, 6), W));
    assert!(!script.is_danger(&mut board, &(6, 7), W));
    assert!(!script.is_danger(&mut board, &(6, 5), B));
}

#[test]
fn the_walls_by_name() {
    let script = program("");
    let board = Board::empty(script, false, false);
    let wall = |a: Position, d: (i8, i8), c: Color| ChessemblyCompiled::wall_collision(&a, &d, &board, c);
    assert_eq!(wall((3, 4), (1, 1), W), WallCollision::NoCollision);
    assert_eq!(wall((3, 4), (4, 4), W), WallCollision::NoCollision);
    assert_eq!(wall((3, 4), (-3, -3), W), WallCollision::NoCollision);
    assert_eq!(wall((3, 4), (5, 0), W), WallCollision::EdgeRight);
    assert_eq!(wall((3, 4), (-4, 0), W), WallCollision::EdgeLeft);
    assert_eq!(wall((3, 4), (0, 5), W), WallCollision::EdgeTop);
    assert_eq!(wall((3, 4), (0, -4), W), WallCollision::EdgeBottom);
    assert_eq!(wall((3, 4), (-4, 5), W), WallCollision::CornerTopLeft);
    assert_eq!(wall((3, 4), (5, 5), W), WallCollision::CornerTopRight);
    assert_eq!(wall((3, 4), (-4, -4), W), WallCollision::CornerBottomLeft);
    assert_eq!(wall((3, 4), (5, -4), W), WallCollision::CornerBottomRight);
    assert_eq!(wall((3, 4), (5, 0), B), WallCollision::EdgeLeft);
    assert_eq!(wall((3, 4), (-4, 0), B), WallCollision::EdgeRight);
    assert_eq!(wall((3, 4), (0, 5), B), WallCollision::EdgeBottom);
    assert_eq!(wall((3, 4), (0, -4), B), WallCollision::EdgeTop);
    assert_eq!(wall((3, 4), (-4, 5), B), WallCollision::CornerBottomRight);
    assert_eq!(wall((3, 4), (5, 5), B), WallCollision::CornerBottomLeft);
    assert_eq!(wall((3, 4), (-4, -4), B), WallCollision::CornerTopRight);
    assert_eq!(wall((3, 4), (5, -4), B), WallCollision::CornerTopLeft);
    assert_eq!(wall((7, 7), (127, -128), W), WallCollision::CornerBottomRight);
    assert_eq!(wall((0, 0), (-128, 127), W), WallCollision::CornerTopLeft);
}

#[test]
fn the_anchor_steps_and_steps_back() {
    let script = program("");
    let board = Board::empty(script, false, false);
    let mut a: Position = (3, 4);
    assert_eq!(
        ChessemblyCompiled::move_anchor(&mut a, &(2, 1), &board, W),
        WallCollision::NoCollision
    );
    assert_eq!(a, (5, 3));
    assert_eq!(
        ChessemblyCompiled::move_anchor(&mut a, &(3, 0), &board, W),
        WallCollision::EdgeRight
    );
    assert_eq!(a, (5, 3));
    ChessemblyCompiled::cancel_move_anchor(&mut a, &(2, 1));
    assert_eq!(a, (3, 4));
    assert!(ChessemblyCompiled::is_zero_vector(&(0, 0)));
    assert!(!ChessemblyCompiled::is_zero_vector(&(0, 1)));
    assert!(!ChessemblyCompiled::is_zero_vector(&(-1, 0)));
}

#[test]
fn friend_and_foe() {
    let script = program("");
    let board = board_with(script, &[((3, 4), "x", W), ((3, 3), "y", B)]);
    assert!(ChessemblyCompiled::is_friendly(&(3, 4), &board, W));
    assert!(!ChessemblyCompiled::is_friendly(&(3, 4), &board, B));
    assert!(ChessemblyCompiled::is_enemy(&(3, 4), &board, B));
    assert!(ChessemblyCompiled::is_enemy(&(3, 3), &board, W));
    assert!(!ChessemblyCompiled::is_enemy(&(0, 0), &board, W));
    assert!(!ChessemblyCompiled::is_friendly(&(0, 0), &board, W));
    assert!(!ChessemblyCompiled::is_enemy(&(8, 3), &board, W));
}

#[test]
fn the_bits_of_a_mask() {
    assert!(ChessemblyCompiled::is_danger_bit(1, 0, 0));
    assert!(!ChessemblyCompiled::is_danger_bit(1, 1, 0));
    assert!(ChessemblyCompiled::is_danger_bit(1 << 9, 1, 1));
    assert!(ChessemblyCompiled::is_danger_bit(1 << 63, 7, 7));
    assert!(ChessemblyCompiled::is_danger_bit(1 << 39, 7, 4));
    assert!(!ChessemblyCompiled::is_danger_bit(u64::MAX, 8, 0));
    assert!(!ChessemblyCompiled::is_danger_bit(u64::MAX, 0, 8));
    assert!(!ChessemblyCompiled::is_danger_bit(0, 3, 3));
}

#[test]
fn check_ends_even_where_both_sides_ask_for_it() {
    let script = program("check take-move(0,1) repeat(1);check not move(1,0)");
    let pieces = [
        ((3, 6), "king", W),
        ((3, 1), "imp", B),
        ((5, 5), "imp", W),
        ((5, 0), "king", B),
    ];
    let mut board = board_with(script, &pieces);
    let white = script.generate_moves(&mut board, &(5, 5), true).unwrap();
    assert_eq!(shape(&white), vec![((6, 5), (6, 5), MoveType::Move)]);
    let quiet = script.generate_moves(&mut board, &(5, 5), false).unwrap();
    assert_eq!(shape(&quiet), vec![((6, 5), (6, 5), MoveType::Move)]);
    let black = script.generate_moves(&mut board, &(3, 1), false).unwrap();
    assert_eq!(shape(&black), vec![((4, 1), (4, 1), MoveType::Move)]);
    board.set_piece(&(5, 0), PieceSpan::Empty);
    board.set_piece(&(5, 2), piece("king", B));
    let black = script.generate_moves(&mut board, &(3, 1), true).unwrap();
    assert_eq!(shape(&black), vec![((4, 1), (4, 1), MoveType::Move)]);
    board.set_piece(&(5, 5), PieceSpan::Empty);
    board.set_piece(&(5, 6), piece("rook", W));
    let black = script.generate_moves(&mut board, &(3, 1), true).unwrap();
    assert_eq!(
        shape(&black),
        vec![
            ((3, 2), (3, 2), MoveType::TakeMove),
            ((3, 3), (3, 3), MoveType::TakeMove),
            ((3, 4), (3, 4), MoveType::TakeMove),
            ((3, 5), (3, 5), MoveType::TakeMove),
            ((3, 6), (3, 6), MoveType::TakeMove),
        ]
    );
    let quiet = script.generate_moves(&mut board, &(3, 1), false).unwrap();
    assert_eq!(shape(&quiet), shape(&black));
    let script_of_board = board.script();
    assert_eq!(shape(&script_of_board.get_moves(&mut board, &(3, 1), false)), shape(&black));
    assert_eq!(shape(&script_of_board.get_moves(&mut board, &(3, 1), true)), shape(&black));
    assert!(script_of_board.is_check(&mut board, B));
    assert!(script_of_board.is_check(&mut board, W));
}

#[test]
fn the_turned_board_gives_the_turned_moves_where_check_and_danger_are_asked() {
    let script =
        program("danger(0,1) move(1,0);check move(-1,0);take-move(1,1);take-move(-1,1)");
    let here = [((3, 4), "imp", W), ((2, 2), "imp", B), ((1, 3), "king", W)];
    let there = [((3, 3), "imp", B), ((2, 5), "imp", W), ((1, 4), "king", B)];
    let mut board = board_with(script, &here);
    let mut turned = board_with(script, &there);
    let loud = script.generate_moves(&mut board, &(3, 4), true).unwrap();
    assert_eq!(
        shape(&loud),
        vec![
            ((4, 4), (4, 4), MoveType::Move),
            ((2, 4), (2, 4), MoveType::Move),
            ((4, 3), (4, 3), MoveType::TakeMove),
            ((2, 3), (2, 3), MoveType::TakeMove),
        ]
    );
    let loud_there = script.generate_moves(&mut turned, &(3, 3), true).unwrap();
    assert_eq!(
        shape(&loud_there),
        vec![
            ((4, 3), (4, 3), MoveType::Move),
            ((2, 3), (2, 3), MoveType::Move),
            ((4, 4), (4, 4), MoveType::TakeMove),
            ((2, 4), (2, 4), MoveType::TakeMove),
        ]
    );
    let quiet = script.generate_moves(&mut board, &(3, 4), false).unwrap();
    assert_eq!(
        shape(&quiet),
        vec![
            ((2, 4), (2, 4), MoveType::Move),
            ((4, 3), (4, 3), MoveType::TakeMove),
            ((2, 3), (2, 3), MoveType::TakeMove),
        ]
    );
    for (p, _, _) in here {
        for flag in [false, true] {
            let a = script.generate_moves(&mut board, &p, flag).unwrap();
            let b = script.generate_moves(&mut turned, &(p.0, 7 - p.1), flag).unwrap();
            let mirrored: Vec<(Position, Position, MoveType)> = shape(&a)
                .into_iter()
                .map(|(t, m, ty)| ((t.0, 7 - t.1), (m.0, 7 - m.1), ty))
                .collect();
            assert_eq!(shape(&b), mirrored);
        }
    }
    assert!(script.is_check(&mut board, W));
    assert!(script.is_check(&mut turned, B));
    assert!(!script.is_check(&mut board, B));
    assert!(!script.is_check(&mut turned, W));
    for y in 0..8 {
        for x in 0..8 {
            assert_eq!(
                script.is_danger(&mut board, &(x, y), W),
                script.is_danger(&mut turned, &(x, 7 - y), B)
            );
            assert_eq!(
                script.is_danger(&mut board, &(x, y), B),
                script.is_danger(&mut turned, &(x, 7 - y), W)
            );
        }
    }
}

#[test]
fn the_pieces_of_the_catalog_attack_the_turned_board_alike() {
    let script = program(
        "danger(0,1) move(1,0);check move(-1,0);take-move(1,1);take-move(-1,1);danger(1,0) not move(0,1)",
    );
    let here = [
        ((4, 7), "king", W),
        ((7, 7), "rook", W),
        ((1, 7), "knight", W),
        ((4, 6), "pawn", W),
        ((6, 3), "pawn", W),
        ((2, 4), "imp", W),
        ((4, 0), "king", B),
        ((3, 0), "queen", B),
        ((2, 0), "bishop", B),
        ((3, 1), "pawn", B),
        ((5, 3), "imp", B),
        ((0, 2), "camel", B),
        ((7, 2), "dozer", B),
        ((0, 5), "wasp", W),
        ((6, 5), "beacon", W),
        ((2, 2), "chameleon", B),
        ((5, 5), "mirrored-knight", W),
        ((1, 3), "tempest-rook", B),
        ((7, 4), "archbishop", W),
    ];
    let there: Vec<(Position, &'static str, Color)> = here
        .iter()
        .map(|(p, kind, c)| ((p.0, 7 - p.1), *kind, if *c == W { B } else { W }))
        .collect();
    let mut board = board_with(script, &here);
    let mut turned = board_with(script, &there);
    for (p, _, _) in here {
        for flag in [false, true] {
            let a = script.generate_moves(&mut board, &p, flag).unwrap();
            let b = script.generate_moves(&mut turned, &(p.0, 7 - p.1), flag).unwrap();
            let mirrored: Vec<(Position, Position, MoveType)> = shape(&a)
                .into_iter()
                .map(|(t, m, ty)| ((t.0, 7 - t.1), (m.0, 7 - m.1), ty))
                .collect();
            assert_eq!(shape(&b), mirrored);
        }
    }
    let mut attacked = 0;
    for y in 0..8 {
        for x in 0..8 {
            let by_black = script.is_danger(&mut board, &(x, y), W);
            let by_white = script.is_danger(&mut board, &(x, y), B);
            assert_eq!(by_black, script.is_danger(&mut turned, &(x, 7 - y), B));
            assert_eq!(by_white, script.is_danger(&mut turned, &(x, 7 - y), W));
            if by_black {
                attacked += 1;
            }
        }
    }
    assert!(attacked > 0);
    assert_eq!(script.is_check(&mut board, W), script.is_check(&mut turned, B));
    assert_eq!(script.is_check(&mut board, B), script.is_check(&mut turned, W));
    assert!(script.is_danger(&mut board, &(6, 4), W));
    assert!(script.is_danger(&mut turned, &(6, 3), B));
}
