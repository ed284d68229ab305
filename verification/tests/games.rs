use chessembly_bot::chessembly::board::{Board, BoardState, BothBoardState};
use chessembly_bot::chessembly::MoveGen;
use chessembly_bot::chessembly::ChessemblyCompiled;
use chessembly_bot::chessembly::{ChessMove, Color, MoveType, Piece, PieceSpan, Position};

fn piece(kind: &'static str, color: Color) -> PieceSpan<'static> {
    PieceSpan::Piece(Piece { piece_type: kind, color })
}

fn targets(moves: &[ChessMove]) -> Vec<Position> {
    let mut v: Vec<Position> = moves.iter().map(|m| m.move_to).collect();
    v.sort();
    v
}

#[test]
fn knight_on_an_empty_board_has_its_eight_leaps() {
    let script = ChessemblyCompiled::new();
    let mut board = Board::empty(&script, false, false);
    board.set_piece(&(3, 4), piece("knight", Color::White));
    let moves = script.get_moves(&mut board, &(3, 4), true);
    assert_eq!(moves.len(), 8);
    assert!(moves.iter().all(|m| m.move_type == MoveType::TakeMove));
    assert!(moves.iter().all(|m| m.from == (3, 4) && m.take == m.move_to));
    assert_eq!(
        targets(&moves),
        vec![(1, 3), (1, 5), (2, 2), (2, 6), (4, 2), (4, 6), (5, 3), (5, 5)]
    );
}

#[test]
fn double_push_marks_the_pawn_and_the_other_pawn_takes_it_in_passing() {
    let script = ChessemblyCompiled::new();
    let mut board = Board::empty(&script, false, false);
    board.set_piece(&(4, 6), piece("pawn", Color::White));
    board.set_piece(&(3, 4), piece("pawn", Color::Black));
    let pawn = script.get_moves(&mut board, &(4, 6), true);
    let double = pawn
        .iter()
        .find(|m| m.move_to == (4, 4))
        .expect("the double step");
    assert_eq!(double.move_type, MoveType::Move);
    assert_eq!(double.state_change, Some(vec![("enpassant", 1u8)]));
    let mut after = board.make_move_new_nc(double, true);
    assert_eq!(after.side_to_move(), Color::Black);
    assert_eq!(after.state(Color::White).enpassant, vec![(4u8, 4u8)]);
    assert_eq!(after.color_on(&(4, 4)), Some(Color::White));
    assert_eq!(after.color_on(&(4, 6)), None);
    let legal = MoveGen::new_legal(&mut after);
    let passing = legal
        .iter()
        .find(|m| m.from == (3, 4) && m.move_type == MoveType::TakeJump)
        .expect("the capture in passing");
    assert_eq!(passing.take, (4, 4));
    assert_eq!(passing.move_to, (4, 5));
    let done = after.make_move_new_nc(passing, true);
    assert_eq!(done.color_on(&(4, 4)), None);
    assert_eq!(done.piece_on(&(4, 5)), Some("pawn"));
    assert_eq!(done.color_on(&(4, 5)), Some(Color::Black));
    assert_eq!(done.color_on(&(3, 4)), None);
}

fn castling_board(script: &ChessemblyCompiled<'static>) -> Board<'static> {
    let script: &'static ChessemblyCompiled<'static> = Box::leak(Box::new(ChessemblyCompiled {
        chains: script.chains.clone(),
    }));
    let mut board = Board::empty(script, false, false);
    board.set_piece(&(4, 7), piece("king", Color::White));
    board.set_piece(&(7, 7), piece("rook", Color::White));
    let mut white = BoardState::new();
    white.castling_oo = true;
    board.set_state(BothBoardState { white, black: BoardState::new() });
    board
}

#[test]
fn castling_is_blocked_where_the_king_would_cross_an_attacked_square() {
    let script = ChessemblyCompiled::new();
    let mut board = castling_board(&script);
    board.set_piece(&(5, 0), piece("rook", Color::Black));
    let legal = MoveGen::new_legal(&mut board);
    assert!(legal.iter().all(|m| m.move_type != MoveType::Castling));
    assert!(legal.iter().any(|m| m.from == (4, 7) && m.move_to == (3, 7)));
    assert!(legal.iter().all(|m| !(m.from == (4, 7) && m.move_to == (5, 7))));
}

#[test]
fn castling_is_offered_where_nothing_attacks() {
    let script = ChessemblyCompiled::new();
    let mut board = castling_board(&script);
    let legal = MoveGen::new_legal(&mut board);
    let castle = legal
        .iter()
        .find(|m| m.move_type == MoveType::Castling)
        .expect("castling");
    assert_eq!(castle.from, (4, 7));
    assert_eq!(castle.move_to, (6, 7));
    assert_eq!(castle.take, (6, 7));
    assert_eq!(
        castle.state_change,
        Some(vec![("castling-oo", 0u8), ("castling-ooo", 0u8)])
    );
    let after = board.make_move_new_nc(castle, true);
    assert_eq!(after.piece_on(&(6, 7)), Some("king"));
    assert_eq!(after.piece_on(&(5, 7)), Some("rook"));
    assert_eq!(after.color_on(&(7, 7)), None);
    assert_eq!(after.color_on(&(4, 7)), None);
    assert!(!after.state(Color::White).castling_oo);
}

#[test]
fn beacon_goes_to_its_own_pieces_but_not_to_pawns() {
    let script = ChessemblyCompiled::new();
    let mut board = Board::empty(&script, false, false);
    board.set_piece(&(0, 7), piece("beacon", Color::White));
    board.set_piece(&(1, 1), piece("pawn", Color::White));
    board.set_piece(&(2, 1), piece("pawn", Color::White));
    board.set_piece(&(3, 4), piece("knight", Color::White));
    let moves = script.get_moves(&mut board, &(0, 7), true);
    assert!(moves.iter().any(|m| m.move_type == MoveType::Shift
        && m.move_to == (3, 4)
        && m.take == (0, 7)
        && m.from == (0, 7)));
    assert!(moves.iter().all(|m| m.move_to != (1, 1) && m.move_to != (2, 1)));
    assert_eq!(moves.len(), 1);
}

#[test]
fn chameleon_catches_a_bishop_and_becomes_its_twin() {
    let script = ChessemblyCompiled::new();
    let mut board = Board::empty(&script, false, false);
    board.set_piece(&(3, 3), piece("chameleon", Color::White));
    board.set_piece(&(5, 5), piece("bishop", Color::Black));
    let legal = MoveGen::new_legal(&mut board);
    let catch = legal
        .iter()
        .find(|m| m.move_type == MoveType::Catch)
        .expect("the catch");
    assert_eq!(catch.take, (5, 5));
    assert_eq!(catch.move_to, (3, 3));
    assert_eq!(catch.from, (3, 3));
    assert_eq!(catch.transition, Some("mirrored-bishop"));
    let after = board.make_move_new_nc(catch, true);
    assert_eq!(after.piece_on(&(3, 3)), Some("mirrored-bishop"));
    assert_eq!(after.color_on(&(3, 3)), Some(Color::White));
    assert_eq!(after.color_on(&(5, 5)), None);
}

#[test]
fn forward_only_mode_keeps_the_rook_on_its_way_up_the_file() {
    let script = ChessemblyCompiled::new();
    let mut board = Board::empty(&script, true, false);
    board.set_piece(&(3, 3), piece("rook", Color::White));
    let moves = MoveGen::get_all_moves(&mut board, Color::White, true);
    assert_eq!(targets(&moves), vec![(3, 0), (3, 1), (3, 2)]);
    board.set_piece(&(6, 3), piece("pawn", Color::Black));
    let moves = MoveGen::get_all_moves(&mut board, Color::White, true);
    assert_eq!(targets(&moves), vec![(3, 0), (3, 1), (3, 2), (6, 3)]);
    let capture = moves.iter().find(|m| m.move_to == (6, 3)).unwrap();
    assert_eq!(capture.move_type, MoveType::Take);
}
