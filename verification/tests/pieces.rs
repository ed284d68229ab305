use chessembly_bot::chessembly::board::{Board, BoardState, BothBoardState};
use chessembly_bot::chessembly::script::ChessemblyCompiled;
use chessembly_bot::chessembly::{ChessMove, Color, MoveType, Piece, PieceSpan, Position};

const W: Color = Color::White;
const B: Color = Color::Black;

fn piece(kind: &'static str, color: Color) -> PieceSpan<'static> {
    PieceSpan::Piece(Piece { piece_type: kind, color })
}

fn program(text: &'static str) -> &'static ChessemblyCompiled<'static> {
    Box::leak(Box::new(ChessemblyCompiled::from_script(text).unwrap()))
}

fn board_with(pieces: &[(Position, &'static str, Color)]) -> Board<'static> {
    let mut board = Board::empty(program(""), false, false);
    for (p, kind, color) in pieces {
        board.set_piece(p, piece(kind, *color));
    }
    board
}

fn to(moves: &[ChessMove]) -> Vec<Position> {
    moves.iter().map(|m| m.move_to).collect()
}

fn sorted(moves: &[ChessMove]) -> Vec<Position> {
    let mut v = to(moves);
    v.sort();
    v
}

fn plain(moves: &[ChessMove], at: Position, ty: MoveType) -> bool {
    moves.iter().all(|m| {
        m.from == at
            && m.take == m.move_to
            && m.move_type == ty
            && m.state_change.is_none()
            && m.transition.is_none()
    })
}

#[test]
fn a_pawn_steps_once_or_twice_from_its_home_rank() {
    let g = program("");
    let board = board_with(&[((4, 6), "pawn", W), ((4, 1), "pawn", B), ((2, 5), "pawn", W)]);
    let white = g.generate_pawn_moves(&board, &(4, 6));
    assert_eq!(to(&white), vec![(4, 5), (4, 4)]);
    assert_eq!(white[0].state_change, None);
    assert_eq!(white[1].state_change, Some(vec![("enpassant", 1)]));
    assert!(white.iter().all(|m| m.move_type == MoveType::Move && m.take == m.move_to));
    let black = g.generate_pawn_moves(&board, &(4, 1));
    assert_eq!(to(&black), vec![(4, 2), (4, 3)]);
    assert_eq!(black[1].state_change, Some(vec![("enpassant", 1)]));
    let later = g.generate_pawn_moves(&board, &(2, 5));
    assert_eq!(to(&later), vec![(2, 4)]);
}

#[test]
fn a_pawn_is_blocked_by_any_piece_in_front_of_it() {
    let g = program("");
    let board = board_with(&[((4, 6), "pawn", W), ((4, 5), "pawn", B)]);
    assert!(g.generate_pawn_moves(&board, &(4, 6)).is_empty());
    let board = board_with(&[((4, 6), "pawn", W), ((4, 4), "pawn", W)]);
    assert_eq!(to(&g.generate_pawn_moves(&board, &(4, 6))), vec![(4, 5)]);
}

#[test]
fn a_pawn_captures_on_the_diagonals_in_front_of_it() {
    let g = program("");
    let board = board_with(&[
        ((4, 4), "pawn", W),
        ((3, 3), "knight", B),
        ((5, 3), "rook", B),
        ((3, 5), "rook", B),
    ]);
    let moves = g.generate_pawn_moves(&board, &(4, 4));
    assert_eq!(
        moves.iter().map(|m| (m.move_to, m.move_type)).collect::<Vec<_>>(),
        vec![
            ((4, 3), MoveType::Move),
            ((3, 3), MoveType::Take),
            ((5, 3), MoveType::Take),
        ]
    );
    let own = board_with(&[((4, 4), "pawn", W), ((3, 3), "knight", W)]);
    assert_eq!(to(&g.generate_pawn_moves(&own, &(4, 4))), vec![(4, 3)]);
    let edge = board_with(&[((0, 4), "pawn", B), ((1, 5), "rook", W)]);
    let moves = g.generate_pawn_moves(&edge, &(0, 4));
    assert_eq!(to(&moves), vec![(0, 5), (1, 5)]);
}

#[test]
fn a_pawn_becomes_one_of_four_pieces_on_the_last_rank() {
    let g = program("");
    let board = board_with(&[((4, 1), "pawn", W), ((5, 0), "rook", B)]);
    let moves = g.generate_pawn_moves(&board, &(4, 1));
    assert_eq!(moves.len(), 8);
    let kinds = [Some("knight"), Some("bishop"), Some("rook"), Some("queen")];
    for i in 0..4 {
        assert_eq!(moves[i].move_to, (4, 0));
        assert_eq!(moves[i].move_type, MoveType::Move);
        assert_eq!(moves[i].transition, kinds[i]);
        assert_eq!(moves[4 + i].move_to, (5, 0));
        assert_eq!(moves[4 + i].take, (5, 0));
        assert_eq!(moves[4 + i].move_type, MoveType::Take);
        assert_eq!(moves[4 + i].transition, kinds[i]);
    }
    let black = board_with(&[((0, 6), "pawn", B)]);
    let moves = g.generate_pawn_moves(&black, &(0, 6));
    assert_eq!(moves.len(), 4);
    assert!(moves.iter().all(|m| m.move_to == (0, 7)));
}

#[test]
fn a_pawn_on_the_last_rank_or_off_the_board_has_no_move() {
    let g = program("");
    let board = board_with(&[((4, 0), "pawn", W), ((4, 7), "pawn", B)]);
    assert!(g.generate_pawn_moves(&board, &(4, 0)).is_empty());
    assert!(g.generate_pawn_moves(&board, &(4, 7)).is_empty());
    assert!(g.generate_pawn_moves(&board, &(3, 3)).is_empty());
    assert!(g.generate_pawn_moves(&board, &(8, 3)).is_empty());
}

#[test]
fn a_pawn_takes_in_passing_what_the_other_side_has_marked() {
    let g = program("");
    let mut board = board_with(&[((4, 3), "pawn", W), ((3, 3), "pawn", B), ((5, 3), "pawn", B)]);
    assert_eq!(to(&g.generate_pawn_moves(&board, &(4, 3))), vec![(4, 2)]);
    let mut black = BoardState::new();
    black.enpassant = vec![(5, 3), (3, 3)];
    board.set_state(BothBoardState { white: BoardState::new(), black });
    let moves = g.generate_pawn_moves(&board, &(4, 3));
    assert_eq!(
        moves
            .iter()
            .map(|m| (m.take, m.move_to, m.move_type))
            .collect::<Vec<_>>(),
        vec![
            ((4, 2), (4, 2), MoveType::Move),
            ((3, 3), (3, 2), MoveType::TakeJump),
            ((5, 3), (5, 2), MoveType::TakeJump),
        ]
    );
    let mut white = BoardState::new();
    white.enpassant = vec![(5, 3), (3, 3)];
    board.set_state(BothBoardState { white, black: BoardState::new() });
    assert_eq!(to(&g.generate_pawn_moves(&board, &(4, 3))), vec![(4, 2)]);
}

#[test]
fn a_king_steps_to_the_squares_round_it() {
    let g = program("");
    let board = board_with(&[((4, 7), "king", W), ((3, 6), "pawn", W), ((5, 6), "pawn", B)]);
    let moves = g.generate_king_moves(&board, &(4, 7), 0);
    assert_eq!(to(&moves), vec![(3, 7), (4, 6), (5, 7), (5, 6)]);
    assert!(moves.iter().all(|m| m.move_type == MoveType::TakeMove
        && m.take == m.move_to
        && m.from == (4, 7)
        && m.state_change == Some(vec![("castling-oo", 0), ("castling-ooo", 0)])));
    let danger: u64 = (1 << (8 * 7 + 3)) | (1 << (8 * 6 + 5));
    let moves = g.generate_king_moves(&board, &(4, 7), danger);
    assert_eq!(to(&moves), vec![(4, 6), (5, 7)]);
    let middle = board_with(&[((3, 3), "king", B)]);
    assert_eq!(
        to(&g.generate_king_moves(&middle, &(3, 3), 0)),
        vec![(2, 4), (2, 3), (2, 2), (3, 4), (3, 2), (4, 4), (4, 3), (4, 2)]
    );
    assert!(g.generate_king_moves(&middle, &(0, 0), 0).is_empty());
}

fn castling_position(oo: bool, ooo: bool) -> Board<'static> {
    let mut board = board_with(&[((4, 7), "king", W), ((7, 7), "rook", W), ((0, 7), "rook", W)]);
    let mut white = BoardState::new();
    white.castling_oo = oo;
    white.castling_ooo = ooo;
    board.set_state(BothBoardState { white, black: BoardState::new() });
    board
}

fn castlings(moves: &[ChessMove]) -> Vec<Position> {
    moves
        .iter()
        .filter(|m| m.move_type == MoveType::Castling)
        .map(|m| m.move_to)
        .collect()
}

#[test]
fn a_king_castles_where_every_condition_holds() {
    let g = program("");
    let bit = |x: u8, y: u8| 1u64 << (8 * y + x);
    let both = castling_position(true, true);
    assert_eq!(castlings(&g.generate_king_moves(&both, &(4, 7), 0)), vec![(6, 7), (2, 7)]);
    let moves = g.generate_king_moves(&both, &(4, 7), 0);
    assert_eq!(moves.len(), 7);
    assert_eq!(moves[5].take, (6, 7));
    assert_eq!(
        moves[6].state_change,
        Some(vec![("castling-oo", 0), ("castling-ooo", 0)])
    );
    assert_eq!(
        castlings(&g.generate_king_moves(&castling_position(true, false), &(4, 7), 0)),
        vec![(6, 7)]
    );
    assert_eq!(
        castlings(&g.generate_king_moves(&castling_position(false, true), &(4, 7), 0)),
        vec![(2, 7)]
    );
    assert!(castlings(&g.generate_king_moves(&castling_position(false, false), &(4, 7), 0)).is_empty());
    assert!(castlings(&g.generate_king_moves(&both, &(4, 7), bit(4, 7))).is_empty());
    assert_eq!(castlings(&g.generate_king_moves(&both, &(4, 7), bit(5, 7))), vec![(2, 7)]);
    assert_eq!(castlings(&g.generate_king_moves(&both, &(4, 7), bit(6, 7))), vec![(2, 7)]);
    assert_eq!(castlings(&g.generate_king_moves(&both, &(4, 7), bit(3, 7))), vec![(6, 7)]);
    assert_eq!(castlings(&g.generate_king_moves(&both, &(4, 7), bit(2, 7))), vec![(6, 7)]);
    assert_eq!(
        castlings(&g.generate_king_moves(&both, &(4, 7), bit(1, 7) | bit(7, 7) | bit(0, 7))),
        vec![(6, 7), (2, 7)]
    );
}

#[test]
fn a_king_does_not_castle_over_pieces_or_without_its_rook() {
    let g = program("");
    for blocker in [(5, 7), (6, 7)] {
        let mut board = castling_position(true, true);
        board.set_piece(&blocker, piece("knight", W));
        assert_eq!(castlings(&g.generate_king_moves(&board, &(4, 7), 0)), vec![(2, 7)]);
    }
    for blocker in [(1, 7), (2, 7), (3, 7)] {
        let mut board = castling_position(true, true);
        board.set_piece(&blocker, piece("knight", B));
        assert_eq!(castlings(&g.generate_king_moves(&board, &(4, 7), 0)), vec![(6, 7)]);
    }
    let mut board = castling_position(true, true);
    board.set_piece(&(7, 7), piece("rook", B));
    board.set_piece(&(0, 7), piece("queen", W));
    assert!(castlings(&g.generate_king_moves(&board, &(4, 7), 0)).is_empty());
    let mut board = castling_position(true, true);
    board.set_piece(&(7, 7), PieceSpan::Empty);
    assert_eq!(castlings(&g.generate_king_moves(&board, &(4, 7), 0)), vec![(2, 7)]);
}

#[test]
fn riders_slide_until_they_meet_a_piece() {
    let g = program("");
    let board = board_with(&[((3, 4), "bishop", W)]);
    let moves = g.generate_bishop_moves(&board, &(3, 4));
    assert_eq!(
        to(&moves),
        vec![
            (4, 3), (5, 2), (6, 1), (7, 0),
            (4, 5), (5, 6), (6, 7),
            (2, 3), (1, 2), (0, 1),
            (2, 5), (1, 6), (0, 7),
        ]
    );
    assert!(plain(&moves, (3, 4), MoveType::TakeMove));
    let blocked = board_with(&[((3, 4), "bishop", W), ((5, 2), "pawn", B), ((2, 3), "pawn", W)]);
    assert_eq!(
        to(&g.generate_bishop_moves(&blocked, &(3, 4))),
        vec![(4, 3), (5, 2), (4, 5), (5, 6), (6, 7), (2, 5), (1, 6), (0, 7)]
    );
    let queen = g.generate_queen_moves(&board, &(3, 4));
    assert_eq!(queen.len(), 27);
    assert_eq!(to(&queen)[..4], [(4, 4), (5, 4), (6, 4), (7, 4)]);
    assert_eq!(to(&queen)[14..], to(&moves)[..]);
    let rook = g.generate_pseudo_rook_moves(&board, &(3, 4));
    assert_eq!(to(&rook), to(&queen)[..14].to_vec());
    assert!(g.generate_queen_moves(&board, &(0, 0)).is_empty());
}

#[test]
fn one_slide_and_one_step() {
    let g = program("");
    let board = board_with(&[((3, 4), "x", W), ((6, 4), "pawn", B), ((3, 2), "pawn", W)]);
    let mut moves = Vec::new();
    g.generate_ij_abs_take_move_slide(&mut moves, &board, &(3, 4), &(1, 0));
    assert_eq!(to(&moves), vec![(4, 4), (5, 4), (6, 4)]);
    g.generate_ij_abs_take_move_slide(&mut moves, &board, &(3, 4), &(0, 1));
    assert_eq!(to(&moves), vec![(4, 4), (5, 4), (6, 4), (3, 3)]);
    g.generate_ij_abs_take_move_slide(&mut moves, &board, &(3, 4), &(0, 0));
    g.generate_ij_abs_take_move_slide(&mut moves, &board, &(3, 4), &(0, 100));
    g.generate_ij_abs_take_move_slide(&mut moves, &board, &(0, 0), &(1, 0));
    assert_eq!(moves.len(), 4);
    g.generate_ij_abs_take_move_slide(&mut moves, &board, &(3, 4), &(-3, 3));
    assert_eq!(to(&moves)[4..], [(0, 1)]);
    let mut steps = Vec::new();
    assert!(g.generate_ij_abs_take_move(&mut steps, &board, &(3, 4), &(1, 0)));
    assert!(!g.generate_ij_abs_take_move(&mut steps, &board, &(3, 4), &(3, 0)));
    assert!(!g.generate_ij_abs_take_move(&mut steps, &board, &(3, 4), &(0, 2)));
    assert!(!g.generate_ij_abs_take_move(&mut steps, &board, &(3, 4), &(5, 0)));
    assert!(!g.generate_ij_abs_take_move(&mut steps, &board, &(3, 4), &(0, 0)));
    assert!(!g.generate_ij_abs_take_move(&mut steps, &board, &(1, 1), &(1, 0)));
    assert_eq!(to(&steps), vec![(4, 4), (6, 4)]);
    assert!(plain(&steps, (3, 4), MoveType::TakeMove));
}

#[test]
fn leapers_by_their_steps() {
    let g = program("");
    let board = board_with(&[((3, 4), "x", W), ((5, 3), "pawn", W), ((1, 3), "pawn", B)]);
    assert_eq!(
        to(&g.generate_knight_moves(&board, &(3, 4))),
        vec![(1, 3), (5, 5), (1, 5), (4, 2), (2, 2), (4, 6), (2, 6)]
    );
    let empty = board_with(&[((3, 4), "x", W)]);
    assert_eq!(
        to(&g.generate_ij_moves(&empty, &(3, 4), 3, 2)),
        vec![(6, 2), (0, 2), (6, 6), (0, 6), (5, 1), (1, 1), (5, 7), (1, 7)]
    );
    assert_eq!(
        to(&g.generate_ij_moves(&empty, &(3, 4), 4, 1)),
        vec![(7, 3), (7, 5), (4, 0), (2, 0)]
    );
    assert_eq!(
        to(&g.generate_ij_moves(&empty, &(3, 4), 3, 1)),
        vec![(6, 3), (0, 3), (6, 5), (0, 5), (4, 1), (2, 1), (4, 7), (2, 7)]
    );
    assert!(g.generate_ij_moves(&empty, &(3, 4), -128, 127).is_empty());
    assert_eq!(
        to(&g.generate_alfil_moves(&empty, &(3, 4))),
        vec![(5, 2), (5, 6), (1, 2), (1, 6)]
    );
    assert_eq!(
        to(&g.generate_bard_moves(&empty, &(3, 4))),
        vec![(5, 4), (1, 4), (3, 2), (3, 6), (5, 2), (5, 6), (1, 2), (1, 6)]
    );
    assert_eq!(
        to(&g.generate_dozer_moves(&empty, &(3, 4))),
        vec![(1, 3), (2, 3), (3, 3), (4, 3), (5, 3)]
    );
    let black = board_with(&[((3, 4), "x", B)]);
    assert_eq!(
        to(&g.generate_dozer_moves(&black, &(3, 4))),
        vec![(1, 5), (2, 5), (3, 5), (4, 5), (5, 5)]
    );
    assert!(g.generate_dozer_moves(&black, &(0, 0)).is_empty());
}

#[test]
fn compound_pieces_add_up_their_parts() {
    let g = program("");
    let board = board_with(&[((3, 4), "x", W)]);
    let knight = to(&g.generate_knight_moves(&board, &(3, 4)));
    let queen = to(&g.generate_queen_moves(&board, &(3, 4)));
    let bishop = to(&g.generate_bishop_moves(&board, &(3, 4)));
    let rook = to(&g.generate_pseudo_rook_moves(&board, &(3, 4)));
    assert_eq!(knight.len(), 8);
    assert_eq!(to(&g.generate_amazon_moves(&board, &(3, 4))), [knight.clone(), queen].concat());
    assert_eq!(
        to(&g.generate_archbishop_moves(&board, &(3, 4))),
        [knight.clone(), bishop].concat()
    );
    assert_eq!(
        to(&g.generate_chancellor_moves(&board, &(3, 4))),
        [knight.clone(), rook].concat()
    );
    assert_eq!(
        to(&g.generate_centaur_moves(&board, &(3, 4))),
        [
            knight,
            vec![(4, 4), (2, 4), (3, 3), (3, 5), (4, 3), (4, 5), (2, 3), (2, 5)]
        ]
        .concat()
    );
}

#[test]
fn a_rook_in_its_corner_gives_up_the_castling_right_of_that_corner() {
    let g = program("");
    for (at, color, mark) in [
        ((0, 7), W, Some("castling-ooo")),
        ((7, 7), W, Some("castling-oo")),
        ((0, 0), B, Some("castling-ooo")),
        ((7, 0), B, Some("castling-oo")),
        ((0, 0), W, None),
        ((7, 7), B, None),
        ((3, 7), W, None),
    ] {
        let board = board_with(&[(at, "rook", color)]);
        let moves = g.generate_rook_moves(&board, &at);
        assert_eq!(moves.len(), 14);
        for m in &moves {
            assert_eq!(m.state_change, mark.map(|k| vec![(k, 0)]), "{:?}", at);
            assert_eq!(m.move_type, MoveType::TakeMove);
            assert_eq!(m.from, at);
        }
    }
    let board = board_with(&[((3, 4), "rook", W), ((3, 2), "pawn", B), ((5, 4), "pawn", W)]);
    assert_eq!(
        to(&g.generate_rook_moves(&board, &(3, 4))),
        vec![(4, 4), (2, 4), (1, 4), (0, 4), (3, 3), (3, 2), (3, 5), (3, 6), (3, 7)]
    );
}

#[test]
fn a_wasp_flies_on_and_backs_off_sideways() {
    let g = program("");
    let board = board_with(&[((3, 4), "wasp", W), ((3, 1), "pawn", B), ((5, 6), "pawn", B)]);
    let moves = g.generate_wasp_moves(&board, &(3, 4));
    assert_eq!(
        moves.iter().map(|m| (m.move_to, m.move_type)).collect::<Vec<_>>(),
        vec![
            ((3, 3), MoveType::TakeMove),
            ((3, 2), MoveType::TakeMove),
            ((3, 1), MoveType::TakeMove),
            ((4, 5), MoveType::Move),
            ((2, 5), MoveType::Move),
            ((1, 6), MoveType::Move),
            ((0, 7), MoveType::Move),
        ]
    );
}

#[test]
fn a_cannon_takes_over_the_first_piece_of_the_other_side() {
    let g = program("");
    let board = board_with(&[((0, 7), "cannon", W), ((3, 7), "pawn", B), ((0, 5), "pawn", W)]);
    let moves = g.generate_cannon_moves(&board, &(0, 7));
    assert_eq!(
        moves
            .iter()
            .map(|m| (m.take, m.move_to, m.move_type))
            .collect::<Vec<_>>(),
        vec![
            ((3, 7), (4, 7), MoveType::TakeJump),
            ((3, 7), (5, 7), MoveType::TakeJump),
            ((3, 7), (6, 7), MoveType::TakeJump),
            ((3, 7), (7, 7), MoveType::TakeJump),
        ]
    );
    let walled = board_with(&[((0, 7), "cannon", W), ((3, 7), "pawn", B), ((4, 7), "pawn", B)]);
    assert!(g.generate_cannon_moves(&walled, &(0, 7)).is_empty());
}

#[test]
fn a_tempest_rook_turns_after_its_first_diagonal_step() {
    let g = program("");
    let board = board_with(&[((3, 4), "tempest-rook", W)]);
    let moves = g.generate_tempest_rook_moves(&board, &(3, 4));
    assert_eq!(
        sorted(&moves),
        vec![
            (0, 3), (0, 5), (1, 3), (1, 5),
            (2, 0), (2, 1), (2, 2), (2, 3), (2, 5), (2, 6), (2, 7),
            (4, 0), (4, 1), (4, 2), (4, 3), (4, 5), (4, 6), (4, 7),
            (5, 3), (5, 5), (6, 3), (6, 5), (7, 3), (7, 5),
        ]
    );
    assert!(plain(&moves, (3, 4), MoveType::TakeMove));
    let blocked = board_with(&[((3, 4), "tempest-rook", W), ((4, 3), "pawn", B), ((4, 5), "pawn", W)]);
    let moves = g.generate_tempest_rook_moves(&blocked, &(3, 4));
    assert!(to(&moves).contains(&(4, 3)));
    assert!(!to(&moves).contains(&(5, 3)) && !to(&moves).contains(&(4, 2)));
    assert!(!to(&moves).contains(&(4, 5)) && !to(&moves).contains(&(5, 5)));
}

#[test]
fn a_bouncing_bishop_turns_at_the_side_walls() {
    let g = program("");
    let board = board_with(&[((4, 4), "bouncing-bishop", W)]);
    let moves = g.generate_bouncing_bishop_moves(&board, &(4, 4));
    let squares = to(&moves);
    for s in [(5, 3), (6, 2), (7, 1), (6, 0), (3, 3), (0, 0), (5, 5), (7, 7), (3, 5), (1, 7), (0, 6)] {
        assert!(squares.contains(&s), "{:?}", s);
    }
    assert!(plain(&moves, (4, 4), MoveType::TakeMove));
    let mut unique = squares.clone();
    unique.sort();
    unique.dedup();
    assert_eq!(unique.len(), squares.len());
}

#[test]
fn windmill_pieces_change_their_kind_with_every_move() {
    let g = program("");
    let board = board_with(&[((3, 4), "windmill-rook", W), ((4, 4), "windmill-bishop", B)]);
    let rook = g.generate_windmill_rook_moves(&board, &(3, 4));
    assert_eq!(
        to(&rook),
        vec![(4, 4), (3, 3), (3, 2), (3, 1), (3, 0), (2, 4), (1, 4), (0, 4), (3, 5), (3, 6), (3, 7)]
    );
    assert!(rook.iter().all(|m| m.transition == Some("windmill-bishop")
        && m.move_type == MoveType::TakeMove));
    let bishop = g.generate_windmill_bishop_moves(&board, &(4, 4));
    assert_eq!(bishop.len(), 13);
    assert!(bishop.iter().all(|m| m.transition == Some("windmill-rook")));
    assert!(g.generate_windmill_rook_moves(&board, &(4, 4)).is_empty());
    assert!(g.generate_windmill_bishop_moves(&board, &(3, 4)).is_empty());
}

#[test]
fn a_chameleon_walks_to_empty_squares_and_catches_on_the_long_diagonals() {
    let g = program("");
    let board = board_with(&[
        ((3, 3), "chameleon", W),
        ((5, 5), "bishop", B),
        ((1, 1), "pawn", B),
        ((5, 1), "king", B),
        ((1, 5), "rook", W),
        ((4, 3), "pawn", B),
        ((3, 2), "pawn", W),
    ]);
    let moves = g.generate_chameleon_moves(&board, &(3, 3));
    assert_eq!(
        moves
            .iter()
            .map(|m| (m.take, m.move_to, m.move_type, m.transition))
            .collect::<Vec<_>>(),
        vec![
            ((2, 3), (2, 3), MoveType::Move, None),
            ((3, 4), (3, 4), MoveType::Move, None),
            ((4, 2), (4, 2), MoveType::Move, None),
            ((4, 4), (4, 4), MoveType::Move, None),
            ((2, 2), (2, 2), MoveType::Move, None),
            ((2, 4), (2, 4), MoveType::Move, None),
            ((5, 5), (3, 3), MoveType::Catch, Some("mirrored-bishop")),
            ((1, 1), (3, 3), MoveType::Catch, Some("mirrored-pawn")),
        ]
    );
    for (kind, twin) in [
        ("queen", "mirrored-queen"),
        ("knight", "mirrored-knight"),
        ("rook", "mirrored-rook"),
    ] {
        let board = board_with(&[((0, 0), "chameleon", B), ((2, 2), kind, W)]);
        let moves = g.generate_chameleon_moves(&board, &(0, 0));
        let catch = moves.last().unwrap();
        assert_eq!(catch.move_type, MoveType::Catch);
        assert_eq!(catch.transition, Some(twin));
        assert_eq!(moves.len(), 4);
    }
}

#[test]
fn a_mirrored_piece_becomes_the_twin_of_what_it_takes() {
    let g = program("");
    let board = board_with(&[
        ((3, 4), "mirrored-rook", W),
        ((3, 1), "queen", B),
        ((6, 4), "amazon", B),
        ((3, 6), "pawn", W),
    ]);
    let moves = g.generate_mirrored_moves(&board, &(3, 4), "mirrored-rook");
    assert_eq!(
        moves.iter().map(|m| (m.move_to, m.transition)).collect::<Vec<_>>(),
        vec![
            ((4, 4), None),
            ((5, 4), None),
            ((6, 4), None),
            ((2, 4), None),
            ((1, 4), None),
            ((0, 4), None),
            ((3, 3), None),
            ((3, 2), None),
            ((3, 1), Some("mirrored-queen")),
            ((3, 5), None),
        ]
    );
    assert!(g.generate_mirrored_moves(&board, &(3, 4), "rook").is_empty());
    assert_eq!(g.generate_mirrored_moves(&board, &(3, 4), "mirrored-queen").len(), 10 + 13);
    assert_eq!(g.generate_mirrored_moves(&board, &(3, 4), "mirrored-bishop").len(), 13);
    assert_eq!(g.generate_mirrored_moves(&board, &(3, 4), "mirrored-knight").len(), 8);
    let pawns = board_with(&[
        ((3, 4), "mirrored-pawn", W),
        ((4, 3), "knight", B),
        ((2, 3), "pawn", W),
    ]);
    let moves = g.generate_mirrored_moves(&pawns, &(3, 4), "mirrored-pawn");
    assert_eq!(
        moves
            .iter()
            .map(|m| (m.move_to, m.move_type, m.transition))
            .collect::<Vec<_>>(),
        vec![
            ((3, 3), MoveType::Move, None),
            ((4, 3), MoveType::Take, Some("mirrored-knight")),
        ]
    );
    assert_eq!(
        to(&g.generate_pseudo_pawn_moves(&pawns, &(3, 4))),
        vec![(3, 3), (4, 3)]
    );
}

#[test]
fn every_built_in_kind_is_found_by_its_name() {
    let script = program("move(0,1);move(0,2)");
    let mut board = Board::empty(script, false, false);
    for (kind, count) in [
        ("pawn", 1),
        ("king", 8),
        ("rook", 14),
        ("knight", 8),
        ("bishop", 13),
        ("queen", 27),
        ("tempest-rook", 24),
        ("dozer", 5),
        ("alfil", 4),
        ("bard", 8),
        ("wasp", 10),
        ("amazon", 35),
        ("chancellor", 22),
        ("archbishop", 21),
        ("centaur", 16),
        ("zebra", 8),
        ("giraffe", 4),
        ("camel", 8),
        ("beacon", 0),
        ("chameleon", 8),
        ("mirrored-pawn", 1),
        ("mirrored-bishop", 13),
        ("mirrored-rook", 14),
        ("mirrored-knight", 8),
        ("mirrored-queen", 27),
        ("windmill-rook", 14),
        ("windmill-bishop", 13),
        ("cannon", 2),
        ("anything", 2),
    ] {
        board.set_piece(&(3, 4), piece(kind, W));
        for danger in [false, true] {
            let moves = script.get_moves(&mut board, &(3, 4), danger);
            assert_eq!(moves.len(), count, "{}", kind);
            assert!(moves.iter().all(|m| m.from == (3, 4)));
            assert!(moves
                .iter()
                .all(|m| m.move_to.0 < 8 && m.move_to.1 < 8 && m.take.0 < 8 && m.take.1 < 8));
        }
        assert_eq!(script.moves_by_kind(&board, &(3, 4), 0, false).len(), count);
    }
    assert!(script.get_moves(&mut board, &(0, 0), true).is_empty());
    assert!(script.get_moves(&mut board, &(8, 8), false).is_empty());
    assert_eq!(script.get_moves(&mut board, &(3, 4), true).len(), 2);
}

#[test]
fn the_memo_follows_the_board() {
    let script = program("");
    let mut board = board_with(&[((3, 4), "rook", W)]);
    let first = script.get_moves(&mut board, &(3, 4), true);
    let again = script.get_moves(&mut board, &(3, 4), true);
    assert_eq!(first, again);
    assert_eq!(first.len(), 14);
    board.set_piece(&(3, 3), piece("pawn", W));
    assert_eq!(script.get_moves(&mut board, &(3, 4), true).len(), 10);
    board.set_piece(&(3, 3), piece("pawn", B));
    assert_eq!(script.get_moves(&mut board, &(3, 4), true).len(), 11);
    board.set_piece(&(3, 4), piece("king", W));
    board.set_piece(&(3, 3), PieceSpan::Empty);
    board.set_piece(&(7, 5), piece("rook", B));
    let loud = script.get_moves(&mut board, &(3, 4), true);
    let quiet = script.get_moves(&mut board, &(3, 4), false);
    assert_eq!(quiet.len(), 8);
    assert_eq!(to(&loud), vec![(2, 4), (2, 3), (3, 3), (4, 4), (4, 3)]);
    assert_eq!(script.get_moves(&mut board, &(3, 4), true), loud);
    assert_eq!(script.get_moves(&mut board, &(3, 4), false), quiet);
}

#[test]
fn what_a_move_says_of_itself() {
    let m = ChessMove {
        from: (1, 2),
        take: (3, 4),
        move_to: (5, 6),
        move_type: MoveType::TakeJump,
        state_change: Some(vec![("a", 1)]),
        transition: Some("queen"),
    };
    assert_eq!(m.get_source(), (1, 2));
    assert_eq!(m.get_dest(), (5, 6));
    assert_eq!(m.get_promotion(), &Some("queen"));
    assert_eq!(m.duplicate(), m);
    assert_eq!(m.clone(), m);
    assert_eq!(Color::White.invert(), Color::Black);
    assert_eq!(Color::Black.invert(), Color::White);
}

#[test]
fn no_two_moves_of_a_piece_share_their_squares() {
    let script = program("take-move(0,1) repeat(1);take-move(0,1);move(0,1);{ take(1,1) jump(-1,-1) } take(1,1)");
    let kinds = [
        "pawn", "king", "rook", "knight", "bishop", "queen", "tempest-rook", "bouncing-bishop",
        "dozer", "alfil", "bard", "wasp", "amazon", "chancellor", "archbishop", "centaur", "zebra",
        "giraffe", "camel", "beacon", "chameleon", "mirrored-pawn", "mirrored-bishop",
        "mirrored-rook", "mirrored-knight", "mirrored-queen", "windmill-rook", "windmill-bishop",
        "custom",
    ];
    for kind in kinds {
        for at in [(3u8, 4u8), (0, 0), (7, 7), (4, 7), (0, 3), (6, 2)] {
            let mut board = Board::empty(script, false, false);
            board.set_piece(&(5, 2), piece("rook", B));
            board.set_piece(&(1, 2), piece("pawn", B));
            board.set_piece(&(5, 6), piece("queen", B));
            board.set_piece(&(2, 6), piece("knight", W));
            board.set_piece(&(7, 7), piece("rook", W));
            board.set_piece(&(0, 7), piece("rook", W));
            let mut white = BoardState::new();
            white.castling_oo = true;
            white.castling_ooo = true;
            board.set_state(BothBoardState { white, black: BoardState::new() });
            board.set_piece(&at, piece(kind, W));
            for danger in [false, true] {
                let moves = script.get_moves(&mut board, &at, danger);
                let mut targets: Vec<(Position, Position)> =
                    moves.iter().map(|m| (m.take, m.move_to)).collect();
                targets.sort();
                let all = targets.len();
                targets.dedup();
                assert_eq!(targets.len(), all, "{} at {:?}", kind, at);
            }
        }
    }
    let mut board = Board::empty(script, false, false);
    board.set_piece(&(3, 1), piece("pawn", W));
    let moves = script.get_moves(&mut board, &(3, 1), true);
    assert_eq!(moves.len(), 4);
    assert!(moves.iter().all(|m| (m.take, m.move_to) == ((3, 0), (3, 0))));
}
