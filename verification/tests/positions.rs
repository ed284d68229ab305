use chessembly_bot::chessembly::board::{Board, BoardState, BothBoardState};
use chessembly_bot::chessembly::MoveGen;
use chessembly_bot::chessembly::ChessemblyCompiled;
use chessembly_bot::chessembly::{ChessMove, Color, GameResult, MoveType, Piece, PieceSpan, Position};
use chessembly_bot::engine::search::{evaluate, find_best_move, SearchError};
use chessembly_bot::request::setup_board;

const W: Color = Color::White;
const B: Color = Color::Black;

fn piece(kind: &'static str, color: Color) -> PieceSpan<'static> {
    PieceSpan::Piece(Piece { piece_type: kind, color })
}

fn program(text: &'static str) -> &'static ChessemblyCompiled<'static> {
    Box::leak(Box::new(ChessemblyCompiled::from_script(text).unwrap()))
}

fn board_with(pieces: &[(Position, &'static str, Color)], turn: Color) -> Board<'static> {
    let mut board = Board::empty(program(""), false, false);
    for (p, kind, color) in pieces {
        board.set_piece(p, piece(kind, *color));
    }
    board.set_turn(turn);
    board
}

fn squares(board: &Board) -> Vec<Option<(String, Color)>> {
    let mut v = Vec::new();
    for y in 0..8 {
        for x in 0..8 {
            v.push(match board.square(&(x, y)) {
                PieceSpan::Piece(p) => Some((p.piece_type.to_string(), p.color)),
                PieceSpan::Empty => None,
            });
        }
    }
    v
}

fn a_move(from: Position, take: Position, move_to: Position, ty: MoveType) -> ChessMove<'static> {
    ChessMove { from, take, move_to, move_type: ty, state_change: None, transition: None }
}

#[test]
fn an_empty_board() {
    let script = program("move(1,0)");
    let board = Board::empty(script, true, false);
    assert_eq!(board.get_width(), 8);
    assert_eq!(board.get_height(), 8);
    assert_eq!(board.side_to_move(), W);
    assert!(board.is_macho());
    assert!(!board.is_imprisoned());
    assert_eq!(board.script().chains.len(), 1);
    assert!(squares(&board).iter().all(|s| s.is_none()));
    for c in [W, B] {
        let side = board.state(c);
        assert!(!side.castling_oo && !side.castling_ooo);
        assert!(side.enpassant.is_empty() && side.register.is_empty());
    }
    assert_eq!(board.color_on(&(0, 0)), None);
    assert_eq!(board.piece_on(&(7, 7)), None);
    assert_eq!(board.color_on(&(8, 0)), None);
    assert_eq!(board.piece_on(&(0, 200)), None);
    let flags = Board::empty(script, false, true);
    assert!(!flags.is_macho() && flags.is_imprisoned());
}

#[test]
fn pieces_stand_where_they_are_put() {
    let mut board = Board::empty(program(""), false, false);
    board.set_piece(&(2, 5), piece("zebra", B));
    assert_eq!(board.piece_on(&(2, 5)), Some("zebra"));
    assert_eq!(board.color_on(&(2, 5)), Some(B));
    assert!(board.holds(&(2, 5), "zebra"));
    assert!(!board.holds(&(2, 5), "zebr"));
    assert!(!board.holds(&(5, 2), "zebra"));
    assert_eq!(squares(&board).iter().filter(|s| s.is_some()).count(), 1);
    assert_eq!(squares(&board)[8 * 5 + 2], Some(("zebra".to_string(), B)));
    board.set_piece(&(8, 5), piece("zebra", B));
    board.set_piece(&(2, 8), piece("zebra", B));
    assert_eq!(squares(&board).iter().filter(|s| s.is_some()).count(), 1);
    board.set_piece(&(2, 5), PieceSpan::Empty);
    assert!(squares(&board).iter().all(|s| s.is_none()));
    board.set_turn(B);
    assert_eq!(board.side_to_move(), B);
}

#[test]
fn registers_read_as_their_latest_entry() {
    let mut state = BoardState::new();
    assert_eq!(state.register_value("a"), 0);
    state.register = vec![("a", 1), ("b", 2), ("a", 3)];
    assert_eq!(state.register_value("a"), 3);
    assert_eq!(state.register_value("b"), 2);
    assert_eq!(state.register_value("c"), 0);
    assert_eq!(state.register_value(""), 0);
    state.enpassant = vec![(1, 2), (3, 4)];
    assert!(state.has_enpassant(&(3, 4)));
    assert!(!state.has_enpassant(&(4, 3)));
    let copy = state.duplicate();
    assert_eq!(copy.register, state.register);
    assert_eq!(copy.enpassant, state.enpassant);
}

#[test]
fn a_move_changes_its_own_squares_and_no_other() {
    let mut board = board_with(
        &[
            ((0, 0), "rook", B),
            ((4, 0), "king", B),
            ((3, 3), "queen", W),
            ((3, 1), "pawn", B),
            ((4, 7), "king", W),
            ((6, 6), "pawn", W),
        ],
        W,
    );
    let before = squares(&board);
    let script = board.script();
    let moves = script.get_moves(&mut board, &(3, 3), true);
    assert_eq!(moves.len(), 24);
    for m in &moves {
        let after = squares(&board.make_move_new_nc(m, true));
        for y in 0..8u8 {
            for x in 0..8u8 {
                let i = (8 * y + x) as usize;
                if (x, y) == m.from {
                    assert_eq!(after[i], None);
                } else if (x, y) == m.move_to {
                    assert_eq!(after[i], Some(("queen".to_string(), W)));
                } else {
                    assert_eq!(after[i], before[i], "{:?} {:?}", m, (x, y));
                }
            }
        }
    }
    assert_eq!(squares(&board), before);
}

#[test]
fn a_move_hands_the_turn_over_and_applies_its_updates() {
    let board = board_with(&[((4, 7), "king", W), ((0, 0), "king", B)], W);
    let mut m = a_move((4, 7), (4, 6), (4, 6), MoveType::TakeMove);
    m.state_change = Some(vec![
        ("castling-oo", 1),
        ("castling-ooo", 1),
        ("moved", 4),
        ("castling-oo", 0),
        ("enpassant", 1),
        ("moved", 5),
    ]);
    let after = board.make_move_new_nc(&m, true);
    assert_eq!(after.side_to_move(), B);
    let white = after.state(W);
    assert!(!white.castling_oo);
    assert!(white.castling_ooo);
    assert_eq!(white.register_value("moved"), 5);
    assert_eq!(white.register_value("enpassant"), 0);
    assert_eq!(white.register_value("castling-oo"), 0);
    assert_eq!(white.enpassant, vec![(4, 6)]);
    let black = after.state(B);
    assert!(!black.castling_oo && !black.castling_ooo);
    assert!(black.register.is_empty() && black.enpassant.is_empty());
    assert_eq!(board.side_to_move(), W);
    assert_eq!(board.state(W).register_value("moved"), 0);
    let back = after.make_move_new_nc(&a_move((0, 0), (1, 0), (1, 0), MoveType::TakeMove), true);
    assert_eq!(back.side_to_move(), W);
    assert_eq!(back.state(W).enpassant, vec![(4, 6)]);
    assert_eq!(back.state(W).register_value("moved"), 5);
    let next = back.make_move_new_nc(&a_move((4, 6), (4, 5), (4, 5), MoveType::TakeMove), true);
    assert!(next.state(W).enpassant.is_empty());
    assert!(next.state(W).castling_ooo);
}

#[test]
fn without_keeping_them_a_move_clears_the_squares_of_both_sides() {
    let mut board = board_with(&[((4, 6), "pawn", W), ((0, 1), "pawn", B)], W);
    let mut black = BoardState::new();
    black.enpassant = vec![(0, 3)];
    board.set_state(BothBoardState { white: BoardState::new(), black });
    let mut m = a_move((4, 6), (4, 4), (4, 4), MoveType::Move);
    m.state_change = Some(vec![("enpassant", 1)]);
    let kept = board.make_move_new_nc(&m, true);
    assert_eq!(kept.state(W).enpassant, vec![(4, 4)]);
    assert_eq!(kept.state(B).enpassant, vec![(0, 3)]);
    let cleared = board.make_move_new_nc(&m, false);
    assert!(cleared.state(W).enpassant.is_empty());
    assert!(cleared.state(B).enpassant.is_empty());
    assert_eq!(cleared.piece_on(&(4, 4)), Some("pawn"));
    m.state_change = Some(vec![("enpassant", 2)]);
    assert!(board.make_move_new_nc(&m, true).state(W).enpassant.is_empty());
}

#[test]
fn captures_off_the_landing_square() {
    let board = board_with(
        &[((3, 3), "chameleon", W), ((5, 5), "bishop", B), ((4, 3), "pawn", B), ((0, 7), "rook", W)],
        W,
    );
    let mut catch = a_move((3, 3), (5, 5), (3, 3), MoveType::Catch);
    catch.transition = Some("mirrored-bishop");
    let after = board.make_move_new_nc(&catch, true);
    assert_eq!(after.piece_on(&(3, 3)), Some("mirrored-bishop"));
    assert_eq!(after.color_on(&(5, 5)), None);
    assert_eq!(after.piece_on(&(4, 3)), Some("pawn"));
    let jump = a_move((3, 3), (4, 3), (5, 3), MoveType::TakeJump);
    let after = board.make_move_new_nc(&jump, true);
    assert_eq!(after.color_on(&(3, 3)), None);
    assert_eq!(after.color_on(&(4, 3)), None);
    assert_eq!(after.piece_on(&(5, 3)), Some("chameleon"));
    let shift = a_move((3, 3), (3, 3), (0, 7), MoveType::Shift);
    let after = board.make_move_new_nc(&shift, true);
    assert_eq!(after.color_on(&(3, 3)), None);
    assert_eq!(after.piece_on(&(0, 7)), Some("chameleon"));
    let nothing = board.make_move_new_nc(&a_move((1, 1), (1, 2), (1, 2), MoveType::Move), true);
    assert_eq!(squares(&nothing), squares(&board));
    assert_eq!(nothing.side_to_move(), B);
    let off = board.make_move_new_nc(&a_move((3, 3), (9, 9), (8, 3), MoveType::Move), true);
    assert_eq!(off.color_on(&(3, 3)), None);
    assert_eq!(squares(&off).iter().filter(|s| s.is_some()).count(), 3);
}

#[test]
fn castling_brings_the_rook_over() {
    let board = board_with(
        &[((4, 0), "king", B), ((0, 0), "rook", B), ((7, 0), "rook", B), ((4, 7), "king", W)],
        B,
    );
    let long = board.make_move_new_nc(&a_move((4, 0), (2, 0), (2, 0), MoveType::Castling), true);
    assert_eq!(long.piece_on(&(2, 0)), Some("king"));
    assert_eq!(long.piece_on(&(3, 0)), Some("rook"));
    assert_eq!(long.color_on(&(3, 0)), Some(B));
    assert_eq!(long.color_on(&(0, 0)), None);
    assert_eq!(long.color_on(&(4, 0)), None);
    assert_eq!(long.piece_on(&(7, 0)), Some("rook"));
    let short = board.make_move_new_nc(&a_move((4, 0), (6, 0), (6, 0), MoveType::Castling), true);
    assert_eq!(short.piece_on(&(6, 0)), Some("king"));
    assert_eq!(short.piece_on(&(5, 0)), Some("rook"));
    assert_eq!(short.color_on(&(7, 0)), None);
    assert_eq!(short.piece_on(&(0, 0)), Some("rook"));
    let step = board.make_move_new_nc(&a_move((4, 0), (6, 0), (6, 0), MoveType::TakeMove), true);
    assert_eq!(step.piece_on(&(7, 0)), Some("rook"));
    assert_eq!(step.color_on(&(5, 0)), None);
}

#[test]
fn a_pinned_piece_may_not_leave_its_line() {
    let mut board = board_with(
        &[((4, 7), "king", W), ((4, 6), "bishop", W), ((4, 0), "rook", B), ((0, 0), "king", B)],
        W,
    );
    let legal = MoveGen::new_legal(&mut board);
    assert!(legal.iter().all(|m| m.from == (4, 7)));
    assert_eq!(
        legal.iter().map(|m| m.move_to).collect::<Vec<_>>(),
        vec![(3, 7), (3, 6), (5, 7), (5, 6)]
    );
    let script = board.script();
    assert_eq!(script.get_moves(&mut board, &(4, 6), true).len(), 9);
    let unpinned = script.get_moves(&mut board, &(4, 6), true);
    assert!(script.filter_nodes(unpinned, &board).is_empty());
    for m in &legal {
        let mut after = board.make_move_new_nc(m, false);
        assert!(!script.is_check(&mut after, W));
    }
}

#[test]
fn a_king_may_not_step_into_an_attack_nor_stay_in_one() {
    let mut board = board_with(
        &[((4, 7), "king", W), ((0, 6), "rook", B), ((4, 0), "rook", B), ((7, 0), "king", B), ((1, 1), "knight", W)],
        W,
    );
    let script = board.script();
    assert!(script.is_check(&mut board, W));
    assert!(script.is_check_dbg(&mut board, W));
    assert!(!script.is_check(&mut board, B));
    assert!(!script.is_check_dbg(&mut board, B));
    let legal = MoveGen::new_legal(&mut board);
    assert_eq!(
        legal.iter().map(|m| (m.from, m.move_to)).collect::<Vec<_>>(),
        vec![((4, 7), (3, 7)), ((4, 7), (5, 7))]
    );
    assert!(MoveGen::has_any_moves(&mut board, W, true));
    let quiet = MoveGen::get_all_moves(&mut board, W, false);
    assert_eq!(quiet.len(), 4 + 5);
}

#[test]
fn mate_and_stalemate_leave_no_move() {
    let mut mate = board_with(&[((0, 0), "king", B), ((1, 1), "queen", W), ((2, 2), "king", W)], B);
    assert!(MoveGen::new_legal(&mut mate).is_empty());
    assert!(!MoveGen::has_any_moves(&mut mate, B, true));
    assert!(MoveGen::has_any_moves(&mut mate, B, false));
    assert!(MoveGen::has_any_moves(&mut mate, W, false));
    assert!(mate.script().is_check(&mut mate, B));
    assert_eq!(find_best_move(&mut mate, 2), Err(SearchError::NoMove));
    let mut stale = board_with(&[((0, 0), "king", B), ((1, 2), "queen", W), ((7, 7), "king", W)], B);
    assert!(MoveGen::new_legal(&mut stale).is_empty());
    assert!(!stale.script().is_check(&mut stale, B));
    assert_eq!(find_best_move(&mut stale, 1), Err(SearchError::NoMove));
    let mut nobody = board_with(&[], W);
    assert!(!MoveGen::has_any_moves(&mut nobody, W, true));
    assert!(!MoveGen::has_any_moves(&mut nobody, W, false));
    assert_eq!(find_best_move(&mut nobody, 3), Err(SearchError::NoMove));
}

#[test]
fn the_mask_has_one_bit_for_each_attacked_square() {
    let mut board = board_with(&[((0, 0), "knight", W), ((4, 6), "pawn", W), ((7, 7), "rook", B)], W);
    assert_eq!(MoveGen::get_danger_zones(&mut board, W), vec![(2, 1), (1, 2)]);
    let mask = MoveGen::get_danger_zones_bit(&mut board, W);
    assert_eq!(mask, (1u64 << 10) | (1u64 << 17));
    assert_eq!(mask.count_ones(), 2);
    let zones = MoveGen::get_danger_zones(&mut board, B);
    assert_eq!(zones.len(), 14);
    let mask = MoveGen::get_danger_zones_bit(&mut board, B);
    assert_eq!(mask.count_ones(), 14);
    for y in 0..8u8 {
        for x in 0..8u8 {
            let attacked = zones.contains(&(x, y));
            assert_eq!(mask & (1u64 << (8 * y + x)) != 0, attacked);
            assert_eq!(ChessemblyCompiled::is_danger_bit(mask, x, y), attacked);
            assert_eq!(attacked, (x == 7) != (y == 7));
        }
    }
    board.set_piece(&(6, 7), piece("queen", B));
    let zones = MoveGen::get_danger_zones(&mut board, B);
    let mask = MoveGen::get_danger_zones_bit(&mut board, B);
    let mut distinct = zones.clone();
    distinct.sort();
    distinct.dedup();
    assert!(distinct.len() < zones.len());
    assert_eq!(mask.count_ones() as usize, distinct.len());
    assert_eq!(MoveGen::get_danger_zones_bit(&mut Board::empty(program(""), false, false), W), 0);
}

#[test]
fn forward_only_mode_on_both_sides() {
    let mut board = Board::empty(program(""), true, false);
    board.set_piece(&(3, 3), piece("queen", B));
    board.set_piece(&(0, 3), piece("pawn", W));
    board.set_piece(&(5, 3), piece("pawn", B));
    let moves = MoveGen::get_all_moves(&mut board, B, false);
    let mut to: Vec<(Position, MoveType)> = moves.iter().map(|m| (m.move_to, m.move_type)).collect();
    to.sort_by_key(|x| x.0);
    assert_eq!(
        to,
        vec![
            ((0, 3), MoveType::Take),
            ((0, 6), MoveType::TakeMove),
            ((1, 5), MoveType::TakeMove),
            ((2, 4), MoveType::TakeMove),
            ((3, 4), MoveType::TakeMove),
            ((3, 5), MoveType::TakeMove),
            ((3, 6), MoveType::TakeMove),
            ((3, 7), MoveType::TakeMove),
            ((4, 4), MoveType::TakeMove),
            ((5, 4), MoveType::Move),
            ((5, 5), MoveType::TakeMove),
            ((6, 6), MoveType::TakeMove),
            ((7, 7), MoveType::TakeMove),
        ]
    );
    let loud = MoveGen::get_all_moves(&mut board, B, true);
    assert_eq!(loud, moves);
    let script = board.script();
    let stray = vec![a_move((1, 1), (1, 2), (1, 2), MoveType::Move)];
    assert!(script.filter_nodes(stray, &board).is_empty());
}

#[test]
fn the_material_of_a_position() {
    let mut board = board_with(
        &[
            ((0, 0), "queen", W),
            ((1, 0), "rook", W),
            ((2, 0), "pawn", W),
            ((0, 7), "knight", B),
            ((1, 7), "bishop", B),
            ((2, 7), "amazon", B),
        ],
        W,
    );
    assert_eq!(evaluate(&board), 9 + 5 + 1 - 3 - 3 - 12);
    board.set_turn(B);
    assert_eq!(evaluate(&board), 3);
    for (kind, value) in [
        ("king", 1000),
        ("chancellor", 8),
        ("archbishop", 7),
        ("centaur", 6),
        ("chameleon", 4),
        ("bouncing-bishop", 4),
        ("windmill-bishop", 4),
        ("windmill-rook", 5),
        ("tempest-rook", 5),
        ("alfil", 2),
        ("dozer", 2),
        ("zebra", 3),
        ("mirrored-pawn", 1),
        ("mirrored-queen", 9),
        ("mirrored-rook", 5),
        ("mirrored-knight", 3),
        ("mirrored-bishop", 3),
        ("something", 3),
    ] {
        let one = board_with(&[((4, 4), kind, W)], W);
        assert_eq!(evaluate(&one), value, "{}", kind);
    }
    assert_eq!(evaluate(&board_with(&[], B)), 0);
}

#[test]
fn the_search_takes_what_it_can_keep() {
    let mut board = board_with(
        &[((0, 7), "rook", W), ((0, 0), "queen", B), ((5, 7), "pawn", B), ((7, 7), "king", W), ((7, 0), "king", B)],
        W,
    );
    let best = find_best_move(&mut board, 1).unwrap();
    assert_eq!((best.from, best.move_to), ((0, 7), (0, 0)));
    let mut guarded = board_with(
        &[
            ((0, 7), "rook", W),
            ((0, 0), "pawn", B),
            ((1, 0), "rook", B),
            ((7, 7), "king", W),
            ((7, 5), "king", B),
            ((6, 2), "pawn", W),
        ],
        W,
    );
    let greedy = find_best_move(&mut guarded, 1).unwrap();
    assert_eq!((greedy.from, greedy.move_to), ((0, 7), (0, 0)));
    let careful = find_best_move(&mut guarded, 2).unwrap();
    assert_ne!((careful.from, careful.move_to), ((0, 7), (0, 0)));
}

#[test]
fn the_search_finds_the_mate() {
    let mut board = board_with(&[((0, 0), "king", B), ((1, 2), "king", W), ((7, 1), "rook", W)], W);
    for depth in [2, 3] {
        let best = find_best_move(&mut board, depth).unwrap();
        assert_eq!((best.from, best.move_to), ((7, 1), (7, 0)), "depth {}", depth);
        let mut after = board.make_move_new_nc(&best, true);
        assert!(MoveGen::new_legal(&mut after).is_empty());
        assert!(after.script().is_check(&mut after, B));
    }
}

#[test]
fn of_equal_moves_the_search_takes_the_first() {
    let mut board = board_with(&[((3, 4), "knight", W)], W);
    let legal = MoveGen::new_legal(&mut board);
    for depth in 1..=4 {
        assert_eq!(find_best_move(&mut board, depth).unwrap(), legal[0]);
    }
    assert_eq!(find_best_move(&mut board, 0), Err(SearchError::BadDepth));
    assert_eq!(find_best_move(&mut board, 5), Err(SearchError::BadDepth));
    assert_eq!(find_best_move(&mut board, 255), Err(SearchError::BadDepth));
}

#[test]
fn a_position_is_read_row_by_row() {
    let script = program("move(0,1)");
    let mut white = BoardState::new();
    white.castling_oo = true;
    white.register = vec![("a", 1)];
    let mut black = BoardState::new();
    black.enpassant = vec![(3, 3)];
    let board = setup_board(
        script,
        "rook:black - king:black/- pawn:black\t-  x:sideways//\n - - - - - - - queen:white -  late:white/1/2/3/ king:white/nine:white",
        BothBoardState { white, black },
        B,
        false,
        true,
    );
    let expected = [
        ((0, 0), "rook", B),
        ((2, 0), "king", B),
        ((1, 1), "pawn", B),
        ((3, 1), "x", B),
        ((7, 3), "queen", W),
        ((0, 8 - 1), "king", W),
    ];
    let all = squares(&board);
    assert_eq!(all.iter().filter(|s| s.is_some()).count(), expected.len());
    for (p, kind, color) in expected {
        assert_eq!(board.piece_on(&p), Some(kind), "{:?}", p);
        assert_eq!(board.color_on(&p), Some(color), "{:?}", p);
    }
    assert_eq!(board.side_to_move(), B);
    assert!(board.is_imprisoned() && !board.is_macho());
    assert!(board.state(W).castling_oo);
    assert_eq!(board.state(W).register_value("a"), 1);
    assert_eq!(board.state(B).enpassant, vec![(3, 3)]);
    assert_eq!(board.script().chains.len(), 1);
    let empty = setup_board(script, "", BothBoardState { white: BoardState::new(), black: BoardState::new() }, W, true, false);
    assert!(squares(&empty).iter().all(|s| s.is_none()));
    assert!(empty.is_macho());
    let colons = setup_board(script, "a:b:white :white white:", BothBoardState { white: BoardState::new(), black: BoardState::new() }, W, false, false);
    assert_eq!(colons.piece_on(&(0, 0)), Some("a"));
    assert_eq!(colons.color_on(&(0, 0)), Some(B));
    assert_eq!(colons.piece_on(&(1, 0)), Some(""));
    assert_eq!(colons.color_on(&(1, 0)), Some(W));
    assert_eq!(colons.piece_on(&(2, 0)), Some("white"));
    assert_eq!(colons.color_on(&(2, 0)), Some(B));
}

#[test]
fn a_script_piece_moves_the_same_for_both_sides_turned_round() {
    let script = program(
        "take-move(0,1) repeat(1);move(1,2);{ take(1,1) jump(1,1) } catch(-2,1);edge-top(0,3) set-state(far,1) shift(-1,-1);bound(0,-1) not transition(queen) peek(1,0) observe(0,2) move(0,1);if-state(k,2) anchor(2,0) friendly(1,1) not enemy(0,-1) take-move(0,-1)",
    );
    let pieces = [
        ((3, 5), "imp", W, 0u8),
        ((3, 2), "pawn", B, 0),
        ((4, 4), "pawn", B, 0),
        ((1, 4), "rook", B, 0),
        ((2, 6), "rook", W, 0),
        ((5, 6), "pawn", B, 0),
    ];
    let mut plain = Board::empty(script, false, false);
    let mut turned = Board::empty(script, false, false);
    for (p, kind, color, _) in pieces {
        plain.set_piece(&p, piece(kind, color));
        turned.set_piece(&(p.0, 7 - p.1), piece(kind, color.invert()));
    }
    let mut with_k = BoardState::new();
    with_k.register = vec![("k", 2)];
    let mut with_k_too = BoardState::new();
    with_k_too.register = vec![("k", 2)];
    plain.set_state(BothBoardState { white: with_k, black: BoardState::new() });
    turned.set_state(BothBoardState { white: BoardState::new(), black: with_k_too });
    turned.set_turn(B);
    let a = script.generate_moves(&mut plain, &(3, 5), false).unwrap();
    let b = script.generate_moves(&mut turned, &(3, 2), false).unwrap();
    assert_eq!(a.len(), 7);
    assert_eq!(a.len(), b.len());
    for (x, y) in a.iter().zip(b.iter()) {
        assert_eq!(x.from, (y.from.0, 7 - y.from.1));
        assert_eq!(x.take, (y.take.0, 7 - y.take.1));
        assert_eq!(x.move_to, (y.move_to.0, 7 - y.move_to.1));
        assert_eq!(x.move_type, y.move_type);
        assert_eq!(x.state_change, y.state_change);
        assert_eq!(x.transition, y.transition);
    }
}

#[test]
fn a_game_from_the_usual_array() {
    let script = program("");
    let back = "rook knight bishop queen king bishop knight rook";
    let row = |color: &str| {
        back.split(' ')
            .map(|k| format!("{}:{}", k, color))
            .collect::<Vec<_>>()
            .join(" ")
    };
    let pawns = |color: &str| vec![format!("pawn:{}", color); 8].join(" ");
    let text: &'static str = Box::leak(
        format!(
            "{}/{}/- - - - - - - -/-/-/-/{}/{}",
            row("black"),
            pawns("black"),
            pawns("white"),
            row("white")
        )
        .into_boxed_str(),
    );
    let mut white = BoardState::new();
    white.castling_oo = true;
    white.castling_ooo = true;
    let mut black = BoardState::new();
    black.castling_oo = true;
    black.castling_ooo = true;
    let mut board = setup_board(script, text, BothBoardState { white, black }, W, false, false);
    assert_eq!(evaluate(&board), 0);
    assert_eq!(MoveGen::new_legal(&mut board).len(), 20);
    assert!(!board.script().is_check(&mut board, W));
    let mut plies = 0;
    for depth in [3, 2, 3, 2, 1, 2] {
        let best = find_best_move(&mut board, depth).unwrap();
        let legal = MoveGen::new_legal(&mut board);
        assert!(legal.contains(&best));
        board = board.make_move_new_nc(&best, true);
        plies += 1;
    }
    assert_eq!(plies, 6);
    assert_eq!(board.side_to_move(), W);
    assert!(-3 <= evaluate(&board) && evaluate(&board) <= 3);
}

#[test]
fn sides_results_and_move_types_are_ordered_as_declared() {
    assert!(Color::White < Color::Black);
    assert!(GameResult::WhiteCheckmates < GameResult::WhiteResigns);
    assert!(GameResult::BlackResigns < GameResult::Stalemate);
    assert_eq!(GameResult::DrawAccepted.max(GameResult::BlackCheckmates), GameResult::DrawAccepted);
    let mut kinds = vec![
        MoveType::Castling,
        MoveType::Catch,
        MoveType::Move,
        MoveType::Shift,
        MoveType::TakeJump,
        MoveType::Take,
        MoveType::TakeMove,
    ];
    kinds.sort();
    assert_eq!(
        kinds,
        vec![
            MoveType::Move,
            MoveType::TakeMove,
            MoveType::Take,
            MoveType::TakeJump,
            MoveType::Catch,
            MoveType::Shift,
            MoveType::Castling,
        ]
    );
}

#[test]
fn moves_are_ordered_field_by_field() {
    let a = ChessMove {
        from: (1, 1),
        take: (2, 2),
        move_to: (2, 2),
        move_type: MoveType::TakeMove,
        state_change: None,
        transition: None,
    };
    let later_start = ChessMove { from: (1, 2), ..a.clone() };
    let other_kind = ChessMove { move_type: MoveType::Take, ..a.clone() };
    let with_state = ChessMove { state_change: Some(vec![("castling-oo", 0)]), ..a.clone() };
    let promoted = ChessMove { transition: Some("queen"), ..a.clone() };
    assert!(a < later_start);
    assert!(a < other_kind);
    assert!(a < with_state);
    assert!(a < promoted);
    assert!(other_kind < with_state || with_state < other_kind);
    assert_eq!(a.partial_cmp(&a.clone()), Some(std::cmp::Ordering::Equal));
}
