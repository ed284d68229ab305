use chessembly_bot::chessembly::behavior::{Behavior, Opcode};
use chessembly_bot::chessembly::script::ChessemblyCompiled;
use chessembly_bot::chessembly::Color;
use chessembly_bot::request::{
    decode_script, parse_depth, parse_flags, parse_register, parse_squares, parse_turn,
};
use chessembly_bot::text::{chars_of, is_whitespace, read_i8, read_u8, split_range, trim_range};

fn ops(chain: &[Behavior]) -> Vec<Opcode> {
    chain.iter().map(|b| b.op).collect()
}

#[test]
fn a_token_reads_as_its_instruction_and_operands() {
    let b = Behavior::from_str("take-move(1,-1)");
    assert_eq!(b.op, Opcode::TakeMove);
    assert_eq!(b.delta, (1, -1));
    assert_eq!(b.name, "");
    assert_eq!(b.count, 0);

    let b = Behavior::from_str("set-state(enpassant,1)");
    assert_eq!(b.op, Opcode::SetState);
    assert_eq!(b.name, "enpassant");
    assert_eq!(b.count, 1);

    let b = Behavior::from_str("piece-on(rook, -2, 0)");
    assert_eq!(b.op, Opcode::PieceOn);
    assert_eq!(b.name, "rook");
    assert_eq!(b.delta, (-2, 0));

    let b = Behavior::from_str("jmp(label0)");
    assert_eq!(b.op, Opcode::Jmp);
    assert_eq!(b.name, "label0");

    let b = Behavior::from_str("repeat(1)");
    assert_eq!(b.op, Opcode::Repeat);
    assert_eq!(b.count, 1);

    let b = Behavior::from_str("transition()");
    assert_eq!(b.op, Opcode::Transition);
    assert_eq!(b.name, "");
}

#[test]
fn every_instruction_name_is_known() {
    let names = [
        ("move(0,1)", Opcode::Move),
        ("take(0,1)", Opcode::Take),
        ("take-move(0,1)", Opcode::TakeMove),
        ("catch(0,1)", Opcode::Catch),
        ("jump(0,1)", Opcode::Jump),
        ("shift(0,1)", Opcode::Shift),
        ("anchor(0,1)", Opcode::Anchor),
        ("peek(0,1)", Opcode::Peek),
        ("observe(0,1)", Opcode::Observe),
        ("piece(x)", Opcode::Piece),
        ("piece-on(x,0,1)", Opcode::PieceOn),
        ("enemy(0,1)", Opcode::Enemy),
        ("friendly(0,1)", Opcode::Friendly),
        ("bound(0,1)", Opcode::Bound),
        ("edge(0,1)", Opcode::Edge),
        ("corner(0,1)", Opcode::Corner),
        ("edge-top(0,1)", Opcode::EdgeTop),
        ("edge-bottom(0,1)", Opcode::EdgeBottom),
        ("edge-left(0,1)", Opcode::EdgeLeft),
        ("edge-right(0,1)", Opcode::EdgeRight),
        ("corner-top-left(0,1)", Opcode::CornerTopLeft),
        ("corner-top-right(0,1)", Opcode::CornerTopRight),
        ("corner-bottom-left(0,1)", Opcode::CornerBottomLeft),
        ("corner-bottom-right(0,1)", Opcode::CornerBottomRight),
        ("check", Opcode::Check),
        ("danger(0,1)", Opcode::Danger),
        ("set-state(k,2)", Opcode::SetState),
        ("if-state(k,2)", Opcode::IfState),
        ("transition(queen)", Opcode::Transition),
        ("{", Opcode::BlockOpen),
        ("}", Opcode::BlockClose),
        ("not", Opcode::Not),
        ("do", Opcode::Do),
        ("while", Opcode::While),
        ("repeat(2)", Opcode::Repeat),
        ("label(a)", Opcode::Label),
        ("jmp(a)", Opcode::Jmp),
        ("jne(a)", Opcode::Jne),
    ];
    for (text, op) in names {
        assert_eq!(Behavior::from_str(text).op, op, "{}", text);
    }
}

#[test]
fn what_is_no_instruction_reads_as_unknown() {
    assert_eq!(Behavior::from_str("fly(1,1)").op, Opcode::Unknown);
    assert_eq!(Behavior::from_str("move(1)").op, Opcode::Unknown);
    assert_eq!(Behavior::from_str("move(1,2,3)").op, Opcode::Unknown);
    assert_eq!(Behavior::from_str("move(a,b)").op, Opcode::Unknown);
    assert_eq!(Behavior::from_str("move(1,128)").op, Opcode::Unknown);
    assert_eq!(Behavior::from_str("move").op, Opcode::Unknown);
    assert_eq!(Behavior::from_str("repeat(256)").op, Opcode::Unknown);
    assert_eq!(Behavior::from_str("repeat(-1)").op, Opcode::Unknown);
    assert_eq!(Behavior::from_str("set-state(k)").op, Opcode::Unknown);
    assert_eq!(Behavior::from_str("").op, Opcode::Unknown);
    assert_eq!(Behavior::from_str("Move(1,1)").op, Opcode::Unknown);
}

#[test]
fn operands_may_carry_signs_and_spaces() {
    let b = Behavior::from_str("move( +1 , -128 )");
    assert_eq!(b.op, Opcode::Move);
    assert_eq!(b.delta, (1, -128));
    let b = Behavior::from_str("move(127,-0)");
    assert_eq!(b.delta, (127, 0));
    let b = Behavior::from_str("if-state( flag , 255 )");
    assert_eq!(b.op, Opcode::IfState);
    assert_eq!(b.name, "flag");
    assert_eq!(b.count, 255);
}

#[test]
fn black_sees_the_ranks_turned_round() {
    let b = Behavior::from_str("move(2,1)");
    assert_eq!(b.reflect_turn(Color::White).delta, (2, 1));
    assert_eq!(b.reflect_turn(Color::Black).delta, (2, -1));
    let far = Behavior::from_str("move(0,-128)");
    assert_eq!(far.reflect_turn(Color::Black).delta, (0, 127));
    assert_eq!(far.reflect_turn(Color::Black).op, Opcode::Move);
}

#[test]
fn a_script_compiles_to_one_chain_for_each_piece_between_semicolons() {
    let program =
        ChessemblyCompiled::from_script("take-move(1, 0) repeat(1);take-move(-1, 0) repeat(1);")
            .unwrap();
    assert_eq!(program.chains.len(), 2);
    assert_eq!(ops(&program.chains[0]), vec![Opcode::TakeMove, Opcode::Repeat]);
    assert_eq!(program.chains[0][0].delta, (1, 0));
    assert_eq!(program.chains[1][0].delta, (-1, 0));
    assert_eq!(program.chains[1][1].count, 1);
}

#[test]
fn comments_and_blank_pieces_make_no_chain() {
    let program = ChessemblyCompiled::from_script(
        "  # the rook slides;\n move(0,1) ;   ;\t\n;#another;take(1,1)",
    )
    .unwrap();
    assert_eq!(program.chains.len(), 2);
    assert_eq!(ops(&program.chains[0]), vec![Opcode::Move]);
    assert_eq!(ops(&program.chains[1]), vec![Opcode::Take]);
    assert_eq!(ChessemblyCompiled::from_script("").unwrap().chains.len(), 0);
    assert_eq!(ChessemblyCompiled::from_script(";;;").unwrap().chains.len(), 0);
}

#[test]
fn a_comment_line_ends_at_its_newline() {
    let program = ChessemblyCompiled::from_script("# c\nmove(0,1);").unwrap();
    assert_eq!(program.chains.len(), 1);
    assert_eq!(ops(&program.chains[0]), vec![Opcode::Move]);
    assert_eq!(program.chains[0][0].delta, (0, 1));
}

#[test]
fn comment_lines_inside_a_chain_are_left_out() {
    let program = ChessemblyCompiled::from_script(
        "take(1,0)\n  # sideways first; then up\n\t#more\nmove(0,1) peek(0,\n1)\n#end\n;\n# only this\n ;jump(2,1)",
    )
    .unwrap();
    assert_eq!(program.chains.len(), 3);
    assert_eq!(ops(&program.chains[0]), vec![Opcode::Take]);
    assert_eq!(program.chains[0][0].delta, (1, 0));
    assert_eq!(
        ops(&program.chains[1]),
        vec![Opcode::Unknown, Opcode::Unknown, Opcode::Move, Opcode::Peek]
    );
    assert_eq!(program.chains[1][2].delta, (0, 1));
    assert_eq!(program.chains[1][3].delta, (0, 1));
    assert_eq!(ops(&program.chains[2]), vec![Opcode::Jump]);
}

#[test]
fn a_hash_inside_a_line_is_no_comment() {
    let program = ChessemblyCompiled::from_script("x# move(0,1)\n;\r\n # y\r\n take(1,1)").unwrap();
    assert_eq!(program.chains.len(), 2);
    assert_eq!(ops(&program.chains[0]), vec![Opcode::Unknown, Opcode::Move]);
    assert_eq!(ops(&program.chains[1]), vec![Opcode::Take]);
}

#[test]
fn a_token_ends_where_whitespace_stands_before_a_letter_or_a_brace() {
    let program = ChessemblyCompiled::from_script(
        "piece(windmill-rook) transition(windmill-bishop) { take-move(1, 0) repeat(1) }",
    )
    .unwrap();
    assert_eq!(program.chains.len(), 1);
    assert_eq!(
        ops(&program.chains[0]),
        vec![
            Opcode::Piece,
            Opcode::Transition,
            Opcode::BlockOpen,
            Opcode::TakeMove,
            Opcode::Repeat,
            Opcode::BlockClose,
        ]
    );
    assert_eq!(program.chains[0][0].name, "windmill-rook");
    assert_eq!(program.chains[0][1].name, "windmill-bishop");
    assert_eq!(program.chains[0][3].delta, (1, 0));
}

#[test]
fn whitespace_before_a_digit_ends_no_token() {
    let program = ChessemblyCompiled::from_script("move(1, 1) 7 take(2,\n2)").unwrap();
    assert_eq!(ops(&program.chains[0]), vec![Opcode::Unknown, Opcode::Take]);
    assert_eq!(program.chains[0][1].delta, (2, 2));
}

#[test]
fn building_a_program_by_hand() {
    let mut program = ChessemblyCompiled::new();
    assert_eq!(program.chains.len(), 0);
    program.push_behavior(Behavior::plain(Opcode::Not));
    assert_eq!(program.chains.len(), 0);
    program.add_command();
    program.push_behavior(Behavior::with_delta(Opcode::Move, (0, 1)));
    program.add_command();
    program.push_behavior(Behavior::with_name(Opcode::Label, "a"));
    program.push_behavior(Behavior::with_count(Opcode::Repeat, 1));
    program.push_behavior(Behavior::with_state(Opcode::SetState, "k", 9));
    assert_eq!(program.chains.len(), 2);
    assert_eq!(ops(&program.chains[0]), vec![Opcode::Move]);
    assert_eq!(
        ops(&program.chains[1]),
        vec![Opcode::Label, Opcode::Repeat, Opcode::SetState]
    );
    assert_eq!(program.chains[1][2].name, "k");
    assert_eq!(program.chains[1][2].count, 9);
}

#[test]
fn non_ascii_text_compiles_without_a_panic() {
    let program = ChessemblyCompiled::from_script("piece(König) move(1,1);# – ;é").unwrap();
    assert_eq!(program.chains.len(), 2);
    assert_eq!(program.chains[0][0].name, "König");
    assert_eq!(program.chains[1][0].op, Opcode::Unknown);
}

#[test]
fn percent_decoding_of_a_script() {
    assert_eq!(
        decode_script("take-move%281%2C%200%29%20repeat(1)%3B"),
        Some("take-move(1, 0) repeat(1);".to_string())
    );
    assert_eq!(decode_script("plain"), Some("plain".to_string()));
    assert_eq!(decode_script("a+b%2"), Some("a+b%2".to_string()));
    assert_eq!(decode_script("%ff"), None);
    assert_eq!(decode_script("%E2%99%9C"), Some("\u{265C}".to_string()));
}

#[test]
fn a_depth_is_between_one_and_four_and_three_where_it_is_no_number() {
    assert_eq!(parse_depth("1"), Some(1));
    assert_eq!(parse_depth("4"), Some(4));
    assert_eq!(parse_depth("+2"), Some(2));
    assert_eq!(parse_depth("0"), None);
    assert_eq!(parse_depth("5"), None);
    assert_eq!(parse_depth("255"), None);
    assert_eq!(parse_depth("256"), Some(3));
    assert_eq!(parse_depth(""), Some(3));
    assert_eq!(parse_depth("deep"), Some(3));
    assert_eq!(parse_depth(" 2"), Some(3));
    assert_eq!(parse_depth("-1"), Some(3));
}

#[test]
fn castling_flags_are_the_first_two_characters() {
    assert_eq!(parse_flags("11"), (true, true));
    assert_eq!(parse_flags("10"), (true, false));
    assert_eq!(parse_flags("01"), (false, true));
    assert_eq!(parse_flags("1"), (true, false));
    assert_eq!(parse_flags(""), (false, false));
    assert_eq!(parse_flags("x1y"), (false, true));
    assert_eq!(parse_flags("tt"), (false, false));
}

#[test]
fn squares_are_items_with_a_comma() {
    assert_eq!(parse_squares("4,4"), vec![(4, 4)]);
    assert_eq!(parse_squares("4,4/0,7"), vec![(4, 4), (0, 7)]);
    assert_eq!(parse_squares(""), Vec::<(u8, u8)>::new());
    assert_eq!(parse_squares("none"), Vec::<(u8, u8)>::new());
    assert_eq!(parse_squares("a,3/2,b/,"), vec![(0, 3), (2, 0), (0, 0)]);
    assert_eq!(parse_squares("1,2,3"), vec![(1, 0)]);
    assert_eq!(parse_squares("300,2"), vec![(0, 2)]);
}

#[test]
fn register_entries_are_items_with_a_comma() {
    assert_eq!(parse_register("moved,1"), vec![("moved", 1)]);
    assert_eq!(
        parse_register("a,1/b,2/a,3"),
        vec![("a", 1), ("b", 2), ("a", 3)]
    );
    assert_eq!(parse_register(""), Vec::<(&str, u8)>::new());
    assert_eq!(parse_register("k,x/,7"), vec![("k", 0), ("", 7)]);
}

#[test]
fn the_side_is_white_only_for_the_word_white() {
    assert_eq!(parse_turn("white"), Color::White);
    assert_eq!(parse_turn("black"), Color::Black);
    assert_eq!(parse_turn("White"), Color::Black);
    assert_eq!(parse_turn(""), Color::Black);
}

#[test]
fn text_helpers_on_characters() {
    let v = chars_of("  a b\t");
    assert_eq!(v, vec![' ', ' ', 'a', ' ', 'b', '\t']);
    assert_eq!(trim_range(&v, 0, v.len()), (2, 5));
    assert_eq!(trim_range(&v, 0, 2), (2, 2));
    assert_eq!(trim_range(&v, 3, 4), (4, 4));
    let s = chars_of("a;;b;");
    assert_eq!(
        split_range(&s, ';', 0, s.len()),
        vec![(0, 1), (2, 2), (3, 4), (5, 5)]
    );
    let e = chars_of("");
    assert_eq!(split_range(&e, ';', 0, 0), vec![(0, 0)]);
    assert!(is_whitespace(' ') && is_whitespace('\n') && is_whitespace('\u{3000}'));
    assert!(is_whitespace('\u{85}') && is_whitespace('\u{a0}') && is_whitespace('\u{2028}'));
    assert!(!is_whitespace('a') && !is_whitespace('\u{200b}') && !is_whitespace('\u{0}'));
    for c in ['\u{9}', '\u{d}', '\u{1680}', '\u{2000}', '\u{200a}', '\u{202f}', '\u{205f}'] {
        assert_eq!(is_whitespace(c), c.is_whitespace());
    }
}

#[test]
fn numbers_in_base_ten() {
    let n = |t: &str| {
        let v = chars_of(t);
        read_u8(&v, 0, v.len())
    };
    let i = |t: &str| {
        let v = chars_of(t);
        read_i8(&v, 0, v.len())
    };
    assert_eq!(n("0"), Some(0));
    assert_eq!(n("007"), Some(7));
    assert_eq!(n("255"), Some(255));
    assert_eq!(n("256"), None);
    assert_eq!(n("99999999999999999999"), None);
    assert_eq!(n("+"), None);
    assert_eq!(n("-0"), None);
    assert_eq!(n("1a"), None);
    assert_eq!(i("-128"), Some(-128));
    assert_eq!(i("127"), Some(127));
    assert_eq!(i("+127"), Some(127));
    assert_eq!(i("128"), None);
    assert_eq!(i("-129"), None);
    assert_eq!(i("-"), None);
    assert_eq!(i("--1"), None);
    assert_eq!(i("+-1"), None);
    for t in ["12", "-5", "+5", "x", "", "300", "-128", "0000000042"] {
        assert_eq!(n(t), t.parse::<u8>().ok(), "{}", t);
        assert_eq!(i(t), t.parse::<i8>().ok(), "{}", t);
    }
}
