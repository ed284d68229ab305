//! The values of a request: how the text of each field reads as a depth, as
//! flags, squares, registers, a side, a script and a position.

use vstd::prelude::*;
use crate::chessembly::board::{Board, BoardView, BothBoardState, put};
use crate::chessembly::script::ChessemblyCompiled;
use crate::chessembly::{changes_view, Color, Piece, PieceSpan, Position, Square};
use crate::text::{
    chars_of, is_space, is_whitespace, read_u8, same_text, split_bounds, split_range, u8_of,
};

verus! {

/// Trusted: `std::string::FromUtf8Error`, the error of the standard library
/// for bytes that are no UTF-8 text. Nothing is claimed of what it holds.
#[verifier::external_type_specification]
#[verifier::external_body]
pub struct ExFromUtf8Error(std::string::FromUtf8Error);

/// Whether a text holds the sign that begins an escape.
pub open spec fn has_escape(text: Seq<char>) -> bool {
    text.contains('%')
}

/// The text of a decoding that went well.
pub open spec fn decoded_text(r: Result<String, std::string::FromUtf8Error>) -> Option<Seq<char>> {
    match r {
        Ok(s) => Some(s@),
        Err(_) => None,
    }
}

/// What the text that `urlencoding::decode` makes of a percent-encoded text
/// is, where the decoded bytes are UTF-8 text. The decoding is a function
/// of the text alone.
pub uninterp spec fn percent_decoded(text: Seq<char>) -> Option<Seq<char>>;

/// Trusted: `urlencoding::decode`. The contract names its result: the same
/// text always decodes to the same text, or always fails. It claims one
/// thing more, which the source shows: a text without `%` decodes to itself.
#[verifier::external_body]
fn decode_percent(text: &str) -> (r: Result<String, std::string::FromUtf8Error>)
    ensures
        decoded_text(r) == percent_decoded(text@),
        has_escape(text@) || decoded_text(r) == Some(text@),
{
    match urlencoding::decode(text) {
        Ok(decoded) => Ok(decoded.into_owned()),
        Err(e) => Err(e),
    }
}

/// The text of a script from its percent-encoded form, where there is one.
pub fn decode_script(text: &str) -> (r: Option<String>)
    ensures
        r is Some <==> percent_decoded(text@) is Some,
        r matches Some(s) ==> percent_decoded(text@) == Some(s@),
        !has_escape(text@) ==> r is Some,
        !has_escape(text@) ==> r->Some_0@ == text@,
{
    match decode_percent(text) {
        Ok(s) => Some(s),
        Err(_) => None,
    }
}

/// The depth that a field asks for: what it reads as a number, 3 where it
/// is none; no depth outside 1 to 4.
pub open spec fn depth_of(s: Seq<char>) -> Option<u8> {
    let d = match u8_of(s) {
        Some(d) => d,
        None => 3u8,
    };
    if 1 <= d <= 4 {
        Some(d)
    } else {
        None
    }
}

/// The depth that a field asks for.
pub fn parse_depth(text: &str) -> (r: Option<u8>)
    ensures
        r == depth_of(text@),
{
    let chars = chars_of(text);
    proof {
        assert(chars@.subrange(0, chars@.len() as int) =~= chars@);
    }
    let d = match read_u8(&chars, 0, chars.len()) {
        Some(d) => d,
        None => 3,
    };
    if 1 <= d && d <= 4 {
        Some(d)
    } else {
        None
    }
}

/// A flag of a field: set where the character at `i` is `1`.
pub open spec fn flag_at(s: Seq<char>, i: int) -> bool {
    0 <= i < s.len() && s[i] == '1'
}

/// The two flags of a field, White's first.
pub fn parse_flags(text: &str) -> (r: (bool, bool))
    ensures
        r == (flag_at(text@, 0), flag_at(text@, 1)),
{
    let chars = chars_of(text);
    let white = chars.len() > 0 && chars[0] == '1';
    let black = chars.len() > 1 && chars[1] == '1';
    (white, black)
}

/// The side that a field names: White for `white`, Black for anything else.
pub open spec fn side_of(s: Seq<char>) -> Color {
    if s == "white"@ {
        Color::White
    } else {
        Color::Black
    }
}

/// The side that a field names.
pub fn parse_turn(text: &str) -> (r: Color)
    ensures
        r == side_of(text@),
{
    if same_text(text, "white") {
        Color::White
    } else {
        Color::Black
    }
}

/// The first index in `[lo, hi)` that holds `c`, or `hi`.
pub open spec fn find_char(s: Seq<char>, c: char, lo: int, hi: int) -> int
    decreases hi - lo,
{
    if lo >= hi || lo < 0 || hi > s.len() {
        hi
    } else if s[lo] == c {
        lo
    } else {
        find_char(s, c, lo + 1, hi)
    }
}

fn find_in(v: &Vec<char>, c: char, lo: usize, hi: usize) -> (r: usize)
    requires
        lo <= hi <= v@.len(),
    ensures
        r as int == find_char(v@, c, lo as int, hi as int),
        lo <= r <= hi,
{
    let mut i: usize = lo;
    while i < hi && v[i] != c
        invariant
            lo <= i <= hi <= v@.len(),
            find_char(v@, c, i as int, hi as int) == find_char(v@, c, lo as int, hi as int),
        decreases hi - i,
    {
        i = i + 1;
    }
    i
}

/// What a text reads as a number, 0 where it is none.
pub open spec fn number_or_zero(s: Seq<char>) -> u8 {
    match u8_of(s) {
        Some(n) => n,
        None => 0u8,
    }
}

fn read_or_zero(v: &Vec<char>, lo: usize, hi: usize) -> (r: u8)
    requires
        lo <= hi <= v@.len(),
    ensures
        r == number_or_zero(v@.subrange(lo as int, hi as int)),
{
    match read_u8(v, lo, hi) {
        Some(n) => n,
        None => 0,
    }
}

/// The squares of the first `n` items of a field: an item `x,y` is a
/// square, an item without a comma is none.
pub open spec fn squares_upto(s: Seq<char>, items: Seq<(int, int)>, n: int) -> Seq<Position>
    decreases n,
{
    if n <= 0 {
        Seq::empty()
    } else {
        let before = squares_upto(s, items, n - 1);
        let (lo, hi) = items[n - 1];
        let k = find_char(s, ',', lo, hi);
        if k < hi {
            before.push(
                (number_or_zero(s.subrange(lo, k)), number_or_zero(s.subrange(k + 1, hi))),
            )
        } else {
            before
        }
    }
}

/// The squares that a field lists, its items parted by `/`.
pub open spec fn squares_of(s: Seq<char>) -> Seq<Position> {
    let items = split_bounds(s, '/', 0, s.len() as int);
    squares_upto(s, items, items.len() as int)
}

/// The squares that a field lists.
pub fn parse_squares(text: &str) -> (r: Vec<Position>)
    ensures
        r@ == squares_of(text@),
{
    let chars = chars_of(text);
    let items = split_range(&chars, '/', 0, chars.len());
    let ghost s = chars@;
    let ghost bounds = split_bounds(s, '/', 0, s.len() as int);
    let mut out: Vec<Position> = Vec::new();
    let mut n: usize = 0;
    while n < items.len()
        invariant
            n <= items@.len() == bounds.len(),
            s == chars@,
            forall|i: int|
                0 <= i < items@.len() ==> (#[trigger] items@[i].0 as int, items@[i].1 as int)
                    == bounds[i],
            forall|i: int|
                0 <= i < items@.len() ==> (#[trigger] items@[i]).0 <= items@[i].1 <= chars@.len(),
            out@ == squares_upto(s, bounds, n as int),
        decreases items@.len() - n,
    {
        let (lo, hi) = items[n];
        assert((items@[n as int].0 as int, items@[n as int].1 as int) == bounds[n as int]);
        let k = find_in(&chars, ',', lo, hi);
        if k < hi {
            let x = read_or_zero(&chars, lo, k);
            let y = read_or_zero(&chars, k + 1, hi);
            out.push((x, y));
        }
        n = n + 1;
    }
    out
}

/// The register entries of the first `n` items of a field: an item
/// `name,value` is an entry, an item without a comma is none.
pub open spec fn entries_upto(s: Seq<char>, items: Seq<(int, int)>, n: int) -> Seq<
    (Seq<char>, u8),
>
    decreases n,
{
    if n <= 0 {
        Seq::empty()
    } else {
        let before = entries_upto(s, items, n - 1);
        let (lo, hi) = items[n - 1];
        let k = find_char(s, ',', lo, hi);
        if k < hi {
            before.push((s.subrange(lo, k), number_or_zero(s.subrange(k + 1, hi))))
        } else {
            before
        }
    }
}

/// The register entries that a field lists, its items parted by `/`. Of two
/// entries of one name the later one counts.
pub open spec fn entries_of(s: Seq<char>) -> Seq<(Seq<char>, u8)> {
    let items = split_bounds(s, '/', 0, s.len() as int);
    entries_upto(s, items, items.len() as int)
}

/// The register entries that a field lists.
pub fn parse_register<'a>(text: &'a str) -> (r: Vec<(&'a str, u8)>)
    ensures
        changes_view(r@) == entries_of(text@),
{
    let chars = chars_of(text);
    let items = split_range(&chars, '/', 0, chars.len());
    let ghost s = chars@;
    let ghost bounds = split_bounds(s, '/', 0, s.len() as int);
    let mut out: Vec<(&'a str, u8)> = Vec::new();
    let mut n: usize = 0;
    proof {
        assert(changes_view(out@) =~= Seq::empty());
    }
    while n < items.len()
        invariant
            n <= items@.len() == bounds.len(),
            s == chars@,
            s == text@,
            forall|i: int|
                0 <= i < items@.len() ==> (#[trigger] items@[i].0 as int, items@[i].1 as int)
                    == bounds[i],
            forall|i: int|
                0 <= i < items@.len() ==> (#[trigger] items@[i]).0 <= items@[i].1 <= chars@.len(),
            changes_view(out@) == entries_upto(s, bounds, n as int),
        decreases items@.len() - n,
    {
        let (lo, hi) = items[n];
        assert((items@[n as int].0 as int, items@[n as int].1 as int) == bounds[n as int]);
        let k = find_in(&chars, ',', lo, hi);
        if k < hi {
            let key = text.substring_char(lo, k);
            let value = read_or_zero(&chars, k + 1, hi);
            proof {
                assert(changes_view(out@.push((key, value))) =~= changes_view(out@).push(
                    (key@, value),
                ));
            }
            out.push((key, value));
        }
        n = n + 1;
    }
    out
}

/// The first index in `[lo, hi)` that holds whitespace, or `hi`.
pub open spec fn find_space(s: Seq<char>, lo: int, hi: int) -> int
    decreases hi - lo,
{
    if lo >= hi || lo < 0 || hi > s.len() {
        hi
    } else if is_space(s[lo]) {
        lo
    } else {
        find_space(s, lo + 1, hi)
    }
}

/// The first index in `[lo, hi)` that holds no whitespace, or `hi`.
pub open spec fn find_word(s: Seq<char>, lo: int, hi: int) -> int
    decreases hi - lo,
{
    if lo >= hi || lo < 0 || hi > s.len() {
        hi
    } else if !is_space(s[lo]) {
        lo
    } else {
        find_word(s, lo + 1, hi)
    }
}

proof fn lemma_find_word_bounds(s: Seq<char>, lo: int, hi: int)
    requires
        0 <= lo <= hi <= s.len(),
    ensures
        lo <= find_word(s, lo, hi) <= hi,
    decreases hi - lo,
{
    if lo < hi && is_space(s[lo]) {
        lemma_find_word_bounds(s, lo + 1, hi);
    }
}

proof fn lemma_find_space_bounds(s: Seq<char>, lo: int, hi: int)
    requires
        0 <= lo <= hi <= s.len(),
    ensures
        lo <= find_space(s, lo, hi) <= hi,
        lo < hi && !is_space(s[lo]) ==> lo < find_space(s, lo, hi),
    decreases hi - lo,
{
    if lo < hi && !is_space(s[lo]) {
        lemma_find_space_bounds(s, lo + 1, hi);
    }
}

/// The bounds of the words of `s[lo..hi]`: its longest stretches without
/// whitespace.
pub open spec fn word_bounds(s: Seq<char>, lo: int, hi: int) -> Seq<(int, int)>
    decreases hi - lo,
{
    if lo >= hi || lo < 0 || hi > s.len() {
        Seq::empty()
    } else {
        let a = find_word(s, lo, hi);
        let b = find_space(s, a, hi);
        if a < lo || a >= hi || b <= a || b > hi {
            Seq::empty()
        } else {
            seq![(a, b)] + word_bounds(s, b, hi)
        }
    }
}

/// Cuts `v[lo..hi]` into its words.
fn split_words(v: &Vec<char>, lo: usize, hi: usize) -> (r: Vec<(usize, usize)>)
    requires
        lo <= hi <= v@.len(),
    ensures
        r@.len() == word_bounds(v@, lo as int, hi as int).len(),
        forall|k: int|
            0 <= k < r@.len() ==> (#[trigger] r@[k].0 as int, r@[k].1 as int) == word_bounds(
                v@,
                lo as int,
                hi as int,
            )[k],
        forall|k: int| 0 <= k < r@.len() ==> lo <= (#[trigger] r@[k]).0 <= r@[k].1 <= hi,
{
    let ghost s = v@;
    let ghost all = word_bounds(s, lo as int, hi as int);
    let mut out: Vec<(usize, usize)> = Vec::new();
    let ghost mut done: Seq<(int, int)> = Seq::empty();
    let mut at: usize = lo;
    let mut going = true;
    while going
        invariant
            lo <= at <= hi <= v@.len(),
            s == v@,
            going ==> all == done + word_bounds(s, at as int, hi as int),
            !going ==> all == done,
            out@.len() == done.len(),
            forall|k: int|
                0 <= k < out@.len() ==> (#[trigger] out@[k].0 as int, out@[k].1 as int) == done[k],
            forall|k: int| 0 <= k < out@.len() ==> lo <= (#[trigger] out@[k]).0 <= out@[k].1 <= hi,
        decreases hi - at + if going { 1int } else { 0int },
    {
        let mut a: usize = at;
        while a < hi && is_whitespace(v[a])
            invariant
                at <= a <= hi <= v@.len(),
                find_word(v@, a as int, hi as int) == find_word(v@, at as int, hi as int),
            decreases hi - a,
        {
            a = a + 1;
        }
        let mut b: usize = a;
        while b < hi && !is_whitespace(v[b])
            invariant
                a <= b <= hi <= v@.len(),
                find_space(v@, b as int, hi as int) == find_space(v@, a as int, hi as int),
            decreases hi - b,
        {
            b = b + 1;
        }
        proof {
            lemma_find_word_bounds(s, at as int, hi as int);
            lemma_find_space_bounds(s, a as int, hi as int);
            assert(done + Seq::<(int, int)>::empty() =~= done);
        }
        if a >= hi || b <= a {
            going = false;
        } else {
            out.push((a, b));
            proof {
                let rest = word_bounds(s, b as int, hi as int);
                assert(done + (seq![(a as int, b as int)] + rest) =~= done.push(
                    (a as int, b as int),
                ) + rest);
                done = done.push((a as int, b as int));
            }
            at = b;
        }
    }
    out
}

/// The piece that a cell of a position writes: `kind:side`, the side White
/// for `white` and Black for anything else. A cell without a colon is an
/// empty square.
pub open spec fn cell_square(s: Seq<char>, lo: int, hi: int) -> Option<Square> {
    let k = find_char(s, ':', lo, hi);
    if k < hi {
        Some(Square::Occupied { kind: s.subrange(lo, k), color: side_of(s.subrange(k + 1, hi)) })
    } else {
        None
    }
}

/// The squares with `v` on file `x` of rank `y`, where that is on the board.
pub open spec fn put_at(squares: Seq<Square>, x: int, y: int, v: Square) -> Seq<Square> {
    if 0 <= x < 8 && 0 <= y < 8 {
        put(squares, (x as u8, y as u8), v)
    } else {
        squares
    }
}

/// The squares after the first `n` cells of the row `y` are placed, cell by
/// cell from the left.
pub open spec fn row_placed(
    squares: Seq<Square>,
    s: Seq<char>,
    cells: Seq<(int, int)>,
    y: int,
    n: int,
) -> Seq<Square>
    decreases n,
{
    if n <= 0 {
        squares
    } else {
        let before = row_placed(squares, s, cells, y, n - 1);
        match cell_square(s, cells[n - 1].0, cells[n - 1].1) {
            Some(v) => put_at(before, n - 1, y, v),
            None => before,
        }
    }
}

/// The squares after the first `n` rows of a position are placed, row by
/// row from the top row.
pub open spec fn rows_placed(squares: Seq<Square>, s: Seq<char>, rows: Seq<(int, int)>, n: int)
    -> Seq<Square>
    decreases n,
{
    if n <= 0 {
        squares
    } else {
        let cells = word_bounds(s, rows[n - 1].0, rows[n - 1].1);
        row_placed(rows_placed(squares, s, rows, n - 1), s, cells, n - 1, cells.len() as int)
    }
}

/// The squares that a position writes: its rows parted by `/`, the cells of
/// a row by whitespace. What lies off the board is left out.
pub open spec fn squares_placed(s: Seq<char>) -> Seq<Square> {
    let rows = split_bounds(s, '/', 0, s.len() as int);
    rows_placed(Seq::new(64, |i: int| Square::Empty), s, rows, rows.len() as int)
}

/// The board of a request: the pieces of `position` on an empty board, the
/// given state of both sides, the given side to move.
pub fn setup_board<'a>(
    compiled: &'a ChessemblyCompiled<'a>,
    position: &'a str,
    board_state: BothBoardState<'a>,
    turn: Color,
    macho: bool,
    imprisoned: bool,
) -> (r: Board<'a>)
    ensures
        r.wf(),
        r@ == (BoardView {
            squares: squares_placed(position@),
            turn,
            white: board_state.white@,
            black: board_state.black@,
            program: compiled@,
            macho,
            imprisoned,
        }),
{
    let mut board = Board::empty(compiled, macho, imprisoned);
    let chars = chars_of(position);
    let rows = split_range(&chars, '/', 0, chars.len());
    let ghost s = chars@;
    let ghost row_bounds = split_bounds(s, '/', 0, s.len() as int);
    let ghost start = board@;
    proof {
        assert(start.squares =~= Seq::new(64, |i: int| Square::Empty));
    }
    let mut i: usize = 0;
    while i < rows.len()
        invariant
            i <= rows@.len() == row_bounds.len(),
            s == chars@,
            s == position@,
            board.wf(),
            forall|k: int|
                0 <= k < rows@.len() ==> (#[trigger] rows@[k].0 as int, rows@[k].1 as int)
                    == row_bounds[k],
            forall|k: int| 0 <= k < rows@.len() ==> (#[trigger] rows@[k]).0 <= rows@[k].1 <= chars@.len(),
            board@ == (BoardView { squares: rows_placed(start.squares, s, row_bounds, i as int), ..start }),
        decreases rows@.len() - i,
    {
        let (lo, hi) = rows[i];
        assert((rows@[i as int].0 as int, rows@[i as int].1 as int) == row_bounds[i as int]);
        let cells = split_words(&chars, lo, hi);
        let ghost cell_bounds = word_bounds(s, lo as int, hi as int);
        let ghost row_start = board@.squares;
        let mut j: usize = 0;
        while j < cells.len()
            invariant
                j <= cells@.len() == cell_bounds.len(),
                s == chars@,
                s == position@,
                board.wf(),
                forall|k: int|
                    0 <= k < cells@.len() ==> (#[trigger] cells@[k].0 as int, cells@[k].1 as int)
                        == cell_bounds[k],
                forall|k: int|
                    0 <= k < cells@.len() ==> (#[trigger] cells@[k]).0 <= cells@[k].1 <= chars@.len(),
                board@ == (BoardView {
                    squares: row_placed(row_start, s, cell_bounds, i as int, j as int),
                    ..start
                }),
            decreases cells@.len() - j,
        {
            let (a, b) = cells[j];
            assert((cells@[j as int].0 as int, cells@[j as int].1 as int) == cell_bounds[j as int]);
            let k = find_in(&chars, ':', a, b);
            if k < b {
                let kind = position.substring_char(a, k);
                let color = parse_turn(position.substring_char(k + 1, b));
                if i < 8 && j < 8 {
                    board.set_piece(
                        &(j as u8, i as u8),
                        PieceSpan::Piece(Piece { piece_type: kind, color }),
                    );
                }
            }
            j = j + 1;
        }
        i = i + 1;
    }
    board.set_state(board_state);
    board.set_turn(turn);
    board
}

} // verus!
