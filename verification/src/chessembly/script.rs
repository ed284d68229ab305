//! A compiled move-script, and the compiler from its text.

use vstd::prelude::*;
use crate::chessembly::behavior::{Behavior, BehaviorChain, chain_view, Instr, parse_instr};
use crate::text::{
    chars_of, is_space, is_starter, is_whitespace, split_bounds, split_range, starts_instruction,
    trim_bounds, trim_range,
};

verus! {

/// A program: chains of instructions, each chain run on its own.
#[derive(Debug)]
pub struct ChessemblyCompiled<'a> {
    pub chains: Vec<BehaviorChain<'a>>,
}

/// The chains of a program as plain values.
pub open spec fn program_view<'a>(chains: Seq<BehaviorChain<'a>>) -> Seq<Seq<Instr>> {
    Seq::new(chains.len(), |i: int| chain_view(chains[i]@))
}

impl<'a> View for ChessemblyCompiled<'a> {
    type V = Seq<Seq<Instr>>;

    open spec fn view(&self) -> Seq<Seq<Instr>> {
        program_view(self.chains@)
    }
}

/// The bounds of the tokens of the chain `s[..hi]`, read from `j` on, the
/// current token having begun at `i`. A token ends at a whitespace character
/// that stands before a letter or a brace; each is taken without the
/// whitespace around it.
pub open spec fn token_bounds(s: Seq<char>, hi: int, i: int, j: int) -> Seq<(int, int)>
    decreases hi - j,
{
    if j + 1 >= hi || j < 0 || hi > s.len() {
        let t = trim_bounds(s, i, hi);
        if t.0 == t.1 {
            Seq::empty()
        } else {
            seq![t]
        }
    } else if is_space(s[j]) && is_starter(s[j + 1]) && trim_bounds(s, i, j).0 != trim_bounds(
        s,
        i,
        j,
    ).1 {
        seq![trim_bounds(s, i, j)] + token_bounds(s, hi, j, j + 1)
    } else {
        token_bounds(s, hi, i, j + 1)
    }
}

/// The instructions of the stretch `s[lo..hi]` of a chain.
pub open spec fn chain_instrs(s: Seq<char>, lo: int, hi: int) -> Seq<Instr> {
    let tokens = token_bounds(s, hi, lo, lo);
    Seq::new(tokens.len(), |k: int| parse_instr(s.subrange(tokens[k].0, tokens[k].1)))
}

/// Whether the line `s[lo..hi]` of a script is a comment: its first
/// character after whitespace is `#`.
pub open spec fn is_comment(s: Seq<char>, lo: int, hi: int) -> bool {
    let t = trim_bounds(s, lo, hi);
    t.0 < t.1 && s[t.0] == '#'
}

/// The instructions of a piece of a script from its line `k` on. The lines
/// that are comments are left out, and a comment ends the instruction
/// before it: the lines between two comments are read as one stretch,
/// `start` being where the current stretch has begun, or -1 where none has.
pub open spec fn piece_instrs_from(s: Seq<char>, lines: Seq<(int, int)>, k: int, start: int) -> Seq<
    Instr,
>
    decreases lines.len() - k,
{
    if k >= lines.len() || k < 0 {
        if start >= 0 && k >= 1 {
            chain_instrs(s, start, lines[k - 1].1)
        } else {
            Seq::empty()
        }
    } else if is_comment(s, lines[k].0, lines[k].1) {
        (if start >= 0 && k >= 1 {
            chain_instrs(s, start, lines[k - 1].1)
        } else {
            Seq::empty()
        }) + piece_instrs_from(s, lines, k + 1, -1)
    } else {
        piece_instrs_from(
            s,
            lines,
            k + 1,
            if start >= 0 {
                start
            } else {
                lines[k].0
            },
        )
    }
}

/// The instructions of the piece `s[lo..hi]` of a script: those of its
/// lines that are no comments.
pub open spec fn piece_instrs(s: Seq<char>, lo: int, hi: int) -> Seq<Instr> {
    piece_instrs_from(s, split_bounds(s, '\n', lo, hi), 0, -1)
}

/// The chains of the first `n` pieces of a script.
pub open spec fn compile_pieces(s: Seq<char>, pieces: Seq<(int, int)>, n: int) -> Seq<Seq<Instr>>
    decreases n,
{
    if n <= 0 {
        Seq::empty()
    } else {
        let before = compile_pieces(s, pieces, n - 1);
        let chain = piece_instrs(s, pieces[n - 1].0, pieces[n - 1].1);
        if chain.len() == 0 {
            before
        } else {
            before.push(chain)
        }
    }
}

/// The program that a script writes. The pieces between `;` are its chains.
/// In each piece the lines that begin, after whitespace, with `#` are
/// comments; what is left is cut into instructions, and a piece in which
/// nothing is left makes no chain.
pub open spec fn compile(s: Seq<char>) -> Seq<Seq<Instr>> {
    let pieces = split_bounds(s, ';', 0, s.len() as int);
    compile_pieces(s, pieces, pieces.len() as int)
}

proof fn lemma_program_view_push<'a>(chains: Seq<BehaviorChain<'a>>, chain: BehaviorChain<'a>)
    ensures
        program_view(chains.push(chain)) == program_view(chains).push(chain_view(chain@)),
{
    assert(program_view(chains.push(chain)) =~= program_view(chains).push(chain_view(chain@)));
}

/// Reads the instructions of the stretch `chars[lo..hi]` of `script`.
fn read_chain<'a>(script: &'a str, chars: &Vec<char>, lo: usize, hi: usize) -> (r: BehaviorChain<'a>)
    requires
        chars@ == script@,
        lo <= hi <= chars@.len(),
    ensures
        chain_view(r@) == chain_instrs(script@, lo as int, hi as int),
{
    let ghost s = chars@;
    let ghost all = token_bounds(s, hi as int, lo as int, lo as int);
    let mut out: BehaviorChain<'a> = Vec::new();
    let ghost mut done: Seq<(int, int)> = Seq::empty();
    let mut i: usize = lo;
    let mut j: usize = lo;
    while hi - j > 1
        invariant
            lo <= i <= j <= hi <= chars@.len(),
            j < hi || lo == hi,
            s == chars@,
            s == script@,
            all == done + token_bounds(s, hi as int, i as int, j as int),
            out@.len() == done.len(),
            forall|k: int|
                0 <= k < done.len() ==> (#[trigger] out@[k])@ == parse_instr(
                    s.subrange(done[k].0, done[k].1),
                ),
        decreases hi - j,
    {
        if is_whitespace(chars[j]) && starts_instruction(chars[j + 1]) {
            let (a, b) = trim_range(chars, i, j);
            if a != b {
                let token = script.substring_char(a, b);
                out.push(Behavior::from_str(token));
                proof {
                    let rest = token_bounds(s, hi as int, j as int, j + 1);
                    assert(done + (seq![(a as int, b as int)] + rest) =~= done.push(
                        (a as int, b as int),
                    ) + rest);
                    done = done.push((a as int, b as int));
                }
                i = j;
            }
        }
        j = j + 1;
    }
    let (a, b) = trim_range(chars, i, hi);
    if a != b {
        let token = script.substring_char(a, b);
        out.push(Behavior::from_str(token));
        proof {
            done = done.push((a as int, b as int));
        }
    }
    proof {
        assert(all =~= done);
        assert(chain_view(out@) =~= chain_instrs(s, lo as int, hi as int));
    }
    out
}

/// Appends the instructions of `more` to `chain`.
fn append_chain<'a>(chain: &mut BehaviorChain<'a>, more: &BehaviorChain<'a>)
    ensures
        chain_view(final(chain)@) == chain_view(old(chain)@) + chain_view(more@),
{
    let mut i: usize = 0;
    proof {
        assert(chain@ =~= old(chain)@ + more@.take(0));
    }
    while i < more.len()
        invariant
            i <= more@.len(),
            chain@ == old(chain)@ + more@.take(i as int),
        decreases more@.len() - i,
    {
        proof {
            assert(chain@.push(more@[i as int]) =~= old(chain)@ + more@.take(i + 1));
        }
        chain.push(more[i]);
        i = i + 1;
    }
    proof {
        assert(more@.take(more@.len() as int) =~= more@);
        assert(chain_view(old(chain)@ + more@) =~= chain_view(old(chain)@) + chain_view(more@));
    }
}

/// Reads the instructions of the piece `chars[lo..hi]` of `script`, leaving
/// out the lines that are comments.
fn read_piece<'a>(script: &'a str, chars: &Vec<char>, lo: usize, hi: usize) -> (r: BehaviorChain<'a>)
    requires
        chars@ == script@,
        lo <= hi <= chars@.len(),
    ensures
        chain_view(r@) == piece_instrs(script@, lo as int, hi as int),
{
    let ghost s = chars@;
    let lines = split_range(chars, '\n', lo, hi);
    let ghost bounds = split_bounds(s, '\n', lo as int, hi as int);
    let mut out: BehaviorChain<'a> = Vec::new();
    let mut begun = false;
    let mut start: usize = lo;
    let mut k: usize = 0;
    proof {
        assert(chain_view(out@) + piece_instrs_from(s, bounds, 0, -1) =~= piece_instrs(
            s,
            lo as int,
            hi as int,
        ));
    }
    while k < lines.len()
        invariant
            k <= lines@.len() == bounds.len(),
            s == chars@,
            s == script@,
            hi <= chars@.len(),
            forall|i: int|
                0 <= i < lines@.len() ==> (#[trigger] lines@[i].0 as int, lines@[i].1 as int)
                    == bounds[i],
            forall|i: int| 0 <= i < lines@.len() ==> lo <= (#[trigger] lines@[i]).0 <= lines@[i].1 <= hi,
            forall|i: int, m: int|
                0 <= i < m < lines@.len() ==> (#[trigger] lines@[i]).1 < (#[trigger] lines@[m]).0,
            begun ==> k >= 1 && start <= lines@[k - 1].1,
            chain_view(out@) + piece_instrs_from(
                s,
                bounds,
                k as int,
                if begun {
                    start as int
                } else {
                    -1
                },
            ) == piece_instrs(s, lo as int, hi as int),
        decreases lines@.len() - k,
    {
        let (a, b) = lines[k];
        assert((lines@[k as int].0 as int, lines@[k as int].1 as int) == bounds[k as int]);
        let (ta, tb) = trim_range(chars, a, b);
        let ghost before = chain_view(out@);
        if ta < tb && chars[ta] == '#' {
            if begun {
                let end = lines[k - 1].1;
                assert((lines@[k - 1].0 as int, lines@[k - 1].1 as int) == bounds[k - 1]);
                let stretch = read_chain(script, chars, start, end);
                append_chain(&mut out, &stretch);
                proof {
                    let rest = piece_instrs_from(s, bounds, k + 1, -1);
                    assert(before + (chain_view(stretch@) + rest) =~= (before + chain_view(
                        stretch@,
                    )) + rest);
                }
            } else {
                proof {
                    let rest = piece_instrs_from(s, bounds, k + 1, -1);
                    assert(before + (Seq::<Instr>::empty() + rest) =~= before + rest);
                }
            }
            begun = false;
        } else {
            if !begun {
                begun = true;
                start = a;
            } else {
                assert(lines@[k - 1].1 < lines@[k as int].0);
            }
        }
        k = k + 1;
    }
    if begun {
        let end = lines[k - 1].1;
        assert((lines@[k - 1].0 as int, lines@[k - 1].1 as int) == bounds[k - 1]);
        let stretch = read_chain(script, chars, start, end);
        append_chain(&mut out, &stretch);
    } else {
        proof {
            assert(chain_view(out@) + Seq::<Instr>::empty() =~= chain_view(out@));
        }
    }
    out
}

impl<'a> ChessemblyCompiled<'a> {
    /// The program without chains.
    pub fn new() -> (r: ChessemblyCompiled<'a>)
        ensures
            r@ == Seq::<Seq<Instr>>::empty(),
    {
        let r = ChessemblyCompiled { chains: Vec::new() };
        proof {
            assert(r@ =~= Seq::<Seq<Instr>>::empty());
        }
        r
    }

    /// Opens a new, empty chain at the end of the program.
    pub fn add_command(&mut self)
        ensures
            final(self)@ == old(self)@.push(Seq::<Instr>::empty()),
    {
        let chain: BehaviorChain<'a> = Vec::new();
        proof {
            lemma_program_view_push(self.chains@, chain);
            assert(chain_view(chain@) =~= Seq::<Instr>::empty());
        }
        self.chains.push(chain);
    }

    /// Appends an instruction to the last chain; a program without chains
    /// stays as it is.
    pub fn push_behavior(&mut self, behavior: Behavior<'a>)
        ensures
            old(self)@.len() == 0 ==> final(self)@ == old(self)@,
            old(self)@.len() > 0 ==> final(self)@ == old(self)@.update(
                old(self)@.len() - 1,
                old(self)@.last().push(behavior@),
            ),
    {
        match self.chains.pop() {
            Some(mut last) => {
                let ghost before = last@;
                let ghost rest = self.chains@;
                last.push(behavior);
                self.chains.push(last);
                proof {
                    assert(old(self).chains@ =~= rest.push(old(self).chains@.last()));
                    assert(chain_view(before.push(behavior)) =~= chain_view(before).push(behavior@));
                    assert(self@ =~= old(self)@.update(
                        old(self)@.len() - 1,
                        old(self)@.last().push(behavior@),
                    ));
                }
            },
            None => {},
        }
    }

    /// Compiles the text of a script: one chain for each piece between `;`
    /// in which something is left once its comment lines are taken out.
    /// Every text compiles: what is no instruction becomes `Unknown` and
    /// ends its chain when the chain runs.
    pub fn from_script(script: &'a str) -> (r: Result<ChessemblyCompiled<'a>, ()>)
        ensures
            r is Ok,
            r->Ok_0@ == compile(script@),
    {
        let chars = chars_of(script);
        let n = chars.len();
        let pieces = split_range(&chars, ';', 0, n);
        let ghost s = chars@;
        let ghost bounds = split_bounds(s, ';', 0, n as int);
        let mut chains: Vec<BehaviorChain<'a>> = Vec::new();
        let mut k: usize = 0;
        proof {
            assert(program_view(chains@) =~= compile_pieces(s, bounds, 0));
        }
        while k < pieces.len()
            invariant
                k <= pieces@.len() == bounds.len(),
                s == chars@,
                s == script@,
                n == chars@.len(),
                bounds == split_bounds(s, ';', 0, n as int),
                forall|i: int|
                    0 <= i < pieces@.len() ==> (#[trigger] pieces@[i].0 as int, pieces@[i].1 as int)
                        == bounds[i],
                forall|i: int| 0 <= i < pieces@.len() ==> (#[trigger] pieces@[i]).0 <= pieces@[i].1 <= n,
                program_view(chains@) == compile_pieces(s, bounds, k as int),
            decreases pieces@.len() - k,
        {
            let (lo, hi) = pieces[k];
            assert((pieces@[k as int].0 as int, pieces@[k as int].1 as int) == bounds[k as int]);
            let chain = read_piece(script, &chars, lo, hi);
            if chain.len() > 0 {
                proof {
                    lemma_program_view_push(chains@, chain);
                }
                chains.push(chain);
            }
            k = k + 1;
        }
        Ok(ChessemblyCompiled { chains })
    }
}

} // verus!
