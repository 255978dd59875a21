//! Conversion between the textual form of a grid and the grid itself.
//!
//! The input grammar has one line per grid row: '1' marks a live cell,
//! '0' or a space marks a dead cell, and a newline ends the row. Rows and
//! columns that the text leaves out stay dead. A live marker on a row or
//! column index past 63 is an error, as is any other character.
//!
//! Rendering is the pure projection in the other direction: one glyph per
//! cell, one line per row, optionally framed by a box-drawing border.

use crate::state::{dead_grid, State};
use vstd::prelude::*;

verus! {

use vstd::arithmetic::div_mod::lemma_fundamental_div_mod_converse;

/// The ways in which decoding a grid text can fail.
#[derive(Clone, Copy, PartialEq, Eq, Structural, Debug)]
pub enum ParseErrorKind {
    /// A live marker stood on a logical row index of 64 or more.
    TooManyRows,
    /// A live marker stood on a logical column index of 64 or more.
    TooManyCols,
    /// A character outside the recognized marker set, carried verbatim.
    UnexpectedChar(char),
}

/// A decode failure: what went wrong, and the 0-indexed logical (row, col)
/// position at which it happened.
#[derive(Clone, Copy, PartialEq, Eq, Structural, Debug)]
pub struct GridParseError {
    pub kind: ParseErrorKind,
    pub row: usize,
    pub col: usize,
}

/// What decoding a text yields: a full grid, or the kind and (row, col)
/// position of the first failure.
pub type ParseOutcome = Result<Seq<Seq<bool>>, (ParseErrorKind, int, int)>;

/// Decoding, one character at a time from position `i`, with the logical
/// cursor at (row, col) and the cells accepted so far in `g`.
pub open spec fn parse_from(s: Seq<char>, i: int, row: int, col: int, g: Seq<Seq<bool>>) -> ParseOutcome
    decreases s.len() - i,
{
    if i < 0 || i >= s.len() {
        Ok(g)
    } else {
        let ch = s[i];
        if ch == '\n' {
            parse_from(s, i + 1, row + 1, 0, g)
        } else if ch == '0' || ch == ' ' {
            parse_from(s, i + 1, row, col + 1, g)
        } else if ch == '1' {
            if row >= 64 {
                Err((ParseErrorKind::TooManyRows, row, col))
            } else if col >= 64 {
                Err((ParseErrorKind::TooManyCols, row, col))
            } else {
                parse_from(s, i + 1, row, col + 1, g.update(row, g[row].update(col, true)))
            }
        } else {
            Err((ParseErrorKind::UnexpectedChar(ch), row, col))
        }
    }
}

/// Decoding a whole text, starting from an all-dead grid.
pub open spec fn parse_text(s: Seq<char>) -> ParseOutcome {
    parse_from(s, 0, 0, 0, dead_grid())
}

/// The characters of `text`, in order.
fn chars_of(text: &str) -> (v: Vec<char>)
    ensures
        v@ == text@,
{
    let mut v: Vec<char> = Vec::new();
    for ch in it: text.chars()
        invariant
            it.seq() == text@,
            v@ == it.seq().take(it.index()),
    {
        v.push(ch);
    }
    proof {
        assert(v@ =~= text@);
    }
    v
}

/// Decodes a grid text into a fresh state, never touching any existing one.
/// Succeeds exactly when the text stays inside the marker grammar and the
/// 64x64 bounds; otherwise reports the first offending character and the
/// logical position at which it stood.
pub fn decode(text: &str) -> (r: Result<State, GridParseError>)
    ensures
        match r {
            Ok(s) => s.wf() && parse_text(text@) == ParseOutcome::Ok(s@),
            Err(e) => parse_text(text@) == ParseOutcome::Err(
                (e.kind, e.row as int, e.col as int),
            ),
        },
{
    let v = chars_of(text);
    let mut st = State::new();
    let mut row: usize = 0;
    let mut col: usize = 0;
    let n = v.len();
    let mut i: usize = 0;
    while i < n
        invariant
            n == v.len(),
            i <= n,
            row <= i,
            col <= i,
            st.wf(),
            v@ == text@,
            parse_from(text@, i as int, row as int, col as int, st@) == parse_text(text@),
        decreases n - i,
    {
        let ch = v[i];
        if ch == '\n' {
            row = row + 1;
            col = 0;
        } else if ch == '0' || ch == ' ' {
            col = col + 1;
        } else if ch == '1' {
            if row >= 64 {
                return Err(GridParseError { kind: ParseErrorKind::TooManyRows, row, col });
            } else if col >= 64 {
                return Err(GridParseError { kind: ParseErrorKind::TooManyCols, row, col });
            }
            st.set(row, col, true);
            col = col + 1;
        } else {
            return Err(GridParseError { kind: ParseErrorKind::UnexpectedChar(ch), row, col });
        }
        i = i + 1;
    }
    Ok(st)
}

/// How a grid is rendered: whether to frame it in box-drawing characters,
/// and which glyph stands for a live and which for a dead cell.
#[derive(Clone, Copy, PartialEq, Eq, Structural, Debug)]
pub struct RenderStyle {
    pub border: bool,
    pub alive_glyph: char,
    pub dead_glyph: char,
}

/// The glyph a style gives to a cell.
pub open spec fn glyph(st: RenderStyle, alive: bool) -> char {
    if alive {
        st.alive_glyph
    } else {
        st.dead_glyph
    }
}

/// One character of the unbordered rendering: 64 lines of 64 glyphs each,
/// separated by newlines, addressed by the flat index `i` at 65 characters
/// per line. The text ends at the last glyph, with no trailing newline.
pub open spec fn plain_char(g: Seq<Seq<bool>>, st: RenderStyle, i: int) -> char {
    let r = i / 65;
    let c = i % 65;
    if c == 64 {
        '\n'
    } else {
        glyph(st, g[r][c])
    }
}

/// The unbordered rendering of a grid.
pub open spec fn render_plain(g: Seq<Seq<bool>>, st: RenderStyle) -> Seq<char> {
    Seq::new((64 * 65 - 1) as nat, |i: int| plain_char(g, st, i))
}

/// One character of the bordered rendering: a top border line, the 64 grid
/// rows each framed by vertical bars, and a bottom border line, addressed
/// by the flat index `i` at 67 characters per line. The text ends at the
/// closing corner, with no trailing newline.
pub open spec fn boxed_char(g: Seq<Seq<bool>>, st: RenderStyle, i: int) -> char {
    let r = i / 67;
    let c = i % 67;
    if c == 66 {
        '\n'
    } else if r == 0 {
        if c == 0 {
            '╔'
        } else if c == 65 {
            '╗'
        } else {
            '═'
        }
    } else if r == 65 {
        if c == 0 {
            '╚'
        } else if c == 65 {
            '╝'
        } else {
            '═'
        }
    } else if c == 0 || c == 65 {
        '║'
    } else {
        glyph(st, g[r - 1][c - 1])
    }
}

/// The bordered rendering of a grid.
pub open spec fn render_boxed(g: Seq<Seq<bool>>, st: RenderStyle) -> Seq<char> {
    Seq::new((66 * 67 - 1) as nat, |i: int| boxed_char(g, st, i))
}

/// The rendering a style asks for.
pub open spec fn render(g: Seq<Seq<bool>>, st: RenderStyle) -> Seq<char> {
    if st.border {
        render_boxed(g, st)
    } else {
        render_plain(g, st)
    }
}

/// A flat index `r * w + c` with `c` inside a line of width `w` splits back
/// into that line and column.
proof fn lemma_flat_index(w: int, r: int, c: int)
    requires
        w > 0,
        0 <= c < w,
    ensures
        (r * w + c) / w == r,
        (r * w + c) % w == c,
{
    lemma_fundamental_div_mod_converse(r * w + c, w, r, c);
}

/// Relies on `String`'s `FromIterator` impl: collecting characters yields
/// the string of exactly those characters, in order.
#[verifier::external_body]
fn chars_to_string(v: &Vec<char>) -> (s: String)
    ensures
        s@ == v@,
{
    v.iter().collect()
}

/// Renders a grid to text in the given style: a read-only projection that
/// can be taken at any point in the state's lifecycle.
pub fn encode(s: &State, style: RenderStyle) -> (out: String)
    requires
        s.wf(),
    ensures
        out@ == render(s@, style),
{
    let ghost g: Seq<Seq<bool>> = s@;
    let mut v: Vec<char> = Vec::new();
    if style.border {
        v.push('╔');
        for c in 0..64usize
            invariant
                v@.len() == 1 + c,
                forall|k: int| 0 <= k < v@.len() ==> #[trigger] v@[k] == boxed_char(g, style, k),
        {
            proof {
                lemma_flat_index(67, 0, 1 + c as int);
            }
            v.push('═');
        }
        proof {
            lemma_flat_index(67, 0, 65);
            lemma_flat_index(67, 0, 66);
        }
        v.push('╗');
        v.push('\n');
        for r in 0..64usize
            invariant
                s.wf(),
                s@ == g,
                v@.len() == 67 * (r + 1),
                forall|k: int| 0 <= k < v@.len() ==> #[trigger] v@[k] == boxed_char(g, style, k),
        {
            proof {
                lemma_flat_index(67, r as int + 1, 0);
            }
            v.push('║');
            for c in 0..64usize
                invariant
                    s.wf(),
                    s@ == g,
                    r < 64,
                    v@.len() == 67 * (r + 1) + 1 + c,
                    forall|k: int| 0 <= k < v@.len() ==> #[trigger] v@[k] == boxed_char(
                        g,
                        style,
                        k,
                    ),
            {
                proof {
                    lemma_flat_index(67, r as int + 1, 1 + c as int);
                }
                let cell = s.get(r, c);
                v.push(if cell {
                    style.alive_glyph
                } else {
                    style.dead_glyph
                });
            }
            proof {
                lemma_flat_index(67, r as int + 1, 65);
                lemma_flat_index(67, r as int + 1, 66);
            }
            v.push('║');
            v.push('\n');
        }
        proof {
            lemma_flat_index(67, 65, 0);
        }
        v.push('╚');
        for c in 0..64usize
            invariant
                v@.len() == 67 * 65 + 1 + c,
                forall|k: int| 0 <= k < v@.len() ==> #[trigger] v@[k] == boxed_char(g, style, k),
        {
            proof {
                lemma_flat_index(67, 65, 1 + c as int);
            }
            v.push('═');
        }
        proof {
            lemma_flat_index(67, 65, 65);
        }
        v.push('╝');
        proof {
            assert(v@ =~= render(g, style));
        }
    } else {
        for r in 0..64usize
            invariant
                s.wf(),
                s@ == g,
                v@.len() == (if r == 0 {
                    0int
                } else {
                    65 * (r as int) - 1
                }),
                forall|k: int| 0 <= k < v@.len() ==> #[trigger] v@[k] == plain_char(g, style, k),
        {
            if r > 0 {
                proof {
                    lemma_flat_index(65, r as int - 1, 64);
                }
                v.push('\n');
            }
            for c in 0..64usize
                invariant
                    s.wf(),
                    s@ == g,
                    r < 64,
                    v@.len() == 65 * r + c,
                    forall|k: int| 0 <= k < v@.len() ==> #[trigger] v@[k] == plain_char(
                        g,
                        style,
                        k,
                    ),
            {
                proof {
                    lemma_flat_index(65, r as int, c as int);
                }
                let cell = s.get(r, c);
                v.push(if cell {
                    style.alive_glyph
                } else {
                    style.dead_glyph
                });
            }
        }
        proof {
            assert(v@ =~= render(g, style));
        }
    }
    chars_to_string(&v)
}

} // verus!
