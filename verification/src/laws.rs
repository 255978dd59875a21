//! Proofs of the global facts that hold of the grid operations: the
//! round trip between rendering and decoding, the stability of the empty
//! grid and of the 2x2 block, the period-2 oscillation of the 3-cell
//! straight line, and the fate of the 3-cell diagonal.

use crate::codec::{
    glyph, parse_from, parse_text, render, render_plain, ParseErrorKind, ParseOutcome, RenderStyle,
};
use crate::state::{
    dead_grid, grid_wf, neighbor_count, next_cell, step, wrap_dec, wrap_inc,
};
use vstd::prelude::*;

verus! {

use vstd::arithmetic::div_mod::lemma_fundamental_div_mod_converse;

/// A neighbor count is a sum of eight cells each worth 0 or 1, so it can
/// never leave [0, 8], whatever the grid holds.
pub proof fn lemma_neighbor_count_range(g: Seq<Seq<bool>>, r: int, c: int)
    ensures
        0 <= neighbor_count(g, r, c) <= 8,
{
}

/// The all-dead grid is a stable state: advancing it yields the all-dead
/// grid again.
pub proof fn lemma_dead_grid_stable()
    ensures
        step(dead_grid()) == dead_grid(),
{
    let g = dead_grid();
    assert forall|r: int, c: int| 0 <= r < 64 && 0 <= c < 64 implies step(g)[r][c] == g[r][c] by {
        assert(neighbor_count(g, r, c) == 0);
    }
    assert(step(g) =~~= g);
}

/// The grid whose only live cells are the 2x2 block with top-left corner at
/// (r0, c0), wrapping around the edges where the block crosses them.
pub open spec fn block_grid(r0: int, c0: int) -> Seq<Seq<bool>> {
    Seq::new(
        64,
        |r: int|
            Seq::new(
                64,
                |c: int| (r == r0 || r == wrap_inc(r0)) && (c == c0 || c == wrap_inc(c0)),
            ),
    )
}

/// The 2x2 block is a still life: each of its four cells has exactly 3 live
/// neighbors and survives, and every other cell sees at most 2 live cells
/// and stays dead, wherever the block stands on the torus.
pub proof fn lemma_block_still_life(r0: int, c0: int)
    requires
        0 <= r0 < 64,
        0 <= c0 < 64,
    ensures
        step(block_grid(r0, c0)) == block_grid(r0, c0),
{
    let g = block_grid(r0, c0);
    assert forall|r: int, c: int| 0 <= r < 64 && 0 <= c < 64 implies step(g)[r][c] == g[r][c] by {
        if g[r][c] {
            assert(neighbor_count(g, r, c) == 3);
        } else {
            assert(neighbor_count(g, r, c) <= 2);
        }
    }
    assert(step(g) =~~= g);
}

/// The grid whose only live cells are a horizontal 3-cell line centered at
/// (r0, c0), wrapping around the edges where the line crosses them.
pub open spec fn hline_grid(r0: int, c0: int) -> Seq<Seq<bool>> {
    Seq::new(
        64,
        |r: int|
            Seq::new(
                64,
                |c: int| r == r0 && (c == wrap_dec(c0) || c == c0 || c == wrap_inc(c0)),
            ),
    )
}

/// The grid whose only live cells are a vertical 3-cell line centered at
/// (r0, c0), wrapping around the edges where the line crosses them.
pub open spec fn vline_grid(r0: int, c0: int) -> Seq<Seq<bool>> {
    Seq::new(
        64,
        |r: int|
            Seq::new(
                64,
                |c: int| c == c0 && (r == wrap_dec(r0) || r == r0 || r == wrap_inc(r0)),
            ),
    )
}

/// One step turns the horizontal 3-cell line into the vertical one with the
/// same center: the ends die of underpopulation, the center survives with
/// its 2 neighbors, and the cells above and below the center are born with
/// exactly 3.
pub proof fn lemma_blinker_flips(r0: int, c0: int)
    requires
        0 <= r0 < 64,
        0 <= c0 < 64,
    ensures
        step(hline_grid(r0, c0)) == vline_grid(r0, c0),
{
    let g = hline_grid(r0, c0);
    let v = vline_grid(r0, c0);
    assert forall|r: int, c: int| 0 <= r < 64 && 0 <= c < 64 implies step(g)[r][c] == v[r][c] by {
        if v[r][c] {
            assert(next_cell(g[r][c], neighbor_count(g, r, c)));
        } else {
            assert(!next_cell(g[r][c], neighbor_count(g, r, c)));
        }
    }
    assert(step(g) =~~= v);
}

/// One step turns the vertical 3-cell line back into the horizontal one
/// with the same center.
pub proof fn lemma_blinker_flips_back(r0: int, c0: int)
    requires
        0 <= r0 < 64,
        0 <= c0 < 64,
    ensures
        step(vline_grid(r0, c0)) == hline_grid(r0, c0),
{
    let g = vline_grid(r0, c0);
    let h = hline_grid(r0, c0);
    assert forall|r: int, c: int| 0 <= r < 64 && 0 <= c < 64 implies step(g)[r][c] == h[r][c] by {
        if h[r][c] {
            assert(next_cell(g[r][c], neighbor_count(g, r, c)));
        } else {
            assert(!next_cell(g[r][c], neighbor_count(g, r, c)));
        }
    }
    assert(step(g) =~~= h);
}

/// The straight 3-cell line is a blinker: it oscillates with period 2,
/// returning to itself after two steps, wherever it stands on the torus.
pub proof fn lemma_blinker_period_two(r0: int, c0: int)
    requires
        0 <= r0 < 64,
        0 <= c0 < 64,
    ensures
        step(step(hline_grid(r0, c0))) == hline_grid(r0, c0),
{
    lemma_blinker_flips(r0, c0);
    lemma_blinker_flips_back(r0, c0);
}

/// The grid whose only live cells are a diagonal 3-cell line with top-left
/// end at (r0, c0), wrapping around the edges where the line crosses them.
pub open spec fn diag_grid(r0: int, c0: int) -> Seq<Seq<bool>> {
    Seq::new(
        64,
        |r: int|
            Seq::new(
                64,
                |c: int|
                    (r == r0 && c == c0) || (r == wrap_inc(r0) && c == wrap_inc(c0)) || (r
                        == wrap_inc(wrap_inc(r0)) && c == wrap_inc(wrap_inc(c0))),
            ),
    )
}

/// The grid whose only live cell is (r0, c0).
pub open spec fn single_grid(r0: int, c0: int) -> Seq<Seq<bool>> {
    Seq::new(64, |r: int| Seq::new(64, |c: int| r == r0 && c == c0))
}

/// The diagonal 3-cell line does not oscillate: its ends die with a single
/// neighbor each, only its middle cell survives, and no cell is born, so
/// one step leaves just the middle cell.
pub proof fn lemma_diag_line_collapses(r0: int, c0: int)
    requires
        0 <= r0 < 64,
        0 <= c0 < 64,
    ensures
        step(diag_grid(r0, c0)) == single_grid(wrap_inc(r0), wrap_inc(c0)),
{
    let g = diag_grid(r0, c0);
    let s = single_grid(wrap_inc(r0), wrap_inc(c0));
    assert forall|r: int, c: int| 0 <= r < 64 && 0 <= c < 64 implies step(g)[r][c] == s[r][c] by {
        if s[r][c] {
            assert(next_cell(g[r][c], neighbor_count(g, r, c)));
        } else {
            assert(!next_cell(g[r][c], neighbor_count(g, r, c)));
        }
    }
    assert(step(g) =~~= s);
}

/// A lone live cell has no live neighbors and dies, and no cell around it
/// can be born: one step leaves the all-dead grid.
pub proof fn lemma_single_cell_dies(r0: int, c0: int)
    requires
        0 <= r0 < 64,
        0 <= c0 < 64,
    ensures
        step(single_grid(r0, c0)) == dead_grid(),
{
    let g = single_grid(r0, c0);
    let d = dead_grid();
    assert forall|r: int, c: int| 0 <= r < 64 && 0 <= c < 64 implies step(g)[r][c] == d[r][c] by {
        assert(neighbor_count(g, r, c) <= 1);
    }
    assert(step(g) =~~= d);
}

/// Two steps after the diagonal 3-cell line, the grid is all dead: the
/// pattern vanishes instead of oscillating.
pub proof fn lemma_diag_line_dies(r0: int, c0: int)
    requires
        0 <= r0 < 64,
        0 <= c0 < 64,
    ensures
        step(step(diag_grid(r0, c0))) == dead_grid(),
{
    lemma_diag_line_collapses(r0, c0);
    lemma_single_cell_dies(wrap_inc(r0), wrap_inc(c0));
}

/// The logical row of the character at index `i`: how many newlines stand
/// before it.
pub open spec fn row_of(s: Seq<char>, i: int) -> int
    decreases i,
{
    if i <= 0 {
        0
    } else if s[i - 1] == '\n' {
        row_of(s, i - 1) + 1
    } else {
        row_of(s, i - 1)
    }
}

/// The logical column of the character at index `i`: how many characters
/// stand between it and the nearest newline before it.
pub open spec fn col_of(s: Seq<char>, i: int) -> int
    decreases i,
{
    if i <= 0 {
        0
    } else if s[i - 1] == '\n' {
        0
    } else {
        col_of(s, i - 1) + 1
    }
}

/// Whether a character belongs to the recognized marker set.
pub open spec fn marker(ch: char) -> bool {
    ch == '0' || ch == ' ' || ch == '1' || ch == '\n'
}

/// Whether the character at index `i` is acceptable to the decoder: a
/// marker, and if a live marker, one inside the 64x64 bounds.
pub open spec fn ok_at(s: Seq<char>, i: int) -> bool {
    marker(s[i]) && (s[i] == '1' ==> row_of(s, i) < 64 && col_of(s, i) < 64)
}

/// The earliest unacceptable index at or after `i`, or the length of `s`
/// when every one is acceptable.
pub open spec fn first_bad_from(s: Seq<char>, i: int) -> int
    decreases s.len() - i,
{
    if i < 0 || i >= s.len() {
        s.len() as int
    } else if !ok_at(s, i) {
        i
    } else {
        first_bad_from(s, i + 1)
    }
}

/// The error kind the character at an unacceptable index names.
pub open spec fn kind_at(s: Seq<char>, i: int) -> ParseErrorKind {
    if !marker(s[i]) {
        ParseErrorKind::UnexpectedChar(s[i])
    } else if row_of(s, i) >= 64 {
        ParseErrorKind::TooManyRows
    } else {
        ParseErrorKind::TooManyCols
    }
}

/// Whether some live marker before index `n` falls at logical (r, c).
pub open spec fn live_marker_before(s: Seq<char>, n: int, r: int, c: int) -> bool {
    exists|j: int| 0 <= j < n && s[j] == '1' && row_of(s, j) == r && col_of(s, j) == c
}

/// The grid a fully acceptable text describes: exactly the cells its live
/// markers name.
pub open spec fn marked_grid(s: Seq<char>) -> Seq<Seq<bool>> {
    Seq::new(64, |r: int| Seq::new(64, |c: int| live_marker_before(s, s.len() as int, r, c)))
}

/// Logical positions never go negative.
proof fn lemma_position_nonneg(s: Seq<char>, i: int)
    ensures
        row_of(s, i) >= 0,
        col_of(s, i) >= 0,
    decreases i,
{
    if i > 0 {
        lemma_position_nonneg(s, i - 1);
    }
}

/// A character that is no live marker adds no live cell.
proof fn lemma_live_marker_same(s: Seq<char>, i: int, r: int, c: int)
    requires
        0 <= i < s.len(),
        s[i] != '1',
    ensures
        live_marker_before(s, i + 1, r, c) == live_marker_before(s, i, r, c),
{
    if live_marker_before(s, i + 1, r, c) {
        let j = choose|j: int|
            0 <= j < i + 1 && s[j] == '1' && row_of(s, j) == r && col_of(s, j) == c;
        assert(j < i);
        assert(live_marker_before(s, i, r, c));
    }
    if live_marker_before(s, i, r, c) {
        let j = choose|j: int| 0 <= j < i && s[j] == '1' && row_of(s, j) == r && col_of(s, j) == c;
        assert(0 <= j < i + 1 && s[j] == '1' && row_of(s, j) == r && col_of(s, j) == c);
        assert(live_marker_before(s, i + 1, r, c));
    }
}

/// A live marker at index `i` adds exactly its own logical cell.
proof fn lemma_live_marker_extend(s: Seq<char>, i: int, r: int, c: int)
    requires
        0 <= i < s.len(),
        s[i] == '1',
    ensures
        live_marker_before(s, i + 1, r, c) == (live_marker_before(s, i, r, c) || (r == row_of(
            s,
            i,
        ) && c == col_of(s, i))),
{
    if live_marker_before(s, i + 1, r, c) {
        let j = choose|j: int|
            0 <= j < i + 1 && s[j] == '1' && row_of(s, j) == r && col_of(s, j) == c;
        if j < i {
            assert(live_marker_before(s, i, r, c));
        }
    }
    if live_marker_before(s, i, r, c) {
        let j = choose|j: int| 0 <= j < i && s[j] == '1' && row_of(s, j) == r && col_of(s, j) == c;
        assert(0 <= j < i + 1 && s[j] == '1' && row_of(s, j) == r && col_of(s, j) == c);
        assert(live_marker_before(s, i + 1, r, c));
    }
    if r == row_of(s, i) && c == col_of(s, i) {
        assert(0 <= i < i + 1 && s[i] == '1' && row_of(s, i) == r && col_of(s, i) == c);
        assert(live_marker_before(s, i + 1, r, c));
    }
}

/// Decoding from index `i` with the cursor at the logical position of `i`
/// and the cells of the live markers before `i` already accepted: it yields
/// the marked grid when every remaining character is acceptable, and the
/// earliest offender's kind and position when one is not.
proof fn lemma_parse_grammar_from(s: Seq<char>, i: int, h: Seq<Seq<bool>>)
    requires
        0 <= i <= s.len(),
        grid_wf(h),
        forall|r: int, c: int|
            0 <= r < 64 && 0 <= c < 64 ==> (#[trigger] h[r][c]) == live_marker_before(s, i, r, c),
    ensures
        first_bad_from(s, i) == s.len() ==> parse_from(s, i, row_of(s, i), col_of(s, i), h)
            == ParseOutcome::Ok(marked_grid(s)),
        first_bad_from(s, i) < s.len() ==> parse_from(s, i, row_of(s, i), col_of(s, i), h)
            == ParseOutcome::Err(
            (
                kind_at(s, first_bad_from(s, i)),
                row_of(s, first_bad_from(s, i)),
                col_of(s, first_bad_from(s, i)),
            ),
        ),
    decreases s.len() - i,
{
    if i == s.len() {
        assert(h =~~= marked_grid(s));
    } else {
        let ch = s[i];
        assert(row_of(s, i + 1) == if ch == '\n' {
            row_of(s, i) + 1
        } else {
            row_of(s, i)
        });
        assert(col_of(s, i + 1) == if ch == '\n' {
            0int
        } else {
            col_of(s, i) + 1
        });
        if ch == '\n' || ch == '0' || ch == ' ' {
            assert(ok_at(s, i));
            assert forall|r: int, c: int| 0 <= r < 64 && 0 <= c < 64 implies (#[trigger] h[r][c])
                == live_marker_before(s, i + 1, r, c) by {
                lemma_live_marker_same(s, i, r, c);
            }
            lemma_parse_grammar_from(s, i + 1, h);
        } else if ch == '1' {
            let row = row_of(s, i);
            let col = col_of(s, i);
            lemma_position_nonneg(s, i);
            if row >= 64 || col >= 64 {
                assert(!ok_at(s, i));
                assert(first_bad_from(s, i) == i);
            } else {
                assert(ok_at(s, i));
                let h2 = h.update(row, h[row].update(col, true));
                assert(grid_wf(h2));
                assert forall|r: int, c: int| 0 <= r < 64 && 0 <= c < 64 implies (#[trigger] h2[r][c])
                    == live_marker_before(s, i + 1, r, c) by {
                    lemma_live_marker_extend(s, i, r, c);
                }
                lemma_parse_grammar_from(s, i + 1, h2);
            }
        } else {
            assert(!marker(ch));
            assert(first_bad_from(s, i) == i);
        }
    }
}

/// `first_bad_from` points past acceptable characters only, and at an
/// unacceptable one whenever it stays inside the text.
proof fn lemma_first_bad_from_props(s: Seq<char>, i: int)
    requires
        0 <= i <= s.len(),
    ensures
        i <= first_bad_from(s, i) <= s.len(),
        forall|j: int| i <= j < first_bad_from(s, i) ==> ok_at(s, j),
        first_bad_from(s, i) < s.len() ==> !ok_at(s, first_bad_from(s, i)),
    decreases s.len() - i,
{
    if i < s.len() && ok_at(s, i) {
        lemma_first_bad_from_props(s, i + 1);
    }
}

/// Decoding succeeds when every character of the text is a recognized
/// marker and every live marker falls inside the 64x64 bounds, and the
/// decoded grid holds exactly the cells the live markers name.
pub proof fn lemma_decode_success(s: Seq<char>)
    requires
        forall|j: int| 0 <= j < s.len() ==> ok_at(s, j),
    ensures
        parse_text(s) == ParseOutcome::Ok(marked_grid(s)),
{
    lemma_first_bad_from_props(s, 0);
    assert(first_bad_from(s, 0) == s.len());
    lemma_parse_grammar_from(s, 0, dead_grid());
}

/// Decoding fails exactly at the earliest unacceptable character — an
/// unexpected character, or a live marker on a row or column index past 63
/// — with the kind its offence names and its 0-indexed logical position.
pub proof fn lemma_decode_failure(s: Seq<char>)
    requires
        exists|j: int| 0 <= j < s.len() && !ok_at(s, j),
    ensures
        ({
            let b = first_bad_from(s, 0);
            &&& 0 <= b < s.len()
            &&& !ok_at(s, b)
            &&& forall|j: int| 0 <= j < b ==> ok_at(s, j)
            &&& parse_text(s) == ParseOutcome::Err((kind_at(s, b), row_of(s, b), col_of(s, b)))
        }),
{
    lemma_first_bad_from_props(s, 0);
    let b = first_bad_from(s, 0);
    if b == s.len() {
        let j = choose|j: int| 0 <= j < s.len() && !ok_at(s, j);
        assert(ok_at(s, j));
        assert(false);
    }
    lemma_parse_grammar_from(s, 0, dead_grid());
}

/// Decoding the unbordered rendering of `g`, resumed at the logical cursor
/// (row, col) with the cells before the cursor already accepted into `h`,
/// yields exactly `g`. The induction walks the rendered text one character
/// at a time.
proof fn lemma_parse_render_from(
    g: Seq<Seq<bool>>,
    st: RenderStyle,
    row: int,
    col: int,
    h: Seq<Seq<bool>>,
)
    requires
        grid_wf(g),
        grid_wf(h),
        st.alive_glyph == '1',
        st.dead_glyph == '0' || st.dead_glyph == ' ',
        0 <= row <= 63,
        0 <= col <= 64,
        forall|r: int, c: int|
            0 <= r < 64 && 0 <= c < 64 ==> (#[trigger] h[r][c]) == if r < row || (r == row && c
                < col) {
                g[r][c]
            } else {
                false
            },
    ensures
        parse_from(render_plain(g, st), row * 65 + col, row, col, h) == ParseOutcome::Ok(g),
    decreases 64 * 65 - (row * 65 + col),
{
    let s = render_plain(g, st);
    let i = row * 65 + col;
    if col == 64 {
        if row == 63 {
            assert(i == s.len());
            assert(h =~~= g);
        } else {
            lemma_fundamental_div_mod_converse(i, 65, row, col);
            assert(s[i] == '\n');
            assert((row + 1) * 65 + 0 == i + 1);
            lemma_parse_render_from(g, st, row + 1, 0, h);
        }
    } else {
        lemma_fundamental_div_mod_converse(i, 65, row, col);
        assert(s[i] == glyph(st, g[row][col]));
        if g[row][col] {
            let h2 = h.update(row, h[row].update(col, true));
            assert(grid_wf(h2));
            assert(forall|r: int, c: int|
                0 <= r < 64 && 0 <= c < 64 ==> (#[trigger] h2[r][c]) == if r < row || (r == row
                    && c < col + 1) {
                    g[r][c]
                } else {
                    false
                });
            lemma_parse_render_from(g, st, row, col + 1, h2);
        } else {
            lemma_parse_render_from(g, st, row, col + 1, h);
        }
    }
}

/// Rendering and decoding round-trip on cell liveness: decoding the
/// unbordered rendering of any well-formed grid, drawn with the markers the
/// decoder accepts, reproduces the identical alive/dead pattern.
pub proof fn lemma_render_parse_round_trip(g: Seq<Seq<bool>>, st: RenderStyle)
    requires
        grid_wf(g),
        !st.border,
        st.alive_glyph == '1',
        st.dead_glyph == '0' || st.dead_glyph == ' ',
    ensures
        parse_text(render(g, st)) == ParseOutcome::Ok(g),
{
    lemma_parse_render_from(g, st, 0, 0, dead_grid());
}

} // verus!
