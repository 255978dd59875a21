use toroidal_life::codec::{decode, encode, GridParseError, ParseErrorKind, RenderStyle};
use toroidal_life::state::State;

fn grids_equal(a: &State, b: &State) -> bool {
    for r in 0..64 {
        for c in 0..64 {
            if a.get(r, c) != b.get(r, c) {
                return false;
            }
        }
    }
    true
}

fn live_cells(s: &State) -> Vec<(usize, usize)> {
    let mut out = Vec::new();
    for r in 0..64 {
        for c in 0..64 {
            if s.get(r, c) {
                out.push((r, c));
            }
        }
    }
    out
}

fn marker_style() -> RenderStyle {
    RenderStyle {
        border: false,
        alive_glyph: '1',
        dead_glyph: '0',
    }
}

#[test]
fn decode_empty_text_gives_all_dead_grid() {
    let s = decode("").expect("empty text is a valid grid");
    assert_eq!(live_cells(&s), vec![]);
}

#[test]
fn decode_reads_markers_at_their_positions() {
    let s = decode("01\n10").expect("valid grid");
    assert_eq!(live_cells(&s), vec![(0, 1), (1, 0)]);
}

#[test]
fn decode_accepts_space_as_dead_marker() {
    let s = decode(" 1\n  1").expect("valid grid");
    assert_eq!(live_cells(&s), vec![(0, 1), (1, 2)]);
}

#[test]
fn decode_pads_short_rows_with_dead_cells() {
    let s = decode("1\n\n\n1").expect("valid grid");
    assert_eq!(live_cells(&s), vec![(0, 0), (3, 0)]);
}

#[test]
fn decode_allows_dead_markers_past_the_bounds() {
    let many_zeros = "0".repeat(200);
    let s = decode(&many_zeros).expect("dead markers past column 63 are ignored");
    assert_eq!(live_cells(&s), vec![]);
    let many_rows = "\n".repeat(200);
    let s = decode(&many_rows).expect("empty rows past row 63 are ignored");
    assert_eq!(live_cells(&s), vec![]);
}

#[test]
fn decode_fails_on_live_marker_on_row_64() {
    let text = format!("{}1", "\n".repeat(64));
    let err = decode(&text).expect_err("row 64 is out of bounds");
    assert_eq!(
        err,
        GridParseError {
            kind: ParseErrorKind::TooManyRows,
            row: 64,
            col: 0,
        }
    );
}

#[test]
fn decode_reports_the_column_of_a_row_overflow() {
    let text = format!("{}001", "\n".repeat(70));
    let err = decode(&text).expect_err("row 70 is out of bounds");
    assert_eq!(
        err,
        GridParseError {
            kind: ParseErrorKind::TooManyRows,
            row: 70,
            col: 2,
        }
    );
}

#[test]
fn decode_fails_on_live_marker_at_column_64() {
    let text = format!("{}1", "0".repeat(64));
    let err = decode(&text).expect_err("column 64 is out of bounds");
    assert_eq!(
        err,
        GridParseError {
            kind: ParseErrorKind::TooManyCols,
            row: 0,
            col: 64,
        }
    );
}

#[test]
fn decode_fails_on_unexpected_character() {
    let err = decode("0x").expect_err("x is no marker");
    assert_eq!(
        err,
        GridParseError {
            kind: ParseErrorKind::UnexpectedChar('x'),
            row: 0,
            col: 1,
        }
    );
}

#[test]
fn decode_reports_unexpected_character_verbatim_with_position() {
    let err = decode("01\n0\u{2588}").expect_err("a block glyph is no marker");
    assert_eq!(
        err,
        GridParseError {
            kind: ParseErrorKind::UnexpectedChar('\u{2588}'),
            row: 1,
            col: 1,
        }
    );
}

#[test]
fn decode_stops_at_the_first_error() {
    let err = decode("z1").expect_err("z is no marker");
    assert_eq!(err.kind, ParseErrorKind::UnexpectedChar('z'));
    assert_eq!((err.row, err.col), (0, 0));
}

#[test]
fn encode_then_decode_reproduces_the_pattern() {
    let mut s = State::new();
    for (r, c) in [(0, 0), (0, 63), (63, 0), (63, 63), (31, 31), (31, 32), (7, 55)] {
        s.set(r, c, true);
    }
    let text = encode(&s, marker_style());
    let back = decode(&text).expect("a rendering in marker glyphs decodes");
    assert!(grids_equal(&s, &back));
}

#[test]
fn encode_with_space_for_dead_also_round_trips() {
    let mut s = State::new();
    s.set(1, 2, true);
    s.set(62, 61, true);
    let style = RenderStyle {
        border: false,
        alive_glyph: '1',
        dead_glyph: ' ',
    };
    let text = encode(&s, style);
    let back = decode(&text).expect("spaces are dead markers");
    assert!(grids_equal(&s, &back));
}

#[test]
fn plain_encoding_has_one_line_per_row() {
    let mut s = State::new();
    s.set(0, 0, true);
    s.set(2, 63, true);
    let text = encode(&s, marker_style());
    let lines: Vec<&str> = text.lines().collect();
    assert_eq!(lines.len(), 64);
    assert_eq!(lines[0], format!("1{}", "0".repeat(63)));
    assert_eq!(lines[1], "0".repeat(64));
    assert_eq!(lines[2], format!("{}1", "0".repeat(63)));
    assert_eq!(text.chars().count(), 64 * 65 - 1);
    assert!(!text.ends_with('\n'));
}

#[test]
fn bordered_encoding_frames_the_grid() {
    let mut s = State::new();
    s.set(0, 0, true);
    let style = RenderStyle {
        border: true,
        alive_glyph: '\u{2588}',
        dead_glyph: ' ',
    };
    let text = encode(&s, style);
    let lines: Vec<&str> = text.lines().collect();
    assert_eq!(lines.len(), 66);
    assert_eq!(
        lines[0],
        format!("\u{2554}{}\u{2557}", "\u{2550}".repeat(64))
    );
    assert_eq!(
        lines[1],
        format!("\u{2551}\u{2588}{}\u{2551}", " ".repeat(63))
    );
    assert_eq!(lines[2], format!("\u{2551}{}\u{2551}", " ".repeat(64)));
    assert_eq!(
        lines[65],
        format!("\u{255a}{}\u{255d}", "\u{2550}".repeat(64))
    );
    assert_eq!(text.chars().count(), 66 * 67 - 1);
    assert!(text.ends_with('\u{255d}'));
}

#[test]
fn encode_is_read_only() {
    let mut s = State::new();
    s.set(3, 4, true);
    let before = live_cells(&s);
    let _ = encode(&s, marker_style());
    let style = RenderStyle {
        border: true,
        alive_glyph: '\u{2588}',
        dead_glyph: ' ',
    };
    let _ = encode(&s, style);
    assert_eq!(live_cells(&s), before);
}
