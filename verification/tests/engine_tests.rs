use toroidal_life::state::State;

/// Asserts that exactly the cells in `live` are alive in `s`.
fn assert_only_live(s: &State, live: &[(usize, usize)]) {
    for r in 0..64 {
        for c in 0..64 {
            let expected = live.contains(&(r, c));
            assert_eq!(
                s.get(r, c),
                expected,
                "cell ({}, {}) expected {}",
                r,
                c,
                expected
            );
        }
    }
}

fn state_with(live: &[(usize, usize)]) -> State {
    let mut s = State::new();
    for &(r, c) in live {
        s.set(r, c, true);
    }
    s
}

#[test]
fn new_grid_is_all_dead() {
    let s = State::new();
    assert_only_live(&s, &[]);
}

#[test]
fn set_and_get() {
    let mut s = State::new();
    s.set(0, 0, true);
    s.set(63, 63, true);
    s.set(12, 34, true);
    assert_only_live(&s, &[(0, 0), (63, 63), (12, 34)]);
    s.set(12, 34, false);
    assert_only_live(&s, &[(0, 0), (63, 63)]);
}

#[test]
fn advance_all_dead_stays_all_dead() {
    let mut s = State::new();
    s.advance();
    assert_only_live(&s, &[]);
    s.advance();
    assert_only_live(&s, &[]);
}

#[test]
fn block_is_a_still_life() {
    let block = [(10, 10), (10, 11), (11, 10), (11, 11)];
    let mut s = state_with(&block);
    for (r, c) in block {
        assert_eq!(s.check_neighbors(r, c), 3);
    }
    s.advance();
    assert_only_live(&s, &block);
    s.advance();
    assert_only_live(&s, &block);
}

#[test]
fn block_across_the_corner_is_a_still_life() {
    let block = [(63, 63), (63, 0), (0, 63), (0, 0)];
    let mut s = state_with(&block);
    s.advance();
    assert_only_live(&s, &block);
}

#[test]
fn blinker_oscillates_with_period_two() {
    let horizontal = [(20, 19), (20, 20), (20, 21)];
    let vertical = [(19, 20), (20, 20), (21, 20)];
    let mut s = state_with(&horizontal);
    s.advance();
    assert_only_live(&s, &vertical);
    s.advance();
    assert_only_live(&s, &horizontal);
}

#[test]
fn diagonal_line_dies_out() {
    let mut s = state_with(&[(5, 5), (6, 6), (7, 7)]);
    s.advance();
    assert_only_live(&s, &[(6, 6)]);
    s.advance();
    assert_only_live(&s, &[]);
}

#[test]
fn neighbor_at_opposite_corner_is_counted() {
    let s = state_with(&[(63, 63)]);
    assert_eq!(s.check_neighbors(0, 0), 1);
    assert_eq!(s.check_neighbors(62, 62), 1);
    assert_eq!(s.check_neighbors(0, 61), 0);
    assert_eq!(s.check_neighbors(2, 2), 0);
}

#[test]
fn cluster_across_the_corner_triggers_a_birth() {
    // Three live cells around (0, 0), each reached only through wraparound:
    // modular arithmetic, not clamping, must make them its neighbors.
    let mut s = state_with(&[(63, 63), (63, 0), (0, 63)]);
    assert_eq!(s.check_neighbors(0, 0), 3);
    s.advance();
    assert!(s.get(0, 0), "birth at (0, 0) requires wraparound");
}

#[test]
fn neighbor_count_never_exceeds_eight() {
    let mut s = State::new();
    for r in 0..64 {
        for c in 0..64 {
            s.set(r, c, true);
        }
    }
    for r in 0..64 {
        for c in 0..64 {
            let n = s.check_neighbors(r, c);
            assert_eq!(n, 8);
        }
    }
}

#[test]
fn glider_translates_by_one_after_four_steps() {
    let glider = [(20, 21), (21, 22), (22, 20), (22, 21), (22, 22)];
    let moved: Vec<(usize, usize)> = glider.iter().map(|&(r, c)| (r + 1, c + 1)).collect();
    let mut s = state_with(&glider);
    for _ in 0..4 {
        s.advance();
    }
    assert_only_live(&s, &moved);
}
