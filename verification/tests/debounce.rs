use keymatrix::event_mapper::{Event, Mapper};
use keymatrix::matrix::{KeyState, Matrix, DEBOUNCE_LENGTH};

fn snapshot(cells: &[&[bool]]) -> Vec<Vec<bool>> {
    cells.iter().map(|row| row.to_vec()).collect()
}

#[test]
fn fresh_matrix_reports_all_up() {
    let m = Matrix::new(3, 4, 2);
    assert_eq!(m.rows, 3);
    assert_eq!(m.columns, 4);
    assert_eq!(m.threshold, 2);
    for r in 0..3 {
        for c in 0..4 {
            assert_eq!(m.state[r][c], KeyState::Up);
            assert_eq!(m.counters[r][c], 0);
        }
    }
    assert!(!m.any());
}

#[test]
fn shipped_default_threshold_is_one() {
    assert_eq!(DEBOUNCE_LENGTH, 1);
}

#[test]
fn threshold_one_commits_immediately() {
    // Raw sequence [false, true] at one cell yields stabilized [Up, Down].
    let mut m = Matrix::new(1, 1, 1);
    let mut mp = Mapper::new(1, 1);
    m.update(&snapshot(&[&[false]]));
    assert_eq!(m.state[0][0], KeyState::Up);
    assert_eq!(m.counters[0][0], 0);
    assert_eq!(mp.step(&m.state)[0], None);
    m.update(&snapshot(&[&[true]]));
    assert_eq!(m.state[0][0], KeyState::Down);
    assert_eq!(m.counters[0][0], 0);
    assert!(m.any());
    // The KeyDown is emitted on the second sample.
    assert_eq!(mp.step(&m.state)[0], Some(Event::KeyDown { key: 0 }));
}

#[test]
fn threshold_two_commits_at_fifth_sample() {
    // Raw sequence [false, true, false, true, true]: the counter climbs
    // 0, 1, 0, 1 and reaches the threshold only at the fifth sample, where
    // Down commits and the counter resets.
    let mut m = Matrix::new(1, 1, 2);
    let mut mp = Mapper::new(1, 1);
    let expected = [
        (false, KeyState::Up, 0u8),
        (true, KeyState::Up, 1),
        (false, KeyState::Up, 0),
        (true, KeyState::Up, 1),
        (true, KeyState::Down, 0),
    ];
    let mut downs: usize = 0;
    for (sample, (raw, state, counter)) in expected.into_iter().enumerate() {
        m.update(&snapshot(&[&[raw]]));
        assert_eq!(m.state[0][0], state);
        assert_eq!(m.counters[0][0], counter);
        if let Some(event) = mp.step(&m.state)[0] {
            // Exactly one KeyDown is emitted, at the fifth sample.
            assert_eq!(event, Event::KeyDown { key: 0 });
            assert_eq!(sample, 4);
            downs += 1;
        }
    }
    assert_eq!(downs, 1);
}

#[test]
fn reverted_noise_never_commits() {
    // A disagreeing sample followed by an agreeing one cancels the
    // in-progress transition: the counter returns to 0, the state holds.
    let mut m = Matrix::new(1, 1, 3);
    m.update(&snapshot(&[&[true]]));
    assert_eq!(m.counters[0][0], 1);
    m.update(&snapshot(&[&[false]]));
    assert_eq!(m.state[0][0], KeyState::Up);
    assert_eq!(m.counters[0][0], 0);
    // Two disagreeing samples still do not commit below the threshold...
    m.update(&snapshot(&[&[true]]));
    m.update(&snapshot(&[&[true]]));
    assert_eq!(m.state[0][0], KeyState::Up);
    assert_eq!(m.counters[0][0], 2);
    // ...and only the third consecutive one does.
    m.update(&snapshot(&[&[true]]));
    assert_eq!(m.state[0][0], KeyState::Down);
    assert_eq!(m.counters[0][0], 0);
}

#[test]
fn release_debounces_like_press() {
    let mut m = Matrix::new(1, 1, 2);
    m.update(&snapshot(&[&[true]]));
    m.update(&snapshot(&[&[true]]));
    assert_eq!(m.state[0][0], KeyState::Down);
    // A single open reading does not release the key...
    m.update(&snapshot(&[&[false]]));
    assert_eq!(m.state[0][0], KeyState::Down);
    assert_eq!(m.counters[0][0], 1);
    // ...two consecutive ones do.
    m.update(&snapshot(&[&[false]]));
    assert_eq!(m.state[0][0], KeyState::Up);
    assert_eq!(m.counters[0][0], 0);
}

#[test]
fn cells_debounce_independently() {
    let mut m = Matrix::new(2, 2, 2);
    m.update(&snapshot(&[&[true, false], &[false, true]]));
    m.update(&snapshot(&[&[true, false], &[false, false]]));
    assert_eq!(m.state[0][0], KeyState::Down);
    assert_eq!(m.state[0][1], KeyState::Up);
    assert_eq!(m.state[1][0], KeyState::Up);
    assert_eq!(m.state[1][1], KeyState::Up);
    assert_eq!(m.counters[1][1], 0);
    assert!(m.any());
}

#[test]
fn empty_grid_is_never_asserted() {
    let mut m = Matrix::new(0, 0, 1);
    m.update(&snapshot(&[]));
    assert!(!m.any());
}
