use keymatrix::event_mapper::{Detector, Event, Mapper, SimpleKey};
use keymatrix::matrix::KeyState;

fn grid(cells: &[&[KeyState]]) -> Vec<Vec<KeyState>> {
    cells.iter().map(|row| row.to_vec()).collect()
}

#[test]
fn detector_emits_on_transitions_only() {
    let mut d = SimpleKey::Waiting { id: 7 };
    assert_eq!(d.step(KeyState::Down), Some(Event::KeyDown { key: 7 }));
    assert_eq!(d.step(KeyState::Down), None);
    assert_eq!(d.step(KeyState::Up), Some(Event::KeyUp { key: 7 }));
    assert_eq!(d.step(KeyState::Up), None);
}

#[test]
fn detector_events_alternate() {
    // Over any input sequence the emitted events strictly alternate
    // KeyDown, KeyUp, KeyDown, ... and their running difference is 0 or 1.
    let inputs = [
        KeyState::Down,
        KeyState::Down,
        KeyState::Up,
        KeyState::Up,
        KeyState::Down,
        KeyState::Up,
        KeyState::Down,
    ];
    let mut d = SimpleKey::Waiting { id: 0 };
    let mut downs = 0i64;
    let mut ups = 0i64;
    let mut last_was_down: Option<bool> = None;
    for input in inputs {
        match d.step(input) {
            Some(Event::KeyDown { .. }) => {
                assert_ne!(last_was_down, Some(true));
                last_was_down = Some(true);
                downs += 1;
            }
            Some(Event::KeyUp { .. }) => {
                assert_ne!(last_was_down, Some(false));
                last_was_down = Some(false);
                ups += 1;
            }
            None => {}
        }
        let balance = downs - ups;
        assert!(balance == 0 || balance == 1);
    }
    assert_eq!(downs, 3);
    assert_eq!(ups, 2);
}

#[test]
fn mapper_binds_row_major_ids() {
    let mut mp = Mapper::new(2, 3);
    let mut state = grid(&[
        &[KeyState::Up, KeyState::Up, KeyState::Up],
        &[KeyState::Up, KeyState::Up, KeyState::Down],
    ]);
    let events = mp.step(&state);
    assert_eq!(events.len(), 6);
    for (i, event) in events.iter().enumerate() {
        if i == 5 {
            assert_eq!(*event, Some(Event::KeyDown { key: 5 }));
        } else {
            assert_eq!(*event, None);
        }
    }
    // Releasing the same cell emits a KeyUp with the same id.
    state[1][2] = KeyState::Up;
    let events = mp.step(&state);
    assert_eq!(events[5], Some(Event::KeyUp { key: 5 }));
    assert!(events.iter().enumerate().all(|(i, e)| i == 5 || e.is_none()));
}

#[test]
fn mapper_step_is_idempotent_on_unchanged_state() {
    let mut mp = Mapper::new(2, 2);
    let state = grid(&[&[KeyState::Down, KeyState::Up], &[KeyState::Up, KeyState::Down]]);
    let first = mp.step(&state);
    assert_eq!(first[0], Some(Event::KeyDown { key: 0 }));
    assert_eq!(first[3], Some(Event::KeyDown { key: 3 }));
    let second = mp.step(&state);
    assert!(second.iter().all(|e| e.is_none()));
}

#[test]
fn mapper_handles_empty_grid() {
    let mut mp = Mapper::new(0, 4);
    let events = mp.step(&grid(&[]));
    assert!(events.is_empty());
}

#[test]
fn detector_usable_through_trait() {
    fn step_all(cells: &mut [Box<dyn Detector>], state: KeyState) -> Vec<Option<Event>> {
        cells.iter_mut().map(|d| d.step(state)).collect()
    }
    let mut cells: Vec<Box<dyn Detector>> = vec![
        Box::new(SimpleKey::Waiting { id: 0 }),
        Box::new(SimpleKey::Triggered { id: 1 }),
    ];
    let events = step_all(&mut cells, KeyState::Down);
    assert_eq!(events[0], Some(Event::KeyDown { key: 0 }));
    assert_eq!(events[1], None);
}
