use behavior_tree::{Cursor, Event, StartState, Status};
use piston::keyboard::Key;

/// Reports the listed statuses one by one, and the last of them from then on. Its state is
/// the number of steps it has taken.
struct Script(Vec<Status>);

impl StartState<usize> for Script {
    fn initial(&self) -> usize {
        0
    }

    fn next(&self, _dt: u64, state: usize, _input: Option<Key>) -> (Status, usize) {
        let at = if state < self.0.len() { state } else { self.0.len() - 1 };
        (self.0[at], state + 1)
    }

    fn start_state(&self) -> usize {
        self.initial()
    }

    fn update(&self, dt: u64, state: &mut usize, input: Option<Key>) -> Status {
        let (status, after) = self.next(dt, *state, input);
        *state = after;
        status
    }
}

/// Adds up the time it is given, starting from its number. Succeeds on `Space`, fails on
/// `Escape` and runs on otherwise.
struct Meter(u64);

impl StartState<u64> for Meter {
    fn initial(&self) -> u64 {
        self.0
    }

    fn next(&self, dt: u64, state: u64, input: Option<Key>) -> (Status, u64) {
        let status = match input {
            Some(Key::Space) => Status::Success,
            Some(Key::Escape) => Status::Failure,
            _ => Status::Running,
        };
        (status, state + dt)
    }

    fn start_state(&self) -> u64 {
        self.initial()
    }

    fn update(&self, dt: u64, state: &mut u64, input: Option<Key>) -> Status {
        let (status, after) = self.next(dt, *state, input);
        *state = after;
        status
    }
}

fn script(statuses: &[Status]) -> Event<Script> {
    Event::Action(Script(statuses.to_vec()))
}

#[test]
fn status_invert_exchanges_the_outcomes() {
    assert_eq!(Status::Success.invert(), Status::Failure);
    assert_eq!(Status::Failure.invert(), Status::Success);
    assert_eq!(Status::Running.invert(), Status::Running);
}

#[test]
fn key_pressed_succeeds_for_its_key() {
    let tree: Event<Script> = Event::KeyPressed(Key::A);
    let mut cursor: Cursor<'_, Script, usize> = tree.to_cursor().unwrap();
    assert_eq!(cursor.step(1, Some(Key::A)), Status::Success);
    assert!(matches!(cursor, Cursor::KeyPressedCursor(Key::A)));
}

#[test]
fn key_pressed_fails_for_another_key() {
    let tree: Event<Script> = Event::KeyPressed(Key::A);
    let mut cursor: Cursor<'_, Script, usize> = tree.to_cursor().unwrap();
    assert_eq!(cursor.step(1, Some(Key::B)), Status::Failure);
    assert_eq!(cursor.step(1, Some(Key::Unknown)), Status::Failure);
}

#[test]
fn key_pressed_fails_without_input() {
    let tree: Event<Script> = Event::KeyPressed(Key::Unknown);
    let mut cursor: Cursor<'_, Script, usize> = tree.to_cursor().unwrap();
    assert_eq!(cursor.step(0, None), Status::Failure);
}

#[test]
fn key_pressed_looks_at_each_step_anew() {
    let tree: Event<Script> = Event::KeyPressed(Key::Return);
    let mut cursor: Cursor<'_, Script, usize> = tree.to_cursor().unwrap();
    assert_eq!(cursor.step(1, Some(Key::Return)), Status::Success);
    assert_eq!(cursor.step(1, None), Status::Failure);
    assert_eq!(cursor.step(1, Some(Key::Return)), Status::Success);
}

#[test]
fn action_starts_in_its_start_state() {
    let tree = Event::Action(Meter(40));
    let cursor: Cursor<'_, Meter, u64> = tree.to_cursor().unwrap();
    match cursor {
        Cursor::ActionCursor(action, state) => {
            assert_eq!(action.0, 40);
            assert_eq!(state, 40);
        }
        _ => panic!("an action compiles to an action cursor"),
    }
}

#[test]
fn action_is_given_time_and_input() {
    let tree = Event::Action(Meter(40));
    let mut cursor: Cursor<'_, Meter, u64> = tree.to_cursor().unwrap();
    assert_eq!(cursor.step(2, None), Status::Running);
    assert_eq!(cursor.step(5, Some(Key::A)), Status::Running);
    assert_eq!(cursor.step(10, Some(Key::Space)), Status::Success);
    assert_eq!(cursor.step(100, Some(Key::Escape)), Status::Failure);
    assert!(matches!(cursor, Cursor::ActionCursor(_, 157)));
}

#[test]
fn action_reports_what_update_reports() {
    let tree = script(&[Status::Running, Status::Failure, Status::Success]);
    let mut cursor: Cursor<'_, Script, usize> = tree.to_cursor().unwrap();
    assert_eq!(cursor.step(1, None), Status::Running);
    assert_eq!(cursor.step(1, None), Status::Failure);
    assert_eq!(cursor.step(1, None), Status::Success);
    assert!(matches!(cursor, Cursor::ActionCursor(_, 3)));
}

#[test]
fn invert_exchanges_success_and_failure() {
    let tree = Event::Invert(Box::new(script(&[
        Status::Running,
        Status::Success,
        Status::Failure,
    ])));
    let mut cursor: Cursor<'_, Script, usize> = tree.to_cursor().unwrap();
    assert_eq!(cursor.step(1, None), Status::Running);
    assert_eq!(cursor.step(1, None), Status::Failure);
    assert_eq!(cursor.step(1, None), Status::Success);
}

#[test]
fn invert_of_key_pressed_succeeds_when_the_key_is_not_pressed() {
    let tree: Event<Script> = Event::Invert(Box::new(Event::KeyPressed(Key::A)));
    let mut cursor: Cursor<'_, Script, usize> = tree.to_cursor().unwrap();
    assert_eq!(cursor.step(1, Some(Key::B)), Status::Success);
    assert_eq!(cursor.step(1, Some(Key::A)), Status::Failure);
}

#[test]
fn double_invert_reports_like_the_event() {
    let statuses = [
        Status::Running,
        Status::Running,
        Status::Failure,
        Status::Running,
        Status::Success,
    ];
    let plain = script(&statuses);
    let twice = Event::Invert(Box::new(Event::Invert(Box::new(script(&statuses)))));
    let mut one: Cursor<'_, Script, usize> = plain.to_cursor().unwrap();
    let mut other: Cursor<'_, Script, usize> = twice.to_cursor().unwrap();
    for (tick, expected) in statuses.iter().enumerate() {
        let dt = tick as u64;
        assert_eq!(one.step(dt, None), *expected);
        assert_eq!(other.step(dt, None), *expected);
    }
}

#[test]
fn double_invert_of_a_wait_reports_like_the_wait() {
    let plain: Event<Script> = Event::Wait(5);
    let twice: Event<Script> = Event::Invert(Box::new(Event::Invert(Box::new(Event::Wait(5)))));
    let mut one: Cursor<'_, Script, usize> = plain.to_cursor().unwrap();
    let mut other: Cursor<'_, Script, usize> = twice.to_cursor().unwrap();
    for _ in 0..4 {
        assert_eq!(one.step(2, Some(Key::A)), other.step(2, Some(Key::A)));
    }
}

#[test]
fn wait_for_no_time_succeeds_at_once() {
    for dt in [0, 1, 1000, u64::MAX] {
        let tree: Event<Script> = Event::Wait(0);
        let mut cursor: Cursor<'_, Script, usize> = tree.to_cursor().unwrap();
        assert_eq!(cursor.step(dt, None), Status::Success);
    }
}

#[test]
fn wait_starts_with_no_time_waited() {
    let tree: Event<Script> = Event::Wait(10);
    let cursor: Cursor<'_, Script, usize> = tree.to_cursor().unwrap();
    assert!(matches!(cursor, Cursor::WaitCursor(10, 0)));
}

#[test]
fn wait_runs_until_its_time_has_passed() {
    let tree: Event<Script> = Event::Wait(10);
    let mut cursor: Cursor<'_, Script, usize> = tree.to_cursor().unwrap();
    assert_eq!(cursor.step(3, None), Status::Running);
    assert!(matches!(cursor, Cursor::WaitCursor(10, 3)));
    assert_eq!(cursor.step(3, None), Status::Running);
    assert!(matches!(cursor, Cursor::WaitCursor(10, 6)));
    assert_eq!(cursor.step(3, None), Status::Running);
    assert!(matches!(cursor, Cursor::WaitCursor(10, 9)));
    assert_eq!(cursor.step(3, None), Status::Success);
    assert!(matches!(cursor, Cursor::WaitCursor(10, 12)));
    assert_eq!(cursor.step(3, None), Status::Success);
    assert!(matches!(cursor, Cursor::WaitCursor(10, 15)));
}

#[test]
fn wait_succeeds_when_the_time_is_reached_exactly() {
    let tree: Event<Script> = Event::Wait(10);
    let mut cursor: Cursor<'_, Script, usize> = tree.to_cursor().unwrap();
    assert_eq!(cursor.step(9, None), Status::Running);
    assert_eq!(cursor.step(0, None), Status::Running);
    assert_eq!(cursor.step(1, None), Status::Success);
}

#[test]
fn wait_takes_no_notice_of_keys() {
    let tree: Event<Script> = Event::Wait(2);
    let mut cursor: Cursor<'_, Script, usize> = tree.to_cursor().unwrap();
    assert_eq!(cursor.step(1, Some(Key::Escape)), Status::Running);
    assert_eq!(cursor.step(1, Some(Key::Escape)), Status::Success);
}

#[test]
fn wait_stops_counting_at_the_largest_time() {
    let tree: Event<Script> = Event::Wait(u64::MAX);
    let mut cursor: Cursor<'_, Script, usize> = tree.to_cursor().unwrap();
    assert_eq!(cursor.step(u64::MAX - 1, None), Status::Running);
    assert!(matches!(cursor, Cursor::WaitCursor(u64::MAX, elapsed) if elapsed == u64::MAX - 1));
    assert_eq!(cursor.step(5, None), Status::Success);
    assert!(matches!(cursor, Cursor::WaitCursor(u64::MAX, u64::MAX)));
    assert_eq!(cursor.step(u64::MAX, None), Status::Success);
    assert!(matches!(cursor, Cursor::WaitCursor(u64::MAX, u64::MAX)));
}
