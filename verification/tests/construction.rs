use behavior_tree::{Cursor, EmptyComposite, Event, StartState, Status};
use piston::keyboard::Key;

/// Runs until it has been given as much time as its number says.
struct Countdown(u64);

impl StartState<u64> for Countdown {
    fn initial(&self) -> u64 {
        self.0
    }

    fn next(&self, dt: u64, state: u64, _input: Option<Key>) -> (Status, u64) {
        if state <= dt {
            (Status::Success, 0)
        } else {
            (Status::Running, state - dt)
        }
    }

    fn start_state(&self) -> u64 {
        self.initial()
    }

    fn update(&self, dt: u64, state: &mut u64, input: Option<Key>) -> Status {
        let (status, after) = self.next(dt, *state, input);
        *state = after;
        status
    }
}

fn rejected(tree: &Event<Countdown>) -> bool {
    let made: Result<Cursor<'_, Countdown, u64>, EmptyComposite> = tree.to_cursor();
    matches!(made, Err(EmptyComposite))
}

#[test]
fn empty_sequence_is_rejected() {
    let tree = Event::Sequence(vec![]);
    assert!(!tree.is_well_formed());
    assert!(rejected(&tree));
}

#[test]
fn empty_when_all_is_rejected() {
    let tree = Event::WhenAll(vec![]);
    assert!(!tree.is_well_formed());
    assert!(rejected(&tree));
}

#[test]
fn empty_while_body_is_rejected() {
    let tree = Event::While(Box::new(Event::Wait(1)), vec![]);
    assert!(!tree.is_well_formed());
    assert!(rejected(&tree));
}

#[test]
fn empty_while_body_is_rejected_whatever_the_condition() {
    let conditions = vec![
        Event::KeyPressed(Key::A),
        Event::Action(Countdown(1)),
        Event::Sequence(vec![Event::Wait(1)]),
        Event::Sequence(vec![]),
    ];
    for condition in conditions {
        assert!(rejected(&Event::While(Box::new(condition), vec![])));
    }
}

#[test]
fn empty_list_is_rejected_below_an_invert() {
    assert!(rejected(&Event::Invert(Box::new(Event::WhenAll(vec![])))));
}

#[test]
fn empty_list_is_rejected_in_a_condition() {
    let tree = Event::While(Box::new(Event::Sequence(vec![])), vec![Event::Wait(1)]);
    assert!(rejected(&tree));
}

#[test]
fn empty_list_is_rejected_in_a_sub_event_that_is_reached_later() {
    let tree = Event::Sequence(vec![
        Event::Wait(1),
        Event::Wait(1),
        Event::While(Box::new(Event::Wait(1)), vec![Event::Wait(1), Event::WhenAll(vec![])]),
    ]);
    assert!(!tree.is_well_formed());
    assert!(rejected(&tree));
}

#[test]
fn leaves_are_well_formed() {
    assert!(Event::<Countdown>::KeyPressed(Key::A).is_well_formed());
    assert!(Event::Action(Countdown(3)).is_well_formed());
    assert!(Event::<Countdown>::Wait(0).is_well_formed());
    assert!(!rejected(&Event::KeyPressed(Key::A)));
    assert!(!rejected(&Event::Action(Countdown(3))));
    assert!(!rejected(&Event::Wait(0)));
}

#[test]
fn tree_with_sub_events_everywhere_is_well_formed() {
    let tree = Event::While(
        Box::new(Event::Invert(Box::new(Event::KeyPressed(Key::Escape)))),
        vec![
            Event::Sequence(vec![Event::Action(Countdown(2)), Event::Wait(1)]),
            Event::WhenAll(vec![Event::Wait(1), Event::Action(Countdown(1))]),
        ],
    );
    assert!(tree.is_well_formed());
    assert!(!rejected(&tree));
}

#[test]
fn cursor_of_a_tree_mirrors_its_shape() {
    let tree = Event::While(
        Box::new(Event::Invert(Box::new(Event::KeyPressed(Key::Escape)))),
        vec![
            Event::Sequence(vec![Event::Action(Countdown(2)), Event::Wait(1)]),
            Event::WhenAll(vec![Event::Wait(1), Event::Action(Countdown(1))]),
        ],
    );
    let cursor: Cursor<'_, Countdown, u64> = tree.to_cursor().unwrap();
    match cursor {
        Cursor::WhileCursor(condition, body, index, active) => {
            assert!(matches!(
                *condition,
                Cursor::InvertCursor(ref key) if matches!(**key, Cursor::KeyPressedCursor(Key::Escape))
            ));
            assert_eq!(body.len(), 2);
            assert_eq!(index, 0);
            match *active {
                Cursor::SequenceCursor(children, 0, first) => {
                    assert_eq!(children.len(), 2);
                    assert!(matches!(*first, Cursor::ActionCursor(_, 2)));
                }
                _ => panic!("the body starts with its sequence"),
            }
        }
        _ => panic!("a loop compiles to the cursor of a loop"),
    }
}

#[test]
fn whole_tree_runs_to_its_end() {
    let tree = Event::While(
        Box::new(Event::Invert(Box::new(Event::KeyPressed(Key::Escape)))),
        vec![
            Event::Sequence(vec![Event::Action(Countdown(2)), Event::Wait(1)]),
            Event::WhenAll(vec![Event::Wait(2), Event::Action(Countdown(1))]),
        ],
    );
    let mut cursor: Cursor<'_, Countdown, u64> = tree.to_cursor().unwrap();
    for _ in 0..12 {
        assert_eq!(cursor.step(1, None), Status::Running);
    }
    assert_eq!(cursor.step(1, Some(Key::A)), Status::Running);
    assert_eq!(cursor.step(1, Some(Key::Escape)), Status::Failure);
}

#[test]
fn two_cursors_of_one_tree_run_apart() {
    let tree = Event::Sequence(vec![Event::Action(Countdown(2)), Event::Wait(1)]);
    let mut one: Cursor<'_, Countdown, u64> = tree.to_cursor().unwrap();
    let mut other: Cursor<'_, Countdown, u64> = tree.to_cursor().unwrap();
    assert_eq!(one.step(2, None), Status::Running);
    assert_eq!(one.step(1, None), Status::Success);
    assert_eq!(other.step(1, None), Status::Running);
    assert_eq!(other.step(1, None), Status::Running);
    assert_eq!(other.step(1, None), Status::Success);
}
