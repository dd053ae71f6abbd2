use roguelike_core::{Action, Arena, Creature, Handle, Position, Scheduler, SchedulerError};

fn mock_creature(name: &str) -> Creature {
    Creature::demon(String::from(name), 10, 10, Position { x: 10, y: 10, level: 0 }, 10)
}

fn creatures_setup() -> (Arena<Creature>, Vec<Handle>) {
    let mut creatures = Arena::new();
    let handles = ["Abaddon", "Asmodeus", "Baal", "Baphomet"]
        .iter()
        .map(|name| creatures.insert(mock_creature(name)))
        .collect();
    (creatures, handles)
}

#[test]
fn sequential_actions() {
    let (creatures, handles) = creatures_setup();
    let mut scheduler = Scheduler::new();
    scheduler.post_action(&creatures, Action::Wait(handles[0], 1));
    scheduler.post_action(&creatures, Action::Wait(handles[1], 2));
    scheduler.post_action(&creatures, Action::Wait(handles[2], 3));

    let expected: Vec<_> = handles
        .iter()
        .take(3)
        .map(|actor| creatures.get(*actor).unwrap().name().to_owned())
        .collect();
    let mut result = vec![];
    // Every creature is given a new action after each of its turns, so the
    // queue never runs dry: watch the first round only.
    while result.len() < expected.len() {
        match scheduler.pop_next(&creatures) {
            Ok(action) => {
                let actor = creatures.get(*action.actor()).unwrap();
                result.push(actor.name().to_owned());
            }
            Err(SchedulerError::ActionNotAssigned(creature)) => {
                scheduler.post_action(&creatures, Action::Wait(creature, 5))
            }
            Err(SchedulerError::QueueIsEmpty) => break,
        }
    }
    assert_eq!(
        result,
        expected,
        "Actions nots equential:\n\tActual: {:?}\n\tExpected (must be {:?})",
        result,
        expected
    );
}

#[test]
fn non_assigned() {
    let (creatures, handles) = creatures_setup();
    let mut scheduler = Scheduler::new();
    scheduler.post_action(&creatures, Action::Wait(handles[0], 1));
    scheduler.post_action(&creatures, Action::Wait(handles[1], 2));
    scheduler.post_action(&creatures, Action::Wait(handles[2], 3));
    let _ = scheduler.pop_next(&creatures);
    assert!(scheduler.pop_next(&creatures).is_err());
}

#[test]
fn fair_order_with_rearming() {
    let (creatures, h) = creatures_setup();
    let mut scheduler = Scheduler::new();
    scheduler.post_action(&creatures, Action::Wait(h[0], 1));
    scheduler.post_action(&creatures, Action::Wait(h[1], 2));
    scheduler.post_action(&creatures, Action::Wait(h[2], 3));
    assert_eq!(scheduler.pop_next(&creatures), Ok(Action::Wait(h[0], 1)));
    assert_eq!(scheduler.pop_next(&creatures), Err(SchedulerError::ActionNotAssigned(h[0])));
    assert_eq!(scheduler.peek_next(&creatures), Err(SchedulerError::ActionNotAssigned(h[0])));
    scheduler.post_action(&creatures, Action::Wait(h[0], 5));
    assert_eq!(scheduler.peek_next(&creatures), Ok(&Action::Wait(h[1], 2)));
    assert_eq!(scheduler.pop_next(&creatures), Ok(Action::Wait(h[1], 2)));
    scheduler.post_action(&creatures, Action::Wait(h[1], 50));
    assert_eq!(scheduler.pop_next(&creatures), Ok(Action::Wait(h[2], 3)));
    scheduler.post_action(&creatures, Action::Wait(h[2], 50));
    assert_eq!(scheduler.pop_next(&creatures), Ok(Action::Wait(h[0], 5)));
}

#[test]
fn equal_costs_fire_in_posting_order() {
    let (creatures, h) = creatures_setup();
    let mut scheduler = Scheduler::new();
    scheduler.post_action(&creatures, Action::Wait(h[2], 4));
    scheduler.post_action(&creatures, Action::Wait(h[0], 4));
    scheduler.post_action(&creatures, Action::Wait(h[1], 4));
    assert_eq!(scheduler.pop_next(&creatures), Ok(Action::Wait(h[2], 4)));
    scheduler.post_action(&creatures, Action::Wait(h[2], 9));
    assert_eq!(scheduler.pop_next(&creatures), Ok(Action::Wait(h[0], 4)));
    scheduler.post_action(&creatures, Action::Wait(h[0], 9));
    assert_eq!(scheduler.pop_next(&creatures), Ok(Action::Wait(h[1], 4)));
}

#[test]
fn relative_clock() {
    let (creatures, h) = creatures_setup();
    let mut scheduler = Scheduler::new();
    scheduler.post_action(&creatures, Action::Wait(h[0], 2));
    scheduler.post_action(&creatures, Action::Wait(h[1], 5));
    assert_eq!(scheduler.time_left(h[1]), Some(5));
    assert_eq!(scheduler.pop_next(&creatures), Ok(Action::Wait(h[0], 2)));
    assert_eq!(scheduler.time_left(h[0]), None);
    assert_eq!(scheduler.time_left(h[1]), Some(3));
    scheduler.post_action(&creatures, Action::Wait(h[0], 10));
    assert_eq!(scheduler.time_left(h[0]), Some(10));
    assert_eq!(scheduler.pop_next(&creatures), Ok(Action::Wait(h[1], 5)));
    // 2 elapsed before and 3 when it fired: 5 in all, its cost when posted.
    assert_eq!(scheduler.time_left(h[0]), Some(7));
}

#[test]
fn dead_awaiting_creature_is_pruned() {
    let (mut creatures, h) = creatures_setup();
    let mut scheduler = Scheduler::new();
    scheduler.post_action(&creatures, Action::Wait(h[0], 1));
    scheduler.post_action(&creatures, Action::Wait(h[1], 2));
    assert_eq!(scheduler.pop_next(&creatures), Ok(Action::Wait(h[0], 1)));
    creatures.remove(h[0]);
    for _ in 0..3 {
        assert_eq!(scheduler.peek_next(&creatures), Ok(&Action::Wait(h[1], 2)));
    }
    assert_eq!(scheduler.pop_next(&creatures), Ok(Action::Wait(h[1], 2)));
    creatures.remove(h[1]);
    for _ in 0..3 {
        assert_eq!(scheduler.pop_next(&creatures), Err(SchedulerError::QueueIsEmpty));
        assert_eq!(scheduler.peek_next(&creatures), Err(SchedulerError::QueueIsEmpty));
    }
}

#[test]
fn empty_queue() {
    let (creatures, _) = creatures_setup();
    let mut scheduler = Scheduler::new();
    assert_eq!(scheduler.peek_next(&creatures), Err(SchedulerError::QueueIsEmpty));
    assert_eq!(scheduler.pop_next(&creatures), Err(SchedulerError::QueueIsEmpty));
}

#[test]
fn action_of_dead_creature_costs_nothing() {
    let (mut creatures, h) = creatures_setup();
    let mut scheduler = Scheduler::new();
    creatures.remove(h[3]);
    scheduler.post_action(&creatures, Action::Wait(h[0], 1));
    scheduler.post_action(&creatures, Action::Wait(h[3], 40));
    assert_eq!(scheduler.time_left(h[3]), Some(0));
    assert_eq!(scheduler.pop_next(&creatures), Ok(Action::Wait(h[3], 40)));
    // its actor is dead, so nobody waits to be re-armed
    assert_eq!(scheduler.pop_next(&creatures), Ok(Action::Wait(h[0], 1)));
}
