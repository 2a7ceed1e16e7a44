//! The bounded timer working set: fire order, replacement, and eviction.

use workflow_core::timer_service::{TimerKey, TimerKeyValue, TimerQueue};

fn timer(wake_up_time: u64, seq: u64, payload: u8) -> TimerKeyValue {
    TimerKeyValue { key: TimerKey { wake_up_time, seq }, payload: vec![payload] }
}

#[test]
fn timers_fire_in_nondecreasing_order() {
    let mut queue = TimerQueue::new(None);
    queue.add_timer(timer(30, 0, 3));
    queue.add_timer(timer(10, 1, 1));
    queue.add_timer(timer(20, 0, 2));
    queue.add_timer(timer(10, 0, 0));

    let mut fired = Vec::new();
    while let Some(t) = queue.pop_next() {
        fired.push(t.key);
    }
    assert_eq!(
        fired,
        vec![
            TimerKey { wake_up_time: 10, seq: 0 },
            TimerKey { wake_up_time: 10, seq: 1 },
            TimerKey { wake_up_time: 20, seq: 0 },
            TimerKey { wake_up_time: 30, seq: 0 },
        ]
    );
}

#[test]
fn adding_a_held_key_replaces_its_payload() {
    let mut queue = TimerQueue::new(Some(1));
    queue.add_timer(timer(10, 0, 1));
    queue.add_timer(timer(10, 0, 9));
    let fired = queue.pop_next().unwrap();
    assert_eq!(fired.payload, vec![9]);
    assert!(queue.pop_next().is_none());
}

#[test]
fn full_working_set_keeps_the_earliest_timers() {
    let mut queue = TimerQueue::new(Some(2));
    queue.add_timer(timer(10, 0, 1));
    queue.add_timer(timer(30, 0, 3));

    // Later than everything held and the set is full: dropped, storage keeps it.
    queue.add_timer(timer(40, 0, 4));
    // Earlier than the latest held: evicts it.
    queue.add_timer(timer(20, 0, 2));

    let first = queue.pop_next().unwrap();
    let second = queue.pop_next().unwrap();
    assert_eq!(first.key, TimerKey { wake_up_time: 10, seq: 0 });
    assert_eq!(second.key, TimerKey { wake_up_time: 20, seq: 0 });
    assert!(queue.pop_next().is_none());
}

#[test]
fn removed_timers_do_not_fire() {
    let mut queue = TimerQueue::new(Some(4));
    queue.add_timer(timer(10, 0, 1));
    queue.add_timer(timer(20, 0, 2));
    queue.remove_timer(TimerKey { wake_up_time: 10, seq: 0 });
    let fired = queue.pop_next().unwrap();
    assert_eq!(fired.key, TimerKey { wake_up_time: 20, seq: 0 });
    assert!(queue.pop_next().is_none());
}
