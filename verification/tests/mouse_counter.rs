use touchpad_toggle_daemon::MouseCounter;

#[test]
fn starts_at_zero_by_default() {
    assert_eq!(MouseCounter::default().count(), 0);
}

#[test]
fn new_seeds_initial_count() {
    assert_eq!(MouseCounter::new(3).count(), 3);
}

#[test]
fn first_connect_triggers_disable() {
    let mut mice = MouseCounter::new(0);
    assert!(mice.connect());
    assert_eq!(mice.count(), 1);
}

#[test]
fn second_connect_does_not_retrigger_disable() {
    let mut mice = MouseCounter::new(0);
    assert!(mice.connect());
    assert!(!mice.connect());
    assert_eq!(mice.count(), 2);
}

#[test]
fn disconnect_down_to_nonzero_does_not_trigger_enable() {
    let mut mice = MouseCounter::new(2);
    assert!(!mice.disconnect());
    assert_eq!(mice.count(), 1);
}

#[test]
fn last_disconnect_triggers_enable() {
    let mut mice = MouseCounter::new(1);
    assert!(mice.disconnect());
    assert_eq!(mice.count(), 0);
}

#[test]
fn disconnect_on_empty_counter_is_spurious_and_ignored() {
    let mut mice = MouseCounter::new(0);
    assert!(!mice.disconnect());
    assert_eq!(mice.count(), 0);
}

#[test]
fn two_mice_one_unplugged_leaves_touchpad_disabled() {
    // Plugging in a second mouse then unplugging one must not re-enable the
    // touchpad while the other is still connected.
    let mut mice = MouseCounter::new(0);
    assert!(mice.connect()); // mouse A: disable
    assert!(!mice.connect()); // mouse B: no-op, still disabled
    assert!(!mice.disconnect()); // unplug A: still one left, no-op
    assert_eq!(mice.count(), 1);
    assert!(mice.disconnect()); // unplug B: now re-enable
    assert_eq!(mice.count(), 0);
}

#[test]
fn full_lifecycle_sequence_matches_expected_transitions() {
    let mut mice = MouseCounter::new(0);
    let events = [true, true, true, false, false, false];
    let expected_transitions = [true, false, false, false, false, true];
    for (connect, expect_transition) in events.into_iter().zip(expected_transitions) {
        let transitioned = if connect {
            mice.connect()
        } else {
            mice.disconnect()
        };
        assert_eq!(transitioned, expect_transition);
    }
    assert_eq!(mice.count(), 0);
}

#[test]
fn disconnect_undoes_connect_and_is_reported_alike() {
    for count in [0, 1, 2, 7] {
        let mut mice = MouseCounter::new(count);
        let connected = mice.connect();
        let disconnected = mice.disconnect();
        assert_eq!(connected, disconnected);
        assert_eq!(mice, MouseCounter::new(count));
    }
}
