use touchpad_toggle_daemon::daemon::{Daemon, EventKind, Reaction};
use touchpad_toggle_daemon::device::InputDevice;
use touchpad_toggle_daemon::syspath::SysPath;

const A: &str = "/sys/devices/usb1/hid1/input/input1/event1";
const B: &str = "/sys/devices/usb1/hid2/input/input2/event2";
const A_SECOND: &str = "/sys/devices/usb1/hid1/input/input1/mouse0";
const SUPPLY_A: &str = "/sys/devices/usb1/hid1/power_supply/bat1";

fn path(text: &str) -> SysPath {
    SysPath::parse(text.as_bytes())
}

fn device(syspath: &str) -> InputDevice {
    InputDevice {
        syspath: path(syspath),
        devpath: syspath["/sys".len()..].to_string(),
        has_devnode: true,
        id_input_mouse: Some("1".to_string()),
        id_input_touchpad: None,
    }
}

/// A daemon that has found these mice at startup.
fn daemon(found: &[(&str, bool)]) -> Daemon {
    let mut daemon = Daemon::new(None);
    for (at, active) in found {
        daemon.found_at_startup(&path(at), *active);
    }
    daemon
}

#[test]
fn touchpad_is_set_at_startup() {
    assert!(daemon(&[]).touchpad_enabled_at_startup());
    assert!(daemon(&[(A, false)]).touchpad_enabled_at_startup());
    assert!(!daemon(&[(A, true)]).touchpad_enabled_at_startup());
    assert!(!daemon(&[(A, false), (B, true)]).touchpad_enabled_at_startup());
}

#[test]
fn mice_are_counted_at_startup() {
    let daemon = daemon(&[(A, true), (B, false), (A_SECOND, true)]);
    assert_eq!(daemon.mouse_count(), 2);
    assert_eq!(daemon.node_count(), 3);
}

#[test]
fn first_mouse_disables_and_last_mouse_enables() {
    let mut daemon = daemon(&[]);
    assert_eq!(daemon.plug(&path(A), true), Some(false));
    assert_eq!(daemon.plug(&path(B), true), None);
    assert_eq!(daemon.unplug(&path(A)), None);
    assert_eq!(daemon.unplug(&path(B)), Some(true));
    assert_eq!(daemon.mouse_count(), 0);
    assert_eq!(daemon.node_count(), 0);
}

#[test]
fn mouse_that_is_off_is_tracked_but_not_counted() {
    let mut daemon = daemon(&[]);
    assert_eq!(daemon.plug(&path(A), false), None);
    assert_eq!((daemon.mouse_count(), daemon.node_count()), (0, 1));
    assert_eq!(daemon.unplug(&path(A)), None);
    assert_eq!((daemon.mouse_count(), daemon.node_count()), (0, 0));
}

#[test]
fn removal_of_an_untracked_device_is_ignored() {
    let mut daemon = daemon(&[(A, true)]);
    assert_eq!(daemon.unplug(&path(B)), None);
    assert_eq!((daemon.mouse_count(), daemon.node_count()), (1, 1));
    assert_eq!(daemon.unplug(&path(A)), Some(true));
    assert_eq!(daemon.unplug(&path(A)), None);
}

#[test]
fn removal_goes_by_the_path_whatever_its_spelling() {
    let mut daemon = daemon(&[("/a/b", true)]);
    assert_eq!(daemon.unplug(&path("//a/./b/")), Some(true));
}

#[test]
fn mouse_found_and_then_reported_counts_once() {
    let mut daemon = daemon(&[(A, true)]);
    assert!(!daemon.touchpad_enabled_at_startup());
    assert_eq!(daemon.plug(&path(A), true), None);
    assert_eq!((daemon.mouse_count(), daemon.node_count()), (1, 1));
    assert_eq!(daemon.unplug(&path(A)), Some(true));
    assert_eq!((daemon.mouse_count(), daemon.node_count()), (0, 0));
}

#[test]
fn mouse_found_twice_at_startup_counts_once() {
    let mut daemon = daemon(&[(A, true), (A, true), (B, false)]);
    assert_eq!((daemon.mouse_count(), daemon.node_count()), (1, 2));
    assert_eq!(daemon.unplug(&path(A)), Some(true));
}

#[test]
fn mouse_reported_again_as_off_counts_no_longer() {
    let mut daemon = daemon(&[(A, true)]);
    assert_eq!(daemon.plug(&path(A), false), Some(true));
    assert_eq!((daemon.mouse_count(), daemon.node_count()), (0, 1));
    assert_eq!(daemon.unplug(&path(A)), None);
    assert_eq!((daemon.mouse_count(), daemon.node_count()), (0, 0));
}

#[test]
fn mouse_reported_again_after_it_was_off_is_counted_once() {
    let mut daemon = daemon(&[(A, false)]);
    assert_eq!(daemon.plug(&path(A), true), Some(false));
    assert_eq!((daemon.mouse_count(), daemon.node_count()), (1, 1));
    assert_eq!(daemon.unplug(&path(A)), Some(true));
}

#[test]
fn switching_a_mouse_off_and_on_toggles_the_touchpad() {
    let mut daemon = daemon(&[(A, true)]);
    assert_eq!(daemon.handle_battery_change(&path(SUPPLY_A), Some("Unknown\n")), Some(true));
    assert_eq!((daemon.mouse_count(), daemon.node_count()), (0, 1));
    assert_eq!(daemon.handle_battery_change(&path(SUPPLY_A), Some("Unknown\n")), None);
    assert_eq!(daemon.handle_battery_change(&path(SUPPLY_A), Some("Charging\n")), Some(false));
    assert_eq!(daemon.handle_battery_change(&path(SUPPLY_A), Some("Full\n")), None);
    assert_eq!((daemon.mouse_count(), daemon.node_count()), (1, 1));
}

#[test]
fn unreadable_status_switches_a_mouse_off() {
    let mut daemon = daemon(&[(A, true)]);
    assert_eq!(daemon.handle_battery_change(&path(SUPPLY_A), None), Some(true));
}

#[test]
fn nodes_below_a_receiver_are_listed() {
    let daemon = daemon(&[(A, true), (B, true), (A_SECOND, false)]);
    let mut below: Vec<(Vec<u8>, bool)> = daemon
        .nodes_below(&path("/sys/devices/usb1/hid1"))
        .iter()
        .map(|(node, active)| (node.to_bytes(), *active))
        .collect();
    below.sort();
    assert_eq!(
        below,
        [
            (A.as_bytes().to_vec(), true),
            (A_SECOND.as_bytes().to_vec(), false)
        ]
    );
    assert!(daemon.nodes_below(&path("/sys/devices/usb1/hid")).is_empty());
    assert_eq!(daemon.nodes_below(&path("/")).len(), 3);
}

#[test]
fn all_nodes_of_a_receiver_are_switched_with_one_command() {
    let mut daemon = daemon(&[(A, true), (A_SECOND, true)]);
    assert_eq!(daemon.handle_battery_change(&path(SUPPLY_A), Some("Unknown")), Some(true));
    assert_eq!(daemon.mouse_count(), 0);
    assert_eq!(daemon.handle_battery_change(&path(SUPPLY_A), Some("Full")), Some(false));
    assert_eq!(daemon.mouse_count(), 2);
}

#[test]
fn only_nodes_that_change_are_counted() {
    let mut daemon = daemon(&[(A, true), (A_SECOND, false)]);
    assert_eq!(daemon.handle_battery_change(&path(SUPPLY_A), Some("Full")), None);
    assert_eq!(daemon.mouse_count(), 2);
}

#[test]
fn power_supply_speaks_only_of_its_own_receiver() {
    let mut daemon = daemon(&[(A, true), (B, true)]);
    assert_eq!(daemon.handle_battery_change(&path(SUPPLY_A), Some("Unknown")), None);
    assert_eq!(daemon.mouse_count(), 1);
    assert_eq!(daemon.unplug(&path(B)), Some(true));
}

#[test]
fn power_supply_without_a_device_above_it_is_skipped() {
    let mut daemon = daemon(&[(A, true)]);
    assert_eq!(daemon.handle_battery_change(&path("/bat1"), Some("Unknown")), None);
    assert_eq!(daemon.mouse_count(), 1);
}

#[test]
fn mouse_that_is_off_is_unplugged_without_a_command() {
    let mut daemon = daemon(&[(A, true), (B, true)]);
    assert_eq!(daemon.handle_battery_change(&path(SUPPLY_A), Some("Unknown")), None);
    assert_eq!(daemon.unplug(&path(A)), None);
    assert_eq!((daemon.mouse_count(), daemon.node_count()), (1, 1));
}

#[test]
fn added_mouse_is_plugged_and_other_devices_are_ignored() {
    let daemon = Daemon::new(Some(path("/sys/devices/usb1/hid1/input/input1")));
    assert_eq!(daemon.react(EventKind::Add, Some("input"), &device(B)), Reaction::Plug);
    assert_eq!(daemon.react(EventKind::Add, None, &device(B)), Reaction::Plug);
    assert_eq!(daemon.react(EventKind::Add, Some("input"), &device(A)), Reaction::Ignore);
    let pointer = device("/sys/devices/virtual/input/input3/event3");
    assert_eq!(daemon.react(EventKind::Add, Some("input"), &pointer), Reaction::Ignore);
    assert!(daemon.is_external_mouse(&device(B)));
    assert!(!daemon.is_external_mouse(&device(A)));
}

#[test]
fn removed_device_is_unplugged_whatever_its_properties() {
    let daemon = Daemon::new(None);
    let mut removed = device(A);
    removed.has_devnode = false;
    removed.id_input_mouse = None;
    assert_eq!(daemon.react(EventKind::Remove, Some("input"), &removed), Reaction::Unplug);
}

#[test]
fn only_changes_of_power_supplies_matter() {
    let daemon = Daemon::new(None);
    let supply = device(SUPPLY_A);
    assert_eq!(
        daemon.react(EventKind::Change, Some("power_supply"), &supply),
        Reaction::ReadStatus
    );
    assert_eq!(daemon.react(EventKind::Change, Some("input"), &supply), Reaction::Ignore);
    assert_eq!(daemon.react(EventKind::Change, None, &supply), Reaction::Ignore);
    assert_eq!(
        daemon.react(EventKind::Other, Some("power_supply"), &supply),
        Reaction::Ignore
    );
}

#[test]
fn touchpad_is_enabled_exactly_while_no_mouse_is_active() {
    let mut daemon = daemon(&[(B, false)]);
    let mut enabled = daemon.touchpad_enabled_at_startup();
    assert!(enabled);
    let mut obey = |command: Option<bool>, active_mice: usize, count: usize| {
        if let Some(set) = command {
            assert_ne!(set, enabled);
            enabled = set;
        }
        assert_eq!(count, active_mice);
        assert_eq!(enabled, active_mice == 0);
    };
    let command = daemon.plug(&path(A), true);
    obey(command, 1, daemon.mouse_count());
    let command = daemon.plug(&path(A_SECOND), false);
    obey(command, 1, daemon.mouse_count());
    let command = daemon.handle_battery_change(&path(SUPPLY_A), Some("Full"));
    obey(command, 2, daemon.mouse_count());
    let command = daemon.unplug(&path(B));
    obey(command, 2, daemon.mouse_count());
    let command = daemon.unplug(&path(A));
    obey(command, 1, daemon.mouse_count());
    let command = daemon.handle_battery_change(&path(SUPPLY_A), Some("Unknown"));
    obey(command, 0, daemon.mouse_count());
    let command = daemon.plug(&path(B), true);
    obey(command, 1, daemon.mouse_count());
    let command = daemon.unplug(&path(B));
    obey(command, 0, daemon.mouse_count());
}

#[test]
fn mice_are_plugged_in_any_order() {
    let mut one = daemon(&[(A, true), (B, false)]);
    let mut other = daemon(&[(B, false), (A, true)]);
    assert_eq!(one.mouse_count(), other.mouse_count());
    assert_eq!(one.unplug(&path(A)), other.unplug(&path(A)));
    assert_eq!(one.unplug(&path(B)), other.unplug(&path(B)));
    assert_eq!(one.node_count(), other.node_count());
}
