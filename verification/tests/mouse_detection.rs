use touchpad_toggle_daemon::device::{is_external_mouse, touchpad_input_ancestor, InputDevice};
use touchpad_toggle_daemon::is_mouse_event_device;
use touchpad_toggle_daemon::syspath::SysPath;

const TOUCHPAD: &str = "/sys/devices/platform/i2c/input/input7/event5";
const TOUCHPAD_MOUSE: &str = "/sys/devices/platform/i2c/input/input7/mouse0";
const USB_MOUSE: &str = "/sys/devices/pci0000:00/usb1/1-1/input/input70/event9";

fn path(text: &str) -> SysPath {
    SysPath::parse(text.as_bytes())
}

fn mouse_at(syspath: &str) -> InputDevice {
    InputDevice {
        syspath: path(syspath),
        devpath: syspath["/sys".len()..].to_string(),
        has_devnode: true,
        id_input_mouse: Some("1".to_string()),
        id_input_touchpad: None,
    }
}

#[test]
fn devnode_with_mouse_property_is_a_mouse() {
    assert!(is_mouse_event_device(true, Some("1")));
}

#[test]
fn devnode_without_mouse_property_is_not_a_mouse() {
    assert!(!is_mouse_event_device(true, None));
}

#[test]
fn devnode_with_mouse_property_set_to_zero_is_not_a_mouse() {
    assert!(!is_mouse_event_device(true, Some("0")));
}

#[test]
fn no_devnode_is_never_a_mouse_even_with_property_set() {
    // Filters out the parent "input" class device so a single physical mouse
    // isn't double-counted via its eventN child.
    assert!(!is_mouse_event_device(false, Some("1")));
}

#[test]
fn no_devnode_and_no_property_is_not_a_mouse() {
    assert!(!is_mouse_event_device(false, None));
}

#[test]
fn malformed_property_value_is_not_a_mouse() {
    assert!(!is_mouse_event_device(true, Some("true")));
}

#[test]
fn usb_mouse_is_an_external_mouse() {
    assert!(is_external_mouse(&mouse_at(USB_MOUSE), None));
    let ancestor = path("/sys/devices/platform/i2c/input/input7");
    assert!(is_external_mouse(&mouse_at(USB_MOUSE), Some(&ancestor)));
}

#[test]
fn mouse_property_other_than_one_is_no_external_mouse() {
    for value in [None, Some("0"), Some(""), Some("11"), Some("true")] {
        let mut device = mouse_at(USB_MOUSE);
        device.id_input_mouse = value.map(str::to_string);
        assert!(!is_external_mouse(&device, None));
    }
}

#[test]
fn device_without_devnode_is_no_external_mouse() {
    let mut device = mouse_at(USB_MOUSE);
    device.has_devnode = false;
    assert!(!is_external_mouse(&device, None));
}

#[test]
fn touchpad_property_excludes_a_device() {
    let mut device = mouse_at(USB_MOUSE);
    device.id_input_touchpad = Some("1".to_string());
    assert!(!is_external_mouse(&device, None));
    device.id_input_touchpad = Some("0".to_string());
    assert!(is_external_mouse(&device, None));
}

#[test]
fn virtual_pointers_are_ignored() {
    let device = mouse_at("/sys/devices/virtual/input/input12/event11");
    assert!(!is_external_mouse(&device, None));
    let other = mouse_at("/sys/devices/virtually/input/input12/event11");
    assert!(is_external_mouse(&other, None));
}

#[test]
fn touchpad_siblings_are_ignored() {
    let touchpads = vec![path(TOUCHPAD)];
    let ancestor = touchpad_input_ancestor(&touchpads).unwrap();
    assert!(!is_external_mouse(&mouse_at(TOUCHPAD_MOUSE), Some(&ancestor)));
    assert!(is_external_mouse(&mouse_at(TOUCHPAD_MOUSE), None));
    // Only whole components count: input70 does not stand below input7.
    let other = mouse_at("/sys/devices/platform/i2c/input/input70/mouse1");
    assert!(is_external_mouse(&other, Some(&ancestor)));
}

#[test]
fn touchpad_ancestor_is_the_parent_of_the_first_path_with_a_parent() {
    assert!(touchpad_input_ancestor(&vec![]).is_none());
    assert!(touchpad_input_ancestor(&vec![path("/"), path("")]).is_none());
    let paths = vec![path("/"), path("/a/b"), path("/c/d")];
    assert_eq!(touchpad_input_ancestor(&paths).unwrap().to_bytes(), b"/a");
}
