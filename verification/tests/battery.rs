use touchpad_toggle_daemon::battery::{
    device_battery_active_or_absent, hid_syspath_for_power_supply,
};
use touchpad_toggle_daemon::is_battery_active;
use touchpad_toggle_daemon::search::{BatterySearch, Finding};
use touchpad_toggle_daemon::syspath::SysPath;

const EVENT: &str = "/sys/devices/usb1/hid9/input/input4/event7";

fn path(text: &str) -> SysPath {
    SysPath::parse(text.as_bytes())
}

/// Searches above `syspath` where `directory` is the only directory of power
/// supplies, if there is one, and `statuses` comes of reading its entries.
/// Returns the directories that were asked for and the outcome.
fn search(
    syspath: &str,
    directory: Option<&str>,
    statuses: &[Option<&str>],
) -> (Vec<String>, Option<bool>) {
    let mut asked = Vec::new();
    let mut entries = statuses.iter();
    let mut search = BatterySearch::begin(&path(syspath));
    loop {
        let finding = match &search {
            BatterySearch::Looking { .. } => {
                let wanted = search.directory().unwrap().to_bytes();
                asked.push(String::from_utf8(wanted).unwrap());
                Finding::Directory(asked.last().map(String::as_str) == directory)
            }
            BatterySearch::Reading { .. } => {
                let wanted = search.directory().unwrap().to_bytes();
                assert_eq!(wanted, directory.unwrap().as_bytes());
                match entries.next() {
                    Some(status) => Finding::Status(status.map(str::to_string)),
                    None => Finding::NoMoreEntries,
                }
            }
            BatterySearch::Finished { battery } => {
                assert!(search.directory().is_none());
                return (asked, *battery);
            }
        };
        search = search.after(finding);
    }
}

#[test]
fn statuses_of_a_mouse_that_is_on() {
    for status in ["Discharging", "Charging", "Full", "Full\n", " Charging \r\n"] {
        assert!(is_battery_active(status), "{status:?}");
    }
}

#[test]
fn statuses_of_a_mouse_that_is_off() {
    for status in ["Unknown", "Unknown\n", "", "\n", "full", "Discharging Full", "Ful"] {
        assert!(!is_battery_active(status), "{status:?}");
    }
}

#[test]
fn mouse_without_battery_is_active() {
    assert!(device_battery_active_or_absent(None));
    assert!(device_battery_active_or_absent(Some(true)));
    assert!(!device_battery_active_or_absent(Some(false)));
}

#[test]
fn hid_device_is_two_levels_above_its_power_supply() {
    let hid = hid_syspath_for_power_supply(&path("/sys/devices/usb1/hid9/power_supply/bat0"));
    assert_eq!(hid.unwrap().to_bytes(), b"/sys/devices/usb1/hid9");
    assert_eq!(hid_syspath_for_power_supply(&path("/a/b")).unwrap().to_bytes(), b"/");
    assert!(hid_syspath_for_power_supply(&path("/a")).is_none());
    assert!(hid_syspath_for_power_supply(&path("/")).is_none());
}

#[test]
fn nearest_power_supply_decides() {
    let directory = "/sys/devices/usb1/hid9/power_supply";
    let (asked, battery) = search(EVENT, Some(directory), &[Some("Discharging\n")]);
    assert_eq!(
        asked,
        [
            "/sys/devices/usb1/hid9/input/input4/power_supply",
            "/sys/devices/usb1/hid9/input/power_supply",
            "/sys/devices/usb1/hid9/power_supply",
        ]
    );
    assert_eq!(battery, Some(true));
    let (_, battery) = search(EVENT, Some(directory), &[Some("Unknown\n")]);
    assert_eq!(battery, Some(false));
}

#[test]
fn first_readable_status_decides() {
    let directory = Some("/sys/devices/usb1/hid9/power_supply");
    let (_, battery) = search(EVENT, directory, &[None, Some("Full"), Some("Unknown")]);
    assert_eq!(battery, Some(true));
    let (_, battery) = search(EVENT, directory, &[None, Some("Unknown"), Some("Full")]);
    assert_eq!(battery, Some(false));
}

#[test]
fn mouse_without_readable_status_is_active() {
    let directory = Some("/sys/devices/usb1/hid9/power_supply");
    for statuses in [&[][..], &[None][..], &[None, None][..]] {
        let (_, battery) = search(EVENT, directory, statuses);
        assert_eq!(battery, None);
        assert!(device_battery_active_or_absent(battery));
    }
}

#[test]
fn search_ends_at_the_root() {
    let (asked, battery) = search("/a/b", None, &[]);
    assert_eq!(asked, ["/a/power_supply", "/power_supply"]);
    assert_eq!(battery, None);
    let (asked, battery) = search("/", None, &[]);
    assert!(asked.is_empty());
    assert_eq!(battery, None);
}

#[test]
fn search_ends_after_six_levels() {
    let (asked, battery) = search("/a/b/c/d/e/f/g/h", None, &[]);
    assert_eq!(asked.len(), 6);
    assert_eq!(asked[5], "/a/b/power_supply");
    assert_eq!(battery, None);
    let reached = search("/a/b/c/d/e/f/g/h", Some("/a/b/power_supply"), &[Some("Full")]);
    assert_eq!(reached.1, Some(true));
    let beyond = search("/a/b/c/d/e/f/g/h", Some("/a/power_supply"), &[Some("Full")]);
    assert_eq!(beyond.1, None);
}

#[test]
fn findings_out_of_place_change_nothing() {
    let search = BatterySearch::begin(&path(EVENT));
    let before = search.directory().unwrap().to_bytes();
    let search = search.after(Finding::NoMoreEntries);
    let search = search.after(Finding::Status(Some("Full".to_string())));
    assert!(matches!(search, BatterySearch::Looking { level: 0, .. }));
    assert_eq!(search.directory().unwrap().to_bytes(), before);
    let search = search.after(Finding::Directory(true));
    let search = search.after(Finding::Directory(false));
    assert!(matches!(search, BatterySearch::Reading { .. }));
    let search = search.after(Finding::NoMoreEntries);
    let search = search.after(Finding::Status(Some("Full".to_string())));
    assert!(matches!(search, BatterySearch::Finished { battery: None }));
}
