//! What the battery of a wireless mouse says of whether the mouse is on.

use vstd::prelude::*;
use crate::syspath;
use crate::syspath::SysPath;
use crate::text;

verus! {

/// Whether a power supply with this status belongs to a mouse that is on.
pub open spec fn active_status(status: Seq<char>) -> bool {
    let word = text::trimmed(status);
    word == "Discharging"@ || word == "Charging"@ || word == "Full"@
}

/// Whether the contents of a power supply's `status` file say that the mouse is
/// on: `Discharging`, `Charging` and `Full` do. A receiver reports `Unknown`
/// while its mouse is off or out of range.
#[must_use]
pub fn is_battery_active(status: &str) -> (active: bool)
    ensures
        active == active_status(status@),
        active <==> {
            let word = text::trimmed(status@);
            word == "Discharging"@ || word == "Charging"@ || word == "Full"@
        },
{
    let word = text::trim(status);
    text::same_text(word, "Discharging") || text::same_text(word, "Charging") || text::same_text(
        word,
        "Full",
    )
}

/// Whether a mouse with this battery, or without one, counts as active.
pub open spec fn active_or_absent(battery: Option<bool>) -> bool {
    match battery {
        Some(active) => active,
        None => true,
    }
}

/// Whether a mouse counts as active, given what is known of its battery. A mouse
/// without one, be it wired or behind a receiver that does not report it, is
/// always active.
#[must_use]
pub fn device_battery_active_or_absent(battery: Option<bool>) -> (active: bool)
    ensures
        active == active_or_absent(battery),
        active <==> battery != Some(false),
{
    match battery {
        Some(active) => active,
        None => true,
    }
}

/// The device above a power supply, which stands in that device's directory
/// `power_supply`.
pub open spec fn hid_of(supply: Seq<Seq<u8>>) -> Option<Seq<Seq<u8>>> {
    match syspath::parent_of(supply) {
        Some(directory) => syspath::parent_of(directory),
        None => None,
    }
}

/// Takes `power_supply/<name>` off the path of a power supply, which leaves the
/// HID device above both the power supply and the mouse's input nodes.
#[must_use]
pub fn hid_syspath_for_power_supply(supply: &SysPath) -> (hid: Option<SysPath>)
    ensures
        match hid {
            Some(hid) => hid_of(supply@) == Some(hid@),
            None => hid_of(supply@) is None,
        },
        hid is Some <==> supply@.len() >= 2 && supply@.last() != seq![47u8] && supply@[supply@.len()
            - 2] != seq![47u8],
        hid matches Some(hid) ==> hid@ == supply@.take(supply@.len() - 2),
{
    match supply.parent() {
        Some(directory) => directory.parent(),
        None => None,
    }
}

} // verus!
