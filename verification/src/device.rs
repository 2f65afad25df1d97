//! Which input devices count as external mice.

use vstd::prelude::*;
use crate::syspath;
use crate::syspath::SysPath;
use crate::text;

verus! {

/// What udev reports of a device of the "input" subsystem.
#[derive(Debug)]
pub struct InputDevice {
    /// Where the device stands in sysfs, from the root of the file system on.
    pub syspath: SysPath,
    /// Where the device stands in sysfs, from the mount point of sysfs on.
    pub devpath: String,
    /// Whether the device has a node of its own under `/dev`.
    pub has_devnode: bool,
    /// The property `ID_INPUT_MOUSE`.
    pub id_input_mouse: Option<String>,
    /// The property `ID_INPUT_TOUCHPAD`.
    pub id_input_touchpad: Option<String>,
}

/// Whether a udev property is set to "1".
pub open spec fn is_set(property: Option<String>) -> bool {
    property matches Some(value) && value@ == "1"@
}

impl InputDevice {
    /// Whether the device was made by software: devices made through `uinput`,
    /// such as the pointers of keyd and of XTEST, have no hardware.
    pub open spec fn is_virtual(self) -> bool {
        "/devices/virtual/"@.is_prefix_of(self.devpath@)
    }

    /// Whether the device is a node of the touchpad itself, all of whose nodes
    /// stand below `touchpad_ancestor`.
    pub open spec fn is_touchpad_sibling(self, touchpad_ancestor: Option<Seq<Seq<u8>>>) -> bool {
        touchpad_ancestor matches Some(ancestor) && ancestor.is_prefix_of(self.syspath@)
    }

    /// Whether the device is a mouse that is no part of the laptop.
    pub open spec fn external_mouse(self, touchpad_ancestor: Option<Seq<Seq<u8>>>) -> bool {
        &&& self.has_devnode
        &&& is_set(self.id_input_mouse)
        &&& !is_set(self.id_input_touchpad)
        &&& !self.is_virtual()
        &&& !self.is_touchpad_sibling(touchpad_ancestor)
    }
}

/// Whether a udev "input" subsystem device counts as a mouse.
///
/// `has_devnode` filters out the parent "input" class device, which shares the
/// udev properties of its child "eventN" nodes and would otherwise cause a
/// single physical mouse to be counted more than once. `id_input_mouse` is the
/// device's `ID_INPUT_MOUSE` property; by it any mouse is detected, whatever
/// its name, vendor or product.
#[inline]
#[must_use]
pub fn is_mouse_event_device(has_devnode: bool, id_input_mouse: Option<&str>) -> (is_mouse: bool)
    ensures
        is_mouse == (has_devnode && id_input_mouse is Some && id_input_mouse->0@ == "1"@),
{
    match id_input_mouse {
        Some(value) => has_devnode && text::same_text(value, "1"),
        None => false,
    }
}

fn is_one(property: &Option<String>) -> (yes: bool)
    ensures
        yes == is_set(*property),
{
    match property {
        Some(value) => text::same_text(value.as_str(), "1"),
        None => false,
    }
}

/// Whether `device` is an external mouse.
///
/// `touchpad_ancestor` is the sysfs `inputN` directory above all nodes of the
/// touchpad. Its relative-mouse node carries `ID_INPUT_MOUSE=1` but not
/// necessarily `ID_INPUT_TOUCHPAD=1`; standing below that directory, it is not
/// taken for an external mouse.
#[must_use]
pub fn is_external_mouse(device: &InputDevice, touchpad_ancestor: Option<&SysPath>) -> (is_mouse:
    bool)
    ensures
        is_mouse == device.external_mouse(
            match touchpad_ancestor {
                Some(ancestor) => Some(ancestor@),
                None => None,
            },
        ),
        is_mouse <==> {
            &&& device.has_devnode
            &&& device.id_input_mouse is Some && device.id_input_mouse->0@ == "1"@
            &&& !(device.id_input_touchpad is Some && device.id_input_touchpad->0@ == "1"@)
            &&& !"/devices/virtual/"@.is_prefix_of(device.devpath@)
            &&& !(touchpad_ancestor is Some && touchpad_ancestor->0@.is_prefix_of(device.syspath@))
        },
{
    let id_input_mouse = match &device.id_input_mouse {
        Some(value) => Some(value.as_str()),
        None => None,
    };
    let is_virtual = text::has_prefix(device.devpath.as_str(), "/devices/virtual/");
    let is_touchpad_sibling = match touchpad_ancestor {
        Some(ancestor) => device.syspath.starts_with(ancestor),
        None => false,
    };
    !is_touchpad_sibling && is_mouse_event_device(device.has_devnode, id_input_mouse) && !is_one(
        &device.id_input_touchpad,
    ) && !is_virtual
}

/// The directory above the nodes of the touchpad, given the paths of all devices
/// that udev takes for a touchpad: the parent of the first path that has one.
#[must_use]
pub fn touchpad_input_ancestor(touchpads: &Vec<SysPath>) -> (ancestor: Option<SysPath>)
    ensures
        match ancestor {
            Some(ancestor) => exists|i: int|
                0 <= i < touchpads@.len() && syspath::parent_of(#[trigger] touchpads@[i]@) == Some(
                    ancestor@,
                ) && forall|j: int|
                    0 <= j < i ==> syspath::parent_of(#[trigger] touchpads@[j]@) is None,
            None => forall|j: int|
                0 <= j < touchpads@.len() ==> syspath::parent_of(#[trigger] touchpads@[j]@) is None,
        },
{
    let mut i: usize = 0;
    while i < touchpads.len()
        invariant
            i <= touchpads@.len(),
            forall|j: int|
                0 <= j < i ==> syspath::parent_of(#[trigger] touchpads@[j]@) is None,
        decreases touchpads@.len() - i,
    {
        let parent = touchpads[i].parent();
        if parent.is_some() {
            return parent;
        }
        i += 1;
    }
    None
}

} // verus!
