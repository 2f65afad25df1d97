//! The daemon's record of external mice and what it decides on each event.

use vstd::prelude::*;
use crate::battery;
use crate::device;
use crate::device::InputDevice;
use crate::mice;
use crate::mice::Mice;
use crate::record::Record;
use crate::syspath::SysPath;
use crate::text;

verus! {

/// What udev says has happened to a device.
#[derive(Debug, Clone, Copy, PartialEq, Eq, Structural)]
pub enum EventKind {
    Add,
    Remove,
    Change,
    Other,
}

/// What the daemon has to do on an event.
#[derive(Debug, Clone, Copy, PartialEq, Eq, Structural)]
pub enum Reaction {
    /// A mouse was plugged in: find out whether it is active, then
    /// [`Daemon::plug`].
    Plug,
    /// A device was removed: [`Daemon::unplug`].
    Unplug,
    /// A power supply reported a change: read its status, then
    /// [`Daemon::handle_battery_change`].
    ReadStatus,
    /// Nothing.
    Ignore,
}

/// What the daemon has to do on an event of kind `kind` for `device`.
pub open spec fn reaction(
    kind: EventKind,
    subsystem: Option<&str>,
    device: InputDevice,
    touchpad_ancestor: Option<Seq<Seq<u8>>>,
) -> Reaction {
    match kind {
        EventKind::Add => if device.external_mouse(touchpad_ancestor) {
            Reaction::Plug
        } else {
            Reaction::Ignore
        },
        EventKind::Remove => Reaction::Unplug,
        EventKind::Change => if subsystem is Some && subsystem->0@ == "power_supply"@ {
            Reaction::ReadStatus
        } else {
            Reaction::Ignore
        },
        EventKind::Other => Reaction::Ignore,
    }
}

/// Whether a power supply with this status, if it could be read, belongs to a
/// mouse that is on.
pub open spec fn supply_reports_on(status: Option<&str>) -> bool {
    status matches Some(status) && battery::active_status(status@)
}

/// The daemon: where the touchpad stands, and the record of the external mice.
#[derive(Debug)]
pub struct Daemon {
    touchpad_ancestor: Option<SysPath>,
    record: Record,
}

impl View for Daemon {
    type V = Mice;

    closed spec fn view(&self) -> Mice {
        self.record@
    }
}

impl Daemon {
    #[verifier::type_invariant]
    spec fn well_formed(self) -> bool {
        self.record.well_formed()
    }

    /// The directory above the nodes of the touchpad.
    pub closed spec fn ancestor(&self) -> Option<Seq<Seq<u8>>> {
        match self.touchpad_ancestor {
            Some(path) => Some(path@),
            None => None,
        }
    }

    /// A daemon that knows of no mice yet.
    #[must_use]
    pub fn new(touchpad_ancestor: Option<SysPath>) -> (daemon: Self)
        ensures
            daemon@ == Mice::none(),
            daemon@.exact(),
            daemon.ancestor() == match touchpad_ancestor {
                Some(path) => Some(path@),
                None => None,
            },
    {
        proof {
            Mice::lemma_none_exact();
        }
        Daemon { touchpad_ancestor, record: Record::empty() }
    }

    /// How many mice are counted as connected: the active ones.
    #[must_use]
    pub fn mouse_count(&self) -> (count: usize)
        ensures
            count == self@.count,
            self@.exact(),
    {
        proof {
            use_type_invariant(self);
            self.record.lemma_exact();
        }
        self.record.mouse_count()
    }

    /// How many input nodes are tracked.
    #[must_use]
    pub fn node_count(&self) -> (count: usize)
        ensures
            count == self@.known.dom().len(),
    {
        proof {
            use_type_invariant(self);
        }
        self.record.node_count()
    }

    /// The tracked nodes below `hid`, each with whether its mouse is active.
    #[must_use]
    pub fn nodes_below(&self, hid: &SysPath) -> (below: Vec<(SysPath, bool)>)
        ensures
            mice::lists_below(below@, self@, hid@),
            forall|path: Seq<Seq<u8>>|
                (self@.known.contains_key(path) && #[trigger] hid@.is_prefix_of(path))
                    <==> exists|k: int| 0 <= k < below@.len() && (#[trigger] below@[k]).0@ == path,
            forall|k: int|
                0 <= k < below@.len() ==> (#[trigger] below@[k]).1 == self@.known[below@[k].0@],
            forall|k: int, l: int|
                0 <= k < l < below@.len() ==> (#[trigger] below@[k]).0@ != (
                #[trigger] below@[l]).0@,
    {
        proof {
            use_type_invariant(self);
        }
        self.record.nodes_below(hid)
    }

    /// Whether `device` is an external mouse and not a node of the touchpad.
    #[must_use]
    pub fn is_external_mouse(&self, device: &InputDevice) -> (is_mouse: bool)
        ensures
            is_mouse == device.external_mouse(self.ancestor()),
            is_mouse <==> {
                &&& device.has_devnode
                &&& device.id_input_mouse is Some && device.id_input_mouse->0@ == "1"@
                &&& !(device.id_input_touchpad is Some && device.id_input_touchpad->0@ == "1"@)
                &&& !"/devices/virtual/"@.is_prefix_of(device.devpath@)
                &&& !(self.ancestor() is Some && self.ancestor()->0.is_prefix_of(device.syspath@))
            },
    {
        device::is_external_mouse(device, self.touchpad_ancestor.as_ref())
    }

    /// Decides what to do on an event of kind `kind` for `device`, which belongs
    /// to the subsystem `subsystem`.
    #[must_use]
    pub fn react(&self, kind: EventKind, subsystem: Option<&str>, device: &InputDevice) -> (todo:
        Reaction)
        ensures
            todo == reaction(kind, subsystem, *device, self.ancestor()),
            todo == Reaction::ReadStatus <==> kind == EventKind::Change && subsystem is Some
                && subsystem->0@ == "power_supply"@,
            todo == Reaction::Unplug <==> kind == EventKind::Remove,
            todo == Reaction::Plug <==> {
                &&& kind == EventKind::Add
                &&& device.has_devnode
                &&& device.id_input_mouse is Some && device.id_input_mouse->0@ == "1"@
                &&& !(device.id_input_touchpad is Some && device.id_input_touchpad->0@ == "1"@)
                &&& !"/devices/virtual/"@.is_prefix_of(device.devpath@)
                &&& !(self.ancestor() is Some && self.ancestor()->0.is_prefix_of(device.syspath@))
            },
    {
        match kind {
            EventKind::Add => {
                if self.is_external_mouse(device) {
                    Reaction::Plug
                } else {
                    Reaction::Ignore
                }
            },
            EventKind::Remove => Reaction::Unplug,
            EventKind::Change => match subsystem {
                Some(subsystem) if text::same_text(subsystem, "power_supply") => {
                    Reaction::ReadStatus
                },
                _ => Reaction::Ignore,
            },
            EventKind::Other => Reaction::Ignore,
        }
    }

    /// Takes note of a mouse that is found at startup. Nothing is done to the
    /// touchpad before all devices have been examined.
    pub fn found_at_startup(&mut self, path: &SysPath, active: bool)
        ensures
            final(self)@ == old(self)@.plugged(path@, active),
            final(self)@.known == old(self)@.known.insert(path@, active),
            final(self)@.exact(),
            final(self).ancestor() == old(self).ancestor(),
    {
        let _ = self.plug(path, active);
    }

    /// What the touchpad is to be set to when all devices have been examined at
    /// startup: disabled if there is an active mouse, and otherwise enabled, so
    /// that a touchpad that was left disabled works again.
    #[must_use]
    pub fn touchpad_enabled_at_startup(&self) -> (enabled: bool)
        ensures
            enabled == (self@.count == 0),
            enabled <==> forall|path: Seq<Seq<u8>>| #[trigger]
                self@.known.contains_key(path) ==> !self@.known[path],
    {
        proof {
            use_type_invariant(self);
            self.record.lemma_exact();
            self@.lemma_none_active();
        }
        self.record.mouse_count() == 0
    }

    /// Takes note of a mouse that was plugged in. Returns what the touchpad is
    /// to be set to, if it has to be set: disabled when the mouse is active and
    /// there was none before. A mouse that is known already is not counted
    /// again; what is recorded of it is brought up to date.
    pub fn plug(&mut self, path: &SysPath, active: bool) -> (command: Option<bool>)
        ensures
            final(self)@ == old(self)@.plugged(path@, active),
            final(self)@.known == old(self)@.known.insert(path@, active),
            final(self)@.exact(),
            final(self).ancestor() == old(self).ancestor(),
            command == mice::toggle(old(self)@.count, final(self)@.count),
            command == Some(false) <==> old(self)@.count == 0 && final(self)@.count > 0,
            command == Some(true) <==> old(self)@.count > 0 && final(self)@.count == 0,
    {
        proof {
            use_type_invariant(&*self);
        }
        let mut record = Record::empty();
        std::mem::swap(&mut record, &mut self.record);
        let command = record.plug(path, active);
        proof {
            record.lemma_exact();
        }
        self.record = record;
        command
    }

    /// Takes note of a device that was removed. Its udev properties may be gone
    /// by then, so that only its path tells whether it was a mouse. Returns what
    /// the touchpad is to be set to, if it has to be set: enabled when the last
    /// active mouse is gone.
    pub fn unplug(&mut self, path: &SysPath) -> (command: Option<bool>)
        ensures
            final(self)@ == old(self)@.unplugged(path@),
            final(self)@.known == old(self)@.known.remove(path@),
            final(self)@.exact(),
            final(self).ancestor() == old(self).ancestor(),
            command == mice::toggle(old(self)@.count, final(self)@.count),
            command == Some(false) <==> old(self)@.count == 0 && final(self)@.count > 0,
            command == Some(true) <==> old(self)@.count > 0 && final(self)@.count == 0,
    {
        proof {
            use_type_invariant(&*self);
        }
        let mut record = Record::empty();
        std::mem::swap(&mut record, &mut self.record);
        let command = record.unplug(path);
        proof {
            record.lemma_exact();
        }
        self.record = record;
        command
    }

    /// Re-evaluates the mice of a receiver whose power supply reported a change:
    /// they were switched on or off while the receiver remained plugged in.
    /// `status` holds the contents of the power supply's `status` file; a mouse
    /// whose status cannot be read is taken to be off. Returns what the touchpad
    /// is to be set to, if it has to be set.
    pub fn handle_battery_change(&mut self, supply: &SysPath, status: Option<&str>) -> (command:
        Option<bool>)
        ensures
            final(self)@ == old(self)@.battery_changed(supply@, supply_reports_on(status)),
            final(self)@.known.dom() == old(self)@.known.dom(),
            forall|path: Seq<Seq<u8>>| #[trigger]
                old(self)@.known.contains_key(path) ==> final(self)@.known[path] == if {
                    &&& supply@.len() >= 2
                    &&& supply@.last() != seq![47u8]
                    &&& supply@[supply@.len() - 2] != seq![47u8]
                    &&& supply@.take(supply@.len() - 2).is_prefix_of(path)
                } {
                    status is Some && {
                        let word = text::trimmed(status->0@);
                        word == "Discharging"@ || word == "Charging"@ || word == "Full"@
                    }
                } else {
                    old(self)@.known[path]
                },
            final(self)@.exact(),
            final(self).ancestor() == old(self).ancestor(),
            command == mice::toggle(old(self)@.count, final(self)@.count),
            command == Some(false) <==> old(self)@.count == 0 && final(self)@.count > 0,
            command == Some(true) <==> old(self)@.count > 0 && final(self)@.count == 0,
    {
        proof {
            use_type_invariant(&*self);
            self.record.lemma_exact();
        }
        let active = match status {
            Some(status) => battery::is_battery_active(status),
            None => false,
        };
        match battery::hid_syspath_for_power_supply(supply) {
            Some(hid) => {
                let mut record = Record::empty();
                std::mem::swap(&mut record, &mut self.record);
                let command = record.switch(&hid, active);
                proof {
                    record.lemma_exact();
                }
                self.record = record;
                command
            },
            None => None,
        }
    }
}

} // verus!
