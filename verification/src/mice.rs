//! What is known of the mice, and how it changes.

use vstd::prelude::*;
use crate::battery;
use crate::syspath::SysPath;

verus! {

/// What the daemon knows of the mice: for each tracked input node whether its
/// mouse is active, and how many mice are counted as connected.
#[verifier::ext_equal]
pub struct Mice {
    pub known: Map<Seq<Seq<u8>>, bool>,
    pub count: nat,
}

/// The command that has to go to the touchpad when the number of connected mice
/// changes: to disable it when there is a first mouse, to enable it when there
/// is none left.
pub open spec fn toggle(before: nat, after: nat) -> Option<bool> {
    if before == 0 && after > 0 {
        Some(false)
    } else if before > 0 && after == 0 {
        Some(true)
    } else {
        None
    }
}

impl Mice {
    /// No mice at all.
    pub open spec fn none() -> Mice {
        Mice { known: Map::empty(), count: 0 }
    }

    /// The tracked nodes whose mice are active.
    pub open spec fn active(self) -> Set<Seq<Seq<u8>>> {
        Set::new(|path: Seq<Seq<u8>>| self.known.contains_key(path) && self.known[path])
    }

    /// Whether the mice that are counted are exactly the active ones.
    pub open spec fn exact(self) -> bool {
        &&& self.known.dom().finite()
        &&& self.active().len() == self.count
    }

    /// The mice after one was plugged in. A mouse that is known already, such as
    /// one that was found by a scan and is then reported as plugged in, does not
    /// count twice.
    pub open spec fn plugged(self, path: Seq<Seq<u8>>, active: bool) -> Mice {
        let was = self.known.contains_key(path) && self.known[path];
        Mice {
            known: self.known.insert(path, active),
            count: if active && !was {
                self.count + 1
            } else if !active && was {
                (self.count - 1) as nat
            } else {
                self.count
            },
        }
    }

    /// The mice after one was unplugged. A node that is not tracked does not
    /// matter.
    pub open spec fn unplugged(self, path: Seq<Seq<u8>>) -> Mice {
        if self.known.contains_key(path) {
            Mice {
                known: self.known.remove(path),
                count: if self.known[path] { (self.count - 1) as nat } else { self.count },
            }
        } else {
            self
        }
    }

    /// The tracked nodes below `hid` that are not yet recorded as `active` says.
    pub open spec fn changing(self, hid: Seq<Seq<u8>>, active: bool) -> Set<Seq<Seq<u8>>> {
        Set::new(
            |path: Seq<Seq<u8>>|
                self.known.contains_key(path) && hid.is_prefix_of(path) && self.known[path]
                    != active,
        )
    }

    /// The mice after those below `hid` were switched on or off.
    pub open spec fn switched(self, hid: Seq<Seq<u8>>, active: bool) -> Mice {
        let changed = self.changing(hid, active).len();
        Mice {
            known: self.known.map_entries(
                |path: Seq<Seq<u8>>, was: bool| if hid.is_prefix_of(path) { active } else { was },
            ),
            count: if active { self.count + changed } else { (self.count - changed) as nat },
        }
    }

    /// The mice after the power supply at `supply` reported that the mice of its
    /// device are on, or that they are off.
    pub open spec fn battery_changed(self, supply: Seq<Seq<u8>>, active: bool) -> Mice {
        match battery::hid_of(supply) {
            Some(hid) => self.switched(hid, active),
            None => self,
        }
    }
}

/// Whether `below` lists the tracked nodes below `hid`, each of them once and
/// with whether its mouse is active.
pub open spec fn lists_below(
    below: Seq<(SysPath, bool)>,
    mice: Mice,
    hid: Seq<Seq<u8>>,
) -> bool {
    &&& forall|k: int|
        0 <= k < below.len() ==> {
            let (path, active) = #[trigger] below[k];
            &&& mice.known.contains_key(path@)
            &&& mice.known[path@] == active
            &&& hid.is_prefix_of(path@)
        }
    &&& forall|k: int, l: int|
        0 <= k < l < below.len() ==> (#[trigger] below[k]).0@ != (#[trigger] below[l]).0@
    &&& forall|path: Seq<Seq<u8>>| #[trigger]
        mice.known.contains_key(path) && hid.is_prefix_of(path) ==> exists|k: int|
            0 <= k < below.len() && (#[trigger] below[k]).0@ == path
}

impl Mice {
    /// There are finitely many active mice, and finitely many to switch.
    pub proof fn lemma_finite(self)
        requires
            self.known.dom().finite(),
        ensures
            self.active().finite(),
            self.active().len() <= self.known.dom().len(),
            forall|hid: Seq<Seq<u8>>, active: bool|
                (#[trigger] self.changing(hid, active)).finite(),
    {
        vstd::set_lib::lemma_set_subset_finite(self.known.dom(), self.active());
        vstd::set_lib::lemma_len_subset(self.active(), self.known.dom());
        assert forall|hid: Seq<Seq<u8>>, active: bool| (#[trigger] self.changing(
            hid,
            active,
        )).finite() by {
            vstd::set_lib::lemma_set_subset_finite(self.known.dom(), self.changing(hid, active));
        }
    }

    /// Where no mice are known, none are counted.
    pub proof fn lemma_none_exact()
        ensures
            Mice::none().exact(),
    {
        assert(Mice::none().active() =~= Set::empty());
    }

    /// No mouse is counted exactly where none is active.
    pub proof fn lemma_none_active(self)
        requires
            self.exact(),
        ensures
            self.count == 0 <==> forall|path: Seq<Seq<u8>>| #[trigger]
                self.known.contains_key(path) ==> !self.known[path],
    {
        self.lemma_finite();
        vstd::set_lib::axiom_is_empty_len0(self.active());
        if self.count == 0 {
            assert forall|path: Seq<Seq<u8>>| #[trigger]
                self.known.contains_key(path) implies !self.known[path] by {
                assert(!self.active().contains(path));
            }
        } else {
            let path = choose|path: Seq<Seq<u8>>| self.active().contains(path);
            assert(self.known.contains_key(path) && self.known[path]);
        }
    }

    /// Plugging a mouse in keeps the count exact.
    pub proof fn lemma_plugged_exact(self, path: Seq<Seq<u8>>, active: bool)
        requires
            self.exact(),
        ensures
            self.plugged(path, active).exact(),
            self.active().contains(path) ==> self.count > 0,
    {
        let next = self.plugged(path, active);
        self.lemma_finite();
        next.lemma_finite();
        if active {
            assert(next.active() =~= self.active().insert(path));
        } else {
            assert(next.active() =~= self.active().remove(path));
        }
        assert(self.active().contains(path) == (self.known.contains_key(path) && self.known[path]));
    }

    /// Unplugging a mouse keeps the count exact.
    pub proof fn lemma_unplugged_exact(self, path: Seq<Seq<u8>>)
        requires
            self.exact(),
        ensures
            self.unplugged(path).exact(),
            self.active().contains(path) ==> self.count > 0,
    {
        let next = self.unplugged(path);
        self.lemma_finite();
        if self.known.contains_key(path) {
            next.lemma_finite();
            assert(next.active() =~= self.active().remove(path));
            assert(self.active().contains(path) == self.known[path]);
        }
    }

    /// Switching mice on or off keeps the count exact.
    pub proof fn lemma_switched_exact(self, hid: Seq<Seq<u8>>, active: bool)
        requires
            self.exact(),
        ensures
            self.switched(hid, active).exact(),
            active ==> self.count + self.changing(hid, active).len() <= self.known.dom().len(),
            !active ==> self.changing(hid, active).len() <= self.count,
    {
        let next = self.switched(hid, active);
        let changing = self.changing(hid, active);
        self.lemma_finite();
        assert(next.known.dom() =~= self.known.dom());
        next.lemma_finite();
        if active {
            assert(next.active() =~= self.active() + changing);
            assert(self.active().disjoint(changing));
            vstd::set_lib::lemma_set_disjoint_lens(self.active(), changing);
        } else {
            assert(self.active() =~= next.active() + changing);
            assert(next.active().disjoint(changing));
            vstd::set_lib::lemma_set_disjoint_lens(next.active(), changing);
        }
    }
}

} // verus!
