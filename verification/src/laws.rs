//! What holds of the daemon as a whole.

use vstd::prelude::*;
use vstd::utf8::*;
use crate::battery;
use crate::counter;
use crate::daemon;
use crate::daemon::{EventKind, Reaction};
use crate::device::InputDevice;
use crate::mice;
use crate::mice::Mice;
use crate::search;
use crate::search::{Finding, SearchState, Surroundings};
use crate::syspath;
use crate::text;
use crate::xinput;

verus! {

/// A change that the daemon takes note of.
pub enum Change {
    Plugged { path: Seq<Seq<u8>>, active: bool },
    Unplugged { path: Seq<Seq<u8>> },
    BatteryChanged { supply: Seq<Seq<u8>>, active: bool },
}

impl Mice {
    /// The mice after a change.
    pub open spec fn after(self, change: Change) -> Mice {
        match change {
            Change::Plugged { path, active } => self.plugged(path, active),
            Change::Unplugged { path } => self.unplugged(path),
            Change::BatteryChanged { supply, active } => self.battery_changed(supply, active),
        }
    }

    /// The mice after those that were found at startup have been noted.
    pub open spec fn at_startup(found: Seq<(Seq<Seq<u8>>, bool)>) -> Mice
        decreases found.len(),
    {
        if found.len() == 0 {
            Mice::none()
        } else {
            Mice::at_startup(found.drop_last()).plugged(found.last().0, found.last().1)
        }
    }
}

/// The mice and the touchpad at one time.
pub struct Laptop {
    pub mice: Mice,
    pub touchpad_enabled: bool,
}

impl Laptop {
    /// When the daemon has started and has set the touchpad.
    pub open spec fn started(found: Seq<(Seq<Seq<u8>>, bool)>) -> Laptop {
        let mice = Mice::at_startup(found);
        Laptop { mice, touchpad_enabled: mice.count == 0 }
    }

    /// The command that a change makes the daemon give to the touchpad.
    pub open spec fn command(self, change: Change) -> Option<bool> {
        mice::toggle(self.mice.count, self.mice.after(change).count)
    }

    /// When a change has been noted and the command obeyed.
    pub open spec fn after(self, change: Change) -> Laptop {
        Laptop {
            mice: self.mice.after(change),
            touchpad_enabled: match self.command(change) {
                Some(enabled) => enabled,
                None => self.touchpad_enabled,
            },
        }
    }

    /// When all of `changes` have been noted one after the other.
    pub open spec fn after_all(self, changes: Seq<Change>) -> Laptop
        decreases changes.len(),
    {
        if changes.len() == 0 {
            self
        } else {
            self.after_all(changes.drop_last()).after(changes.last())
        }
    }
}

proof fn lemma_after_exact(mice: Mice, change: Change)
    requires
        mice.exact(),
    ensures
        mice.after(change).exact(),
{
    match change {
        Change::Plugged { path, active } => mice.lemma_plugged_exact(path, active),
        Change::Unplugged { path } => mice.lemma_unplugged_exact(path),
        Change::BatteryChanged { supply, active } => match battery::hid_of(supply) {
            Some(hid) => mice.lemma_switched_exact(hid, active),
            None => {},
        },
    }
}

proof fn lemma_at_startup_exact(found: Seq<(Seq<Seq<u8>>, bool)>)
    ensures
        Mice::at_startup(found).exact(),
    decreases found.len(),
{
    if found.len() == 0 {
        Mice::lemma_none_exact();
    } else {
        lemma_at_startup_exact(found.drop_last());
        Mice::at_startup(found.drop_last()).lemma_plugged_exact(found.last().0, found.last().1);
    }
}

/// The touchpad is enabled exactly while no mouse is counted as connected,
/// whatever was found at startup and whatever has happened since.
pub proof fn law_touchpad_follows_count(
    found: Seq<(Seq<Seq<u8>>, bool)>,
    changes: Seq<Change>,
)
    ensures
        ({
            let now = Laptop::started(found).after_all(changes);
            now.touchpad_enabled == (now.mice.count == 0)
        }),
    decreases changes.len(),
{
    if changes.len() > 0 {
        law_touchpad_follows_count(found, changes.drop_last());
    }
}

/// At all times the mice that are counted are exactly the active ones.
pub proof fn law_exactly_the_active_mice_are_counted(
    found: Seq<(Seq<Seq<u8>>, bool)>,
    changes: Seq<Change>,
)
    ensures
        Laptop::started(found).after_all(changes).mice.exact(),
    decreases changes.len(),
{
    lemma_at_startup_exact(found);
    if changes.len() > 0 {
        law_exactly_the_active_mice_are_counted(found, changes.drop_last());
        lemma_after_exact(
            Laptop::started(found).after_all(changes.drop_last()).mice,
            changes.last(),
        );
    }
}

/// The touchpad is enabled exactly while no mouse is active: it is disabled
/// while an external mouse is connected and active, and enabled again once the
/// last active mouse is gone.
pub proof fn law_touchpad_enabled_exactly_while_no_mouse_is_active(
    found: Seq<(Seq<Seq<u8>>, bool)>,
    changes: Seq<Change>,
)
    ensures
        ({
            let now = Laptop::started(found).after_all(changes);
            now.touchpad_enabled == now.mice.active().is_empty()
        }),
{
    let now = Laptop::started(found).after_all(changes);
    law_touchpad_follows_count(found, changes);
    law_exactly_the_active_mice_are_counted(found, changes);
    now.mice.lemma_finite();
    vstd::set_lib::axiom_is_empty_len0(now.mice.active());
}

/// The touchpad is disabled while an external mouse is connected and active.
pub proof fn law_touchpad_disabled_while_a_mouse_is_active(
    found: Seq<(Seq<Seq<u8>>, bool)>,
    changes: Seq<Change>,
    path: Seq<Seq<u8>>,
)
    requires
        Laptop::started(found).after_all(changes).mice.active().contains(path),
    ensures
        !Laptop::started(found).after_all(changes).touchpad_enabled,
{
    law_touchpad_enabled_exactly_while_no_mouse_is_active(found, changes);
    assert(!Laptop::started(found).after_all(changes).mice.active().is_empty());
}

/// When a change leaves no active mouse where there was one, the daemon gives
/// the command to enable the touchpad.
pub proof fn law_last_mouse_enables_the_touchpad(
    found: Seq<(Seq<Seq<u8>>, bool)>,
    changes: Seq<Change>,
    change: Change,
)
    requires
        !Laptop::started(found).after_all(changes).mice.active().is_empty(),
        Laptop::started(found).after_all(changes).after(change).mice.active().is_empty(),
    ensures
        Laptop::started(found).after_all(changes).command(change) == Some(true),
{
    let all = changes.push(change);
    assert(all.drop_last() =~= changes);
    law_touchpad_enabled_exactly_while_no_mouse_is_active(found, changes);
    law_touchpad_enabled_exactly_while_no_mouse_is_active(found, all);
}

/// The daemon never tells the touchpad to be what it is already: each command
/// is the opposite of the one before.
pub proof fn law_commands_alternate(
    found: Seq<(Seq<Seq<u8>>, bool)>,
    changes: Seq<Change>,
    change: Change,
)
    ensures
        Laptop::started(found).after_all(changes).command(change) matches Some(enabled) ==> enabled
            != Laptop::started(found).after_all(changes).touchpad_enabled,
{
    law_touchpad_follows_count(found, changes);
}

/// Unplugging a mouse undoes its being plugged in, if it was not known before.
pub proof fn law_unplugging_undoes_plugging(mice: Mice, path: Seq<Seq<u8>>, active: bool)
    requires
        !mice.known.contains_key(path),
    ensures
        mice.plugged(path, active).unplugged(path) == mice,
{
    assert(mice.known.insert(path, active).remove(path) =~= mice.known);
}

/// A mouse that is reported as plugged in again, in the same state, is not
/// counted again: nothing changes, and nothing is done to the touchpad.
pub proof fn law_mouse_reported_twice_counts_once(
    laptop: Laptop,
    path: Seq<Seq<u8>>,
    active: bool,
)
    ensures
        ({
            let plugged = laptop.after(Change::Plugged { path, active });
            &&& plugged.after(Change::Plugged { path, active }) == plugged
            &&& plugged.command(Change::Plugged { path, active }) is None
        }),
{
    let plugged = laptop.after(Change::Plugged { path, active });
    let again = plugged.after(Change::Plugged { path, active });
    assert(again.mice.known =~= plugged.mice.known);
}

/// Once a mouse is unplugged it does not matter how often, and in which states,
/// it was reported as plugged in before.
pub proof fn law_unplugging_forgets_earlier_reports(
    mice: Mice,
    path: Seq<Seq<u8>>,
    active: bool,
)
    requires
        mice.exact(),
    ensures
        mice.plugged(path, active).unplugged(path) == mice.unplugged(path),
{
    mice.lemma_plugged_exact(path, active);
    assert(mice.plugged(path, active).unplugged(path).known =~= mice.unplugged(path).known);
    if mice.known.contains_key(path) && mice.known[path] {
        assert(mice.active().contains(path));
    }
}

/// It does not matter in which order two mice are plugged in.
pub proof fn law_mice_are_plugged_in_any_order(
    mice: Mice,
    first: Seq<Seq<u8>>,
    first_active: bool,
    second: Seq<Seq<u8>>,
    second_active: bool,
)
    requires
        mice.exact(),
        first != second,
    ensures
        mice.plugged(first, first_active).plugged(second, second_active) == mice.plugged(
            second,
            second_active,
        ).plugged(first, first_active),
{
    mice.lemma_plugged_exact(first, first_active);
    mice.lemma_plugged_exact(second, second_active);
    mice.plugged(first, first_active).lemma_plugged_exact(second, second_active);
    mice.plugged(second, second_active).lemma_plugged_exact(first, first_active);
    assert(mice.plugged(first, first_active).plugged(second, second_active).known
        =~= mice.plugged(second, second_active).plugged(first, first_active).known);
}

/// Removing a device that is not tracked changes nothing, and nothing is done
/// to the touchpad.
pub proof fn law_spurious_removal_is_ignored(laptop: Laptop, path: Seq<Seq<u8>>)
    requires
        !laptop.mice.known.contains_key(path),
    ensures
        laptop.after(Change::Unplugged { path }) == laptop,
        laptop.command(Change::Unplugged { path }) is None,
{
}

/// While another mouse is active, neither unplugging a mouse nor switching
/// others off enables the touchpad.
pub proof fn law_remaining_mouse_keeps_touchpad_disabled(
    found: Seq<(Seq<Seq<u8>>, bool)>,
    changes: Seq<Change>,
    change: Change,
    other: Seq<Seq<u8>>,
)
    requires
        Laptop::started(found).after_all(changes).after(change).mice.active().contains(other),
    ensures
        Laptop::started(found).after_all(changes).command(change) != Some(true),
{
    let all = changes.push(change);
    assert(all.drop_last() =~= changes);
    law_touchpad_disabled_while_a_mouse_is_active(found, all, other);
}

/// A power supply that reports the same status again changes nothing.
pub proof fn law_repeated_status_changes_nothing(
    mice: Mice,
    supply: Seq<Seq<u8>>,
    active: bool,
)
    requires
        mice.exact(),
    ensures
        mice.battery_changed(supply, active).battery_changed(supply, active)
            == mice.battery_changed(supply, active),
{
    if let Some(hid) = battery::hid_of(supply) {
        let once = mice.switched(hid, active);
        let twice = once.switched(hid, active);
        assert(once.changing(hid, active) =~= Set::empty());
        assert(twice.known =~= once.known);
    }
}

/// Switching the mice of a receiver off and on again changes nothing, if all of
/// them were on.
pub proof fn law_switching_off_and_on_changes_nothing(mice: Mice, supply: Seq<Seq<u8>>)
    requires
        mice.exact(),
        forall|hid: Seq<Seq<u8>>, path: Seq<Seq<u8>>|
            battery::hid_of(supply) == Some(hid) && #[trigger] mice.known.contains_key(path)
                && #[trigger] hid.is_prefix_of(path) ==> mice.known[path],
    ensures
        mice.battery_changed(supply, false).battery_changed(supply, true) == mice,
{
    if let Some(hid) = battery::hid_of(supply) {
        let off = mice.switched(hid, false);
        let on = off.switched(hid, true);
        mice.lemma_switched_exact(hid, false);
        assert forall|path: Seq<Seq<u8>>| mice.known.contains_key(path) implies
            #[trigger] on.known[path] == mice.known[path] by {
            if hid.is_prefix_of(path) {
                assert(mice.known[path]);
            }
        }
        assert(on.known =~= mice.known);
        assert(off.changing(hid, true) =~= mice.changing(hid, false)) by {
            assert forall|path: Seq<Seq<u8>>| off.changing(hid, true).contains(path)
                == mice.changing(hid, false).contains(path) by {
                if mice.known.contains_key(path) && hid.is_prefix_of(path) {
                    assert(mice.known[path]);
                }
            }
        }
    }
}

/// A power supply does not speak of mice elsewhere than below its device.
pub proof fn law_other_mice_keep_their_state(
    mice: Mice,
    supply: Seq<Seq<u8>>,
    active: bool,
    path: Seq<Seq<u8>>,
)
    requires
        mice.known.contains_key(path),
        battery::hid_of(supply) matches Some(hid) ==> !hid.is_prefix_of(path),
    ensures
        mice.battery_changed(supply, active).known.contains_key(path),
        mice.battery_changed(supply, active).known[path] == mice.known[path],
{
}

/// The counter reports a connect or a disconnect exactly when the touchpad has
/// to be toggled.
pub proof fn law_counter_reports_toggles(count: nat, connected: bool)
    ensures
        mice::toggle(count, counter::counted(count, connected)) == if counter::crosses(
            count,
            connected,
        ) {
            Some(!connected)
        } else {
            None
        },
{
}

/// A disconnect undoes a connect, and is reported exactly if the connect was.
pub proof fn law_disconnect_undoes_connect(count: nat)
    ensures
        counter::counted(counter::counted(count, true), false) == count,
        counter::crosses(counter::counted(count, true), false) == counter::crosses(count, true),
{
}

/// A pointer that software made, a node of the touchpad and a device without a
/// node under `/dev` never count as a mouse.
pub proof fn law_other_pointers_are_ignored(
    subsystem: Option<&str>,
    device: InputDevice,
    touchpad_ancestor: Option<Seq<Seq<u8>>>,
)
    requires
        device.is_virtual() || device.is_touchpad_sibling(touchpad_ancestor) || !device.has_devnode,
    ensures
        !device.external_mouse(touchpad_ancestor),
        daemon::reaction(EventKind::Add, subsystem, device, touchpad_ancestor) == Reaction::Ignore,
{
}

/// All nodes in the directory of the touchpad's own node are taken for nodes of
/// the touchpad.
pub proof fn law_touchpad_is_no_mouse(device: InputDevice, touchpad: Seq<Seq<u8>>)
    requires
        syspath::parent_of(touchpad) is Some,
        syspath::parent_of(device.syspath@) == syspath::parent_of(touchpad),
    ensures
        device.is_touchpad_sibling(syspath::parent_of(touchpad)),
        !device.external_mouse(syspath::parent_of(touchpad)),
{
    let parent = syspath::parent_of(touchpad)->0;
    assert(parent =~= device.syspath@.subrange(0, parent.len() as int));
}

/// A mouse counts as inactive only where the nearest power supplies within reach
/// explicitly report it: a mouse without a battery is active, and so is one none
/// of whose power supplies has a readable status.
pub proof fn law_only_an_explicit_report_makes_a_mouse_inactive(
    around: Surroundings,
    device: Seq<Seq<u8>>,
)
    ensures
        !battery::active_or_absent(around.outcome(SearchState::look_above(device, 0), 0))
            <==> exists|level: nat|
            level < search::LEVELS && #[trigger] around.nearest(device, level)
                && Surroundings::verdict(
                (around.statuses)(Surroundings::supplies_above(device, level)->0),
                0,
            ) == Some(false),
{
    search::law_search_finds_the_nearest_battery(around, device);
}

/// A mouse without a battery is active.
pub proof fn law_mouse_without_battery_is_active(around: Surroundings, device: Seq<Seq<u8>>)
    requires
        forall|level: nat|
            level < search::LEVELS ==> !#[trigger] around.has_supplies(device, level),
    ensures
        battery::active_or_absent(around.outcome(SearchState::look_above(device, 0), 0)),
{
    search::law_search_finds_the_nearest_battery(around, device);
    assert forall|level: nat| level < search::LEVELS implies !#[trigger] around.nearest(
        device,
        level,
    ) by {
        assert(!around.has_supplies(device, level));
    }
}

/// The power supplies that the search for a mouse's battery finds are those
/// whose changes are taken to be about that mouse.
pub proof fn law_found_supplies_speak_of_their_mouse(
    device: Seq<Seq<u8>>,
    level: nat,
    name: Seq<u8>,
)
    requires
        Surroundings::supplies_above(device, level) is Some,
        syspath::is_name(name),
    ensures
        ({
            let supply = Surroundings::supplies_above(device, level)->0.push(name);
            battery::hid_of(supply) matches Some(hid) && hid.is_prefix_of(device)
        }),
    decreases level,
{
    let above = syspath::parent_of(device)->0;
    let supplies = Surroundings::supplies_above(device, level)->0;
    let supply = supplies.push(name);
    search::lemma_supplies_name();
    assert(above =~= device.subrange(0, above.len() as int));
    if level == 0 {
        assert(name != syspath::root()) by {
            assert(syspath::root()[0] == syspath::SLASH);
        }
        assert(search::supplies_name() != syspath::root()) by {
            assert(syspath::root()[0] == syspath::SLASH);
        }
        assert(supply.drop_last() =~= supplies);
        assert(supplies.drop_last() =~= above);
    } else {
        law_found_supplies_speak_of_their_mouse(above, (level - 1) as nat, name);
        let hid = battery::hid_of(supply)->0;
        assert(hid =~= device.subrange(0, hid.len() as int));
    }
}

/// What a power supply reports that the search for a mouse's battery finds is
/// recorded of that mouse.
pub proof fn law_battery_change_reaches_its_mouse(
    mice: Mice,
    device: Seq<Seq<u8>>,
    level: nat,
    name: Seq<u8>,
    active: bool,
)
    requires
        mice.known.contains_key(device),
        Surroundings::supplies_above(device, level) is Some,
        syspath::is_name(name),
    ensures
        ({
            let supply = Surroundings::supplies_above(device, level)->0.push(name);
            let after = mice.battery_changed(supply, active);
            after.known.contains_key(device) && after.known[device] == active
        }),
{
    law_found_supplies_speak_of_their_mouse(device, level, name);
}

/// When a known mouse is switched on while its receiver remains plugged in, the
/// touchpad is disabled.
pub proof fn law_mouse_that_is_switched_on_disables_the_touchpad(
    found: Seq<(Seq<Seq<u8>>, bool)>,
    changes: Seq<Change>,
    device: Seq<Seq<u8>>,
    level: nat,
    name: Seq<u8>,
)
    requires
        Laptop::started(found).after_all(changes).mice.known.contains_key(device),
        Surroundings::supplies_above(device, level) is Some,
        syspath::is_name(name),
    ensures
        ({
            let supply = Surroundings::supplies_above(device, level)->0.push(name);
            !Laptop::started(found).after_all(changes).after(
                Change::BatteryChanged { supply, active: true },
            ).touchpad_enabled
        }),
{
    let now = Laptop::started(found).after_all(changes);
    let supply = Surroundings::supplies_above(device, level)->0.push(name);
    let change = Change::BatteryChanged { supply, active: true };
    let all = changes.push(change);
    assert(all.drop_last() =~= changes);
    law_battery_change_reaches_its_mouse(now.mice, device, level, name, true);
    law_touchpad_disabled_while_a_mouse_is_active(found, all, device);
}

/// The name that is found is that of the first line that names a touchpad, and
/// none is found exactly where no line does.
pub proof fn law_first_touchpad_is_found(lines: Seq<Seq<char>>)
    ensures
        xinput::first_touchpad(lines) is None <==> forall|i: int|
            0 <= i < lines.len() ==> !xinput::names_touchpad(text::trimmed(#[trigger] lines[i])),
        forall|i: int|
            0 <= i < lines.len() && xinput::names_touchpad(text::trimmed(#[trigger] lines[i])) && (
            forall|j: int|
                0 <= j < i ==> !xinput::names_touchpad(text::trimmed(#[trigger] lines[j])))
                ==> xinput::first_touchpad(lines) == Some(text::trimmed(lines[i])),
    decreases lines.len(),
{
    if lines.len() > 0 && !xinput::names_touchpad(text::trimmed(lines[0])) {
        let rest = lines.skip(1);
        law_first_touchpad_is_found(rest);
        assert(forall|i: int| 0 < i < lines.len() ==> #[trigger] lines[i] == rest[i - 1]);
        assert forall|i: int|
            0 <= i < lines.len() && xinput::names_touchpad(text::trimmed(#[trigger] lines[i])) && (
            forall|j: int|
                0 <= j < i ==> !xinput::names_touchpad(
                    text::trimmed(#[trigger] lines[j]),
                )) implies xinput::first_touchpad(lines) == Some(text::trimmed(lines[i])) by {
            assert(i > 0);
            assert forall|j: int| 0 <= j < i - 1 implies !xinput::names_touchpad(
                text::trimmed(#[trigger] rest[j]),
            ) by {
                assert(rest[j] == lines[j + 1]);
            }
            assert(rest[i - 1] == lines[i]);
        }
        if forall|i: int|
            0 <= i < lines.len() ==> !xinput::names_touchpad(text::trimmed(#[trigger] lines[i])) {
            assert forall|i: int| 0 <= i < rest.len() implies !xinput::names_touchpad(
                text::trimmed(#[trigger] rest[i]),
            ) by {
                assert(rest[i] == lines[i + 1]);
            }
        }
    } else if lines.len() > 0 {
        assert(xinput::names_touchpad(text::trimmed(lines[0])));
    }
}

/// Where a name is found, it names a touchpad, has no white space around it, and
/// is the name that is found in a listing of it alone.
pub proof fn law_found_name_is_found_again(listing: Seq<char>)
    ensures
        xinput::first_touchpad(text::split_on(listing, '\n')) matches Some(name) ==> {
            &&& xinput::names_touchpad(name)
            &&& text::trimmed(name) == name
            &&& !name.contains('\n')
            &&& xinput::first_touchpad(text::split_on(name, '\n')) == Some(name)
        },
{
    let lines = text::split_on(listing, '\n');
    if let Some(name) = xinput::first_touchpad(lines) {
        text::lemma_split_on_pieces(listing, '\n');
        lemma_first_touchpad_is_a_line(lines);
        let k = choose|k: int|
            0 <= k < lines.len() && name == text::trimmed(#[trigger] lines[k]);
        let line = lines[k];
        text::law_trimming(line);
        assert(!name.contains('\n')) by {
            let start = choose|start: int|
                0 <= start <= line.len() - name.len() && name == #[trigger] line.subrange(
                    start,
                    start + name.len(),
                );
            assert forall|i: int| 0 <= i < name.len() implies name[i] != '\n' by {
                assert(name[i] == line[start + i]);
            }
        }
        text::lemma_split_on_cons(name, seq![], '\n');
    }
}

proof fn lemma_first_touchpad_is_a_line(lines: Seq<Seq<char>>)
    ensures
        xinput::first_touchpad(lines) matches Some(name) ==> xinput::names_touchpad(name)
            && exists|k: int| 0 <= k < lines.len() && name == text::trimmed(#[trigger] lines[k]),
    decreases lines.len(),
{
    if lines.len() > 0 {
        if xinput::names_touchpad(text::trimmed(lines[0])) {
            assert(lines[0] == lines[0]);
        } else if let Some(name) = xinput::first_touchpad(lines) {
            let rest = lines.skip(1);
            lemma_first_touchpad_is_a_line(rest);
            let k = choose|k: int|
                0 <= k < rest.len() && name == text::trimmed(#[trigger] rest[k]);
            assert(lines[k + 1] == rest[k]);
        }
    }
}

/// Whether a word is found does not depend on the case of ASCII letters, neither
/// of those in the text nor of those in the word.
pub proof fn law_case_does_not_matter(
    haystack: Seq<u8>,
    other_haystack: Seq<u8>,
    needle: Seq<u8>,
    other_needle: Seq<u8>,
)
    requires
        haystack.map_values(|b: u8| text::ascii_lower(b)) == other_haystack.map_values(
            |b: u8| text::ascii_lower(b),
        ),
        needle.map_values(|b: u8| text::ascii_lower(b)) == other_needle.map_values(
            |b: u8| text::ascii_lower(b),
        ),
    ensures
        text::contains_ignoring_case(haystack, needle) == text::contains_ignoring_case(
            other_haystack,
            other_needle,
        ),
{
    lemma_case_one_way(haystack, other_haystack, needle, other_needle);
    lemma_case_one_way(other_haystack, haystack, other_needle, needle);
}

proof fn lemma_case_one_way(
    haystack: Seq<u8>,
    other_haystack: Seq<u8>,
    needle: Seq<u8>,
    other_needle: Seq<u8>,
)
    requires
        haystack.map_values(|b: u8| text::ascii_lower(b)) == other_haystack.map_values(
            |b: u8| text::ascii_lower(b),
        ),
        needle.map_values(|b: u8| text::ascii_lower(b)) == other_needle.map_values(
            |b: u8| text::ascii_lower(b),
        ),
    ensures
        text::contains_ignoring_case(haystack, needle) ==> text::contains_ignoring_case(
            other_haystack,
            other_needle,
        ),
{
    let lower = |b: u8| text::ascii_lower(b);
    assert(haystack.map_values(lower).len() == other_haystack.map_values(lower).len());
    assert(needle.map_values(lower).len() == other_needle.map_values(lower).len());
    if text::contains_ignoring_case(haystack, needle) {
        let at = choose|at: int| text::matches_at(haystack, needle, at);
        assert forall|i: int| 0 <= i < other_needle.len() implies text::ascii_lower(
            other_haystack[at + i],
        ) == text::ascii_lower(#[trigger] other_needle[i]) by {
            assert(haystack.map_values(lower)[at + i] == other_haystack.map_values(lower)[at + i]);
            assert(needle.map_values(lower)[i] == other_needle.map_values(lower)[i]);
            assert(text::ascii_lower(haystack[at + i]) == text::ascii_lower(needle[i]));
        }
        assert(text::matches_at(other_haystack, other_needle, at));
    }
}

/// An empty word is found in every text, a word in itself, and no word in a text
/// that is shorter.
pub proof fn law_search_bounds(haystack: Seq<u8>, needle: Seq<u8>)
    ensures
        needle.len() == 0 ==> text::contains_ignoring_case(haystack, needle),
        text::contains_ignoring_case(needle, needle),
        needle.len() > haystack.len() ==> !text::contains_ignoring_case(haystack, needle),
{
    if needle.len() == 0 {
        assert(text::matches_at(haystack, needle, 0));
    }
    assert(text::matches_at(needle, needle, 0));
}

/// After a mouse is plugged in, its path is known with the activity that was
/// given, and every other path is known as before.
pub proof fn law_plugged_mouse_is_known_as_reported(
    mice: Mice,
    path: Seq<Seq<u8>>,
    active: bool,
    other: Seq<Seq<u8>>,
)
    requires
        other != path,
    ensures
        mice.plugged(path, active).known.contains_key(path),
        mice.plugged(path, active).known[path] == active,
        mice.plugged(path, active).known.contains_key(other) == mice.known.contains_key(other),
        mice.known.contains_key(other) ==> mice.plugged(path, active).known[other]
            == mice.known[other],
{
}

/// After a mouse is unplugged, its path is unknown, and every other path is
/// known as before.
pub proof fn law_unplugged_mouse_is_unknown(
    mice: Mice,
    path: Seq<Seq<u8>>,
    other: Seq<Seq<u8>>,
)
    requires
        other != path,
    ensures
        !mice.unplugged(path).known.contains_key(path),
        mice.unplugged(path).known.contains_key(other) == mice.known.contains_key(other),
        mice.known.contains_key(other) ==> mice.unplugged(path).known[other] == mice.known[other],
{
}

/// After mice are switched on or off, the same paths are known; those that begin
/// with the path of the device are as was said, and the others as before.
pub proof fn law_switched_mice_are_known_as_reported(
    mice: Mice,
    hid: Seq<Seq<u8>>,
    active: bool,
    path: Seq<Seq<u8>>,
)
    ensures
        mice.switched(hid, active).known.contains_key(path) == mice.known.contains_key(path),
        mice.known.contains_key(path) && hid.is_prefix_of(path) ==> mice.switched(
            hid,
            active,
        ).known[path] == active,
        mice.known.contains_key(path) && !hid.is_prefix_of(path) ==> mice.switched(
            hid,
            active,
        ).known[path] == mice.known[path],
{
}

/// At first no mouse is known and none is counted.
pub proof fn law_at_first_no_mouse_is_known(path: Seq<Seq<u8>>)
    ensures
        !Mice::none().known.contains_key(path),
        Mice::none().count == 0,
{
}

/// The count is exact where it is the number of the known paths that are
/// recorded as active.
pub proof fn law_exact_count_is_the_number_of_active_mice(mice: Mice)
    ensures
        mice.exact() <==> mice.known.dom().finite() && mice.count == Set::new(
            |path: Seq<Seq<u8>>| mice.known.contains_key(path) && mice.known[path],
        ).len(),
{
    assert(mice.active() =~= Set::new(
        |path: Seq<Seq<u8>>| mice.known.contains_key(path) && mice.known[path],
    ));
}

/// Where the count is the number of the active mice, it stays so, whether a
/// mouse is plugged in, unplugged, or switched on or off.
pub proof fn law_count_stays_the_number_of_active_mice(mice: Mice, change: Change)
    requires
        mice.known.dom().finite(),
        mice.count == Set::new(
            |path: Seq<Seq<u8>>| mice.known.contains_key(path) && mice.known[path],
        ).len(),
    ensures
        ({
            let next = match change {
                Change::Plugged { path, active } => mice.plugged(path, active),
                Change::Unplugged { path } => mice.unplugged(path),
                Change::BatteryChanged { supply, active } => mice.battery_changed(supply, active),
            };
            &&& next.known.dom().finite()
            &&& next.count == Set::new(
                |path: Seq<Seq<u8>>| next.known.contains_key(path) && next.known[path],
            ).len()
        }),
{
    law_exact_count_is_the_number_of_active_mice(mice);
    lemma_after_exact(mice, change);
    law_exact_count_is_the_number_of_active_mice(mice.after(change));
}

/// A command is given exactly when the first mouse comes or the last one goes:
/// to disable the touchpad when there is a mouse and was none, to enable it when
/// there is none and was one.
pub proof fn law_commands_are_given_at_the_first_and_the_last_mouse(before: nat, after: nat)
    ensures
        mice::toggle(before, after) == Some(false) <==> before == 0 && after != 0,
        mice::toggle(before, after) == Some(true) <==> before != 0 && after == 0,
        mice::toggle(before, after) is None <==> (before == 0 <==> after == 0),
{
}

/// The touchpad is enabled exactly while every known mouse is recorded as
/// inactive.
pub proof fn law_touchpad_is_enabled_exactly_while_all_mice_are_inactive(
    found: Seq<(Seq<Seq<u8>>, bool)>,
    changes: Seq<Change>,
)
    ensures
        ({
            let now = Laptop::started(found).after_all(changes);
            now.touchpad_enabled <==> forall|path: Seq<Seq<u8>>| #[trigger]
                now.mice.known.contains_key(path) ==> !now.mice.known[path]
        }),
{
    law_touchpad_follows_count(found, changes);
    law_exactly_the_active_mice_are_counted(found, changes);
    Laptop::started(found).after_all(changes).mice.lemma_none_active();
}

/// After an active mouse is plugged in, the touchpad is disabled.
pub proof fn law_active_mouse_that_is_plugged_in_disables_the_touchpad(
    found: Seq<(Seq<Seq<u8>>, bool)>,
    changes: Seq<Change>,
    path: Seq<Seq<u8>>,
)
    ensures
        !Laptop::started(found).after_all(changes).after(
            Change::Plugged { path, active: true },
        ).touchpad_enabled,
{
    let all = changes.push(Change::Plugged { path, active: true });
    assert(all.drop_last() =~= changes);
    law_touchpad_is_enabled_exactly_while_all_mice_are_inactive(found, all);
    assert(Laptop::started(found).after_all(all).mice.known.contains_key(path));
}

/// Of a mouse that is found at startup, what was found last is recorded; of one
/// that is not found, nothing.
pub proof fn law_last_report_at_startup_is_recorded(
    found: Seq<(Seq<Seq<u8>>, bool)>,
    path: Seq<Seq<u8>>,
    last: int,
)
    requires
        forall|i: int| last < i < found.len() ==> (#[trigger] found[i]).0 != path,
        0 <= last < found.len() && found[last].0 == path || last == -1,
    ensures
        Mice::at_startup(found).known.contains_key(path) <==> last >= 0,
        last >= 0 ==> Mice::at_startup(found).known[path] == found[last].1,
    decreases found.len(),
{
    if 0 < found.len() && last < found.len() - 1 {
        let front = found.drop_last();
        assert(found[found.len() - 1].0 != path);
        assert forall|i: int| last < i < front.len() implies (#[trigger] front[i]).0 != path by {
            assert(front[i] == found[i]);
        }
        law_last_report_at_startup_is_recorded(front, path, last);
    }
}

/// A mouse that was last found active at startup has the touchpad disabled; where
/// none is found active, it is enabled.
pub proof fn law_touchpad_is_set_at_startup(
    found: Seq<(Seq<Seq<u8>>, bool)>,
    path: Seq<Seq<u8>>,
    last: int,
)
    requires
        0 <= last < found.len(),
        found[last].0 == path,
        forall|i: int| last < i < found.len() ==> (#[trigger] found[i]).0 != path,
    ensures
        found[last].1 ==> !Laptop::started(found).touchpad_enabled,
        (forall|i: int| 0 <= i < found.len() ==> !(#[trigger] found[i]).1) ==> Laptop::started(
            found,
        ).touchpad_enabled,
{
    law_last_report_at_startup_is_recorded(found, path, last);
    law_touchpad_is_enabled_exactly_while_all_mice_are_inactive(found, Seq::empty());
    assert(Laptop::started(found).after_all(Seq::empty()) == Laptop::started(found));
    assert(Laptop::started(found).mice.known.contains_key(path));
    if forall|i: int| 0 <= i < found.len() ==> !(#[trigger] found[i]).1 {
        lemma_inactive_at_startup(found);
    }
}

proof fn lemma_inactive_at_startup(found: Seq<(Seq<Seq<u8>>, bool)>)
    requires
        forall|i: int| 0 <= i < found.len() ==> !(#[trigger] found[i]).1,
    ensures
        forall|path: Seq<Seq<u8>>| #[trigger]
            Mice::at_startup(found).known.contains_key(path) ==> !Mice::at_startup(
                found,
            ).known[path],
    decreases found.len(),
{
    if found.len() > 0 {
        let front = found.drop_last();
        assert forall|i: int| 0 <= i < front.len() implies !(#[trigger] front[i]).1 by {
            assert(front[i] == found[i]);
        }
        lemma_inactive_at_startup(front);
        assert(!found[found.len() - 1].1);
        assert forall|path: Seq<Seq<u8>>| #[trigger]
            Mice::at_startup(found).known.contains_key(path) implies !Mice::at_startup(
            found,
        ).known[path] by {
            if path != found.last().0 {
                assert(Mice::at_startup(front).known.contains_key(path));
            }
        }
    }
}

/// What a change event says is what the search at plug-in says of the same
/// status: that the mouse is on exactly for the words `Discharging`, `Charging`
/// and `Full`. A status that cannot be read says that it is off.
pub proof fn law_change_event_is_read_like_a_search(
    status: &str,
    contents: String,
    supplies: Seq<Seq<u8>>,
)
    requires
        contents@ == status@,
    ensures
        (SearchState::Reading { supplies }).after(Finding::Status(Some(contents))) == (
        SearchState::Finished { battery: Some(daemon::supply_reports_on(Some(status))) }),
        daemon::supply_reports_on(Some(status)) == battery::active_status(contents@),
        daemon::supply_reports_on(Some(status)) <==> {
            let word = text::trimmed(status@);
            word == "Discharging"@ || word == "Charging"@ || word == "Full"@
        },
        !daemon::supply_reports_on(None),
{
}

/// What is recorded after the power supply `name` in the directory `directory`
/// of the device `hid` has reported a change: of a mouse below that device, that
/// it is on exactly if the status reads `Discharging`, `Charging` or `Full`; of
/// another mouse, what was recorded before.
pub proof fn law_change_event_is_recorded_of_the_mice_below(
    mice: Mice,
    hid: Seq<Seq<u8>>,
    directory: Seq<u8>,
    name: Seq<u8>,
    status: Option<&str>,
    path: Seq<Seq<u8>>,
)
    requires
        directory != seq![47u8],
        name != seq![47u8],
    ensures
        ({
            let after = mice.battery_changed(
                hid.push(directory).push(name),
                daemon::supply_reports_on(status),
            );
            &&& after.known.contains_key(path) == mice.known.contains_key(path)
            &&& mice.known.contains_key(path) && hid.is_prefix_of(path) ==> after.known[path] == (
            status is Some && {
                let word = text::trimmed(status->0@);
                word == "Discharging"@ || word == "Charging"@ || word == "Full"@
            })
            &&& mice.known.contains_key(path) && !hid.is_prefix_of(path) ==> after.known[path]
                == mice.known[path]
        }),
{
    assert(hid.push(directory).push(name).drop_last() =~= hid.push(directory));
    assert(hid.push(directory).drop_last() =~= hid);
}

/// A power supply whose path has not two components to take away speaks of no
/// mouse.
pub proof fn law_power_supply_without_device_changes_nothing(
    mice: Mice,
    supply: Seq<Seq<u8>>,
    active: bool,
)
    requires
        supply.len() < 2 || supply.last() == seq![47u8] || supply[supply.len() - 2] == seq![47u8],
    ensures
        mice.battery_changed(supply, active) == mice,
        battery::hid_of(supply) is None,
{
}

/// Only a battery that says so makes a mouse inactive.
pub proof fn law_only_a_battery_makes_a_mouse_inactive(battery: Option<bool>)
    ensures
        !battery::active_or_absent(battery) <==> battery == Some(false),
{
}

/// A device is an external mouse exactly if it has a node under `/dev`, its
/// property `ID_INPUT_MOUSE` is 1 and its property `ID_INPUT_TOUCHPAD` is not, it
/// was not made by software, and it does not stand below the directory of the
/// touchpad. Exactly then is its arrival answered by plugging it in.
pub proof fn law_external_mice(
    subsystem: Option<&str>,
    device: InputDevice,
    touchpad_ancestor: Option<Seq<Seq<u8>>>,
)
    ensures
        device.external_mouse(touchpad_ancestor) <==> {
            &&& device.has_devnode
            &&& device.id_input_mouse is Some && device.id_input_mouse->0@ == "1"@
            &&& !(device.id_input_touchpad is Some && device.id_input_touchpad->0@ == "1"@)
            &&& !"/devices/virtual/"@.is_prefix_of(device.devpath@)
            &&& !(touchpad_ancestor is Some && touchpad_ancestor->0.is_prefix_of(device.syspath@))
        },
        daemon::reaction(EventKind::Add, subsystem, device, touchpad_ancestor) == Reaction::Plug
            <==> {
            &&& device.has_devnode
            &&& device.id_input_mouse is Some && device.id_input_mouse->0@ == "1"@
            &&& !(device.id_input_touchpad is Some && device.id_input_touchpad->0@ == "1"@)
            &&& !"/devices/virtual/"@.is_prefix_of(device.devpath@)
            &&& !(touchpad_ancestor is Some && touchpad_ancestor->0.is_prefix_of(device.syspath@))
        },
        daemon::reaction(EventKind::Add, subsystem, device, touchpad_ancestor) == Reaction::Plug
            || daemon::reaction(EventKind::Add, subsystem, device, touchpad_ancestor)
            == Reaction::Ignore,
{
}

/// Whatever the device is: a change is answered by reading a status exactly if
/// the subsystem is that of power supplies, and ignored otherwise; a removal is
/// always taken note of; other events are ignored.
pub proof fn law_reactions_to_other_events(
    subsystem: Option<&str>,
    device: InputDevice,
    touchpad_ancestor: Option<Seq<Seq<u8>>>,
)
    ensures
        subsystem is Some && subsystem->0@ == "power_supply"@ ==> daemon::reaction(
            EventKind::Change,
            subsystem,
            device,
            touchpad_ancestor,
        ) == Reaction::ReadStatus,
        !(subsystem is Some && subsystem->0@ == "power_supply"@) ==> daemon::reaction(
            EventKind::Change,
            subsystem,
            device,
            touchpad_ancestor,
        ) == Reaction::Ignore,
        daemon::reaction(EventKind::Remove, subsystem, device, touchpad_ancestor)
            == Reaction::Unplug,
        daemon::reaction(EventKind::Other, subsystem, device, touchpad_ancestor)
            == Reaction::Ignore,
{
}

/// The directories that are searched for a battery at plug-in are named like the
/// subsystem whose changes are answered by reading a status: `power_supply`.
pub proof fn law_searched_directories_are_named_like_the_subsystem(
    subsystem: &str,
    device: InputDevice,
    touchpad_ancestor: Option<Seq<Seq<u8>>>,
    above: Seq<Seq<u8>>,
    level: int,
)
    ensures
        daemon::reaction(EventKind::Change, Some(subsystem), device, touchpad_ancestor)
            == Reaction::ReadStatus ==> (SearchState::Looking { above, level }).directory() == Some(
            above.push(encode_utf8(subsystem@)),
        ),
        search::supplies_name() == encode_utf8("power_supply"@),
{
}

/// The name that is found is that of a line in which the letters t, o, u, c, h,
/// p, a and d stand one after the other, small or capital, while they stand so in
/// no line before it. The line and the offset in it are returned.
pub proof fn law_found_name_is_of_the_first_line_with_the_letters(
    lines: Seq<Seq<char>>,
) -> (place: (int, int))
    requires
        xinput::first_touchpad(lines) is Some,
    ensures
        ({
            let (line, at) = place;
            let name = text::trimmed(lines[line]);
            &&& 0 <= line < lines.len()
            &&& xinput::first_touchpad(lines) == Some(name)
            &&& 0 <= at
            &&& at + 8 <= name.len()
            &&& name[at] == 't' || name[at] == 'T'
            &&& name[at + 1] == 'o' || name[at + 1] == 'O'
            &&& name[at + 2] == 'u' || name[at + 2] == 'U'
            &&& name[at + 3] == 'c' || name[at + 3] == 'C'
            &&& name[at + 4] == 'h' || name[at + 4] == 'H'
            &&& name[at + 5] == 'p' || name[at + 5] == 'P'
            &&& name[at + 6] == 'a' || name[at + 6] == 'A'
            &&& name[at + 7] == 'd' || name[at + 7] == 'D'
        }),
        forall|j: int, at: int|
            0 <= j < place.0 && 0 <= at && at + 8 <= text::trimmed(lines[j]).len() ==> !({
                let before = text::trimmed(lines[j]);
                &&& (#[trigger] text::trimmed(lines[j])[at]) == 't' || before[at] == 'T'
                &&& before[at + 1] == 'o' || before[at + 1] == 'O'
                &&& before[at + 2] == 'u' || before[at + 2] == 'U'
                &&& before[at + 3] == 'c' || before[at + 3] == 'C'
                &&& before[at + 4] == 'h' || before[at + 4] == 'H'
                &&& before[at + 5] == 'p' || before[at + 5] == 'P'
                &&& before[at + 6] == 'a' || before[at + 6] == 'A'
                &&& before[at + 7] == 'd' || before[at + 7] == 'D'
            }),
    decreases lines.len(),
{
    let front = text::trimmed(lines[0]);
    xinput::law_letters_of_a_touchpad(front);
    if xinput::names_touchpad(front) {
        let at = choose|at: int| {
            &&& 0 <= at
            &&& at + 8 <= front.len()
            &&& (#[trigger] front[at]) == 't' || front[at] == 'T'
            &&& front[at + 1] == 'o' || front[at + 1] == 'O'
            &&& front[at + 2] == 'u' || front[at + 2] == 'U'
            &&& front[at + 3] == 'c' || front[at + 3] == 'C'
            &&& front[at + 4] == 'h' || front[at + 4] == 'H'
            &&& front[at + 5] == 'p' || front[at + 5] == 'P'
            &&& front[at + 6] == 'a' || front[at + 6] == 'A'
            &&& front[at + 7] == 'd' || front[at + 7] == 'D'
        };
        (0, at)
    } else {
        let rest = lines.skip(1);
        let (line, at) = law_found_name_is_of_the_first_line_with_the_letters(rest);
        assert(rest[line] == lines[line + 1]);
        assert forall|j: int, at: int|
            0 <= j < line + 1 && 0 <= at && at + 8 <= text::trimmed(lines[j]).len() implies !({
            let before = text::trimmed(lines[j]);
            &&& (#[trigger] text::trimmed(lines[j])[at]) == 't' || before[at] == 'T'
            &&& before[at + 1] == 'o' || before[at + 1] == 'O'
            &&& before[at + 2] == 'u' || before[at + 2] == 'U'
            &&& before[at + 3] == 'c' || before[at + 3] == 'C'
            &&& before[at + 4] == 'h' || before[at + 4] == 'H'
            &&& before[at + 5] == 'p' || before[at + 5] == 'P'
            &&& before[at + 6] == 'a' || before[at + 6] == 'A'
            &&& before[at + 7] == 'd' || before[at + 7] == 'D'
        }) by {
            if j > 0 {
                assert(rest[j - 1] == lines[j]);
                assert(text::trimmed(rest[j - 1])[at] == text::trimmed(lines[j])[at]);
            }
        }
        (line + 1, at)
    }
}

/// A line in which the letters t, o, u, c, h, p, a and d stand one after the
/// other, small or capital, is not passed over: the name that is found is its, or
/// that of a line before it.
pub proof fn law_line_with_the_letters_is_not_passed_over(
    lines: Seq<Seq<char>>,
    line: int,
    at: int,
)
    requires
        0 <= line < lines.len(),
        ({
            let name = text::trimmed(lines[line]);
            &&& 0 <= at
            &&& at + 8 <= name.len()
            &&& name[at] == 't' || name[at] == 'T'
            &&& name[at + 1] == 'o' || name[at + 1] == 'O'
            &&& name[at + 2] == 'u' || name[at + 2] == 'U'
            &&& name[at + 3] == 'c' || name[at + 3] == 'C'
            &&& name[at + 4] == 'h' || name[at + 4] == 'H'
            &&& name[at + 5] == 'p' || name[at + 5] == 'P'
            &&& name[at + 6] == 'a' || name[at + 6] == 'A'
            &&& name[at + 7] == 'd' || name[at + 7] == 'D'
        }),
    ensures
        exists|k: int|
            0 <= k <= line && xinput::first_touchpad(lines) == Some(
                text::trimmed(#[trigger] lines[k]),
            ),
    decreases lines.len(),
{
    xinput::law_letters_of_a_touchpad(text::trimmed(lines[line]));
    assert(xinput::names_touchpad(text::trimmed(lines[line])));
    if xinput::names_touchpad(text::trimmed(lines[0])) {
        assert(lines[0] == lines[0]);
    } else {
        let rest = lines.skip(1);
        assert(rest[line - 1] == lines[line]);
        law_line_with_the_letters_is_not_passed_over(rest, line - 1, at);
        let k = choose|k: int|
            0 <= k <= line - 1 && xinput::first_touchpad(rest) == Some(
                text::trimmed(#[trigger] rest[k]),
            );
        assert(lines[k + 1] == rest[k]);
    }
}

} // verus!
