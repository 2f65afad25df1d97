//! The search for the battery of a mouse in the directories above its input
//! node.
//!
//! A HID++ receiver exposes the battery of its mouse in a directory
//! `power_supply` a few levels above the mouse's event node. [`BatterySearch`]
//! says where to look next and draws the conclusions; its user looks.

use vstd::prelude::*;
use vstd::utf8::*;
use crate::battery;
use crate::syspath;
use crate::syspath::SysPath;
use crate::text;

verus! {

/// How many directories above the input node are searched.
pub const LEVELS: u8 = 6;

/// The name of the directory that holds the power supplies of a device.
pub open spec fn supplies_name() -> Seq<u8> {
    encode_utf8("power_supply"@)
}

/// What the user of a search found.
#[derive(Debug)]
pub enum Finding {
    /// Whether the directory that was asked for exists.
    Directory(bool),
    /// The contents of the `status` file of the next entry of the directory;
    /// `None` where it could not be read.
    Status(Option<String>),
    /// That the directory has no further entries, or cannot be listed.
    NoMoreEntries,
}

/// A search for the battery of a mouse.
#[derive(Debug)]
pub enum BatterySearch {
    /// It is to be found out whether the directory `above` holds power supplies.
    Looking { above: SysPath, level: u8 },
    /// The entries of the directory `supplies` are to be read one by one.
    Reading { supplies: SysPath },
    /// The search is over. `battery` tells whether the mouse is on; it is `None`
    /// where no battery reports anything.
    Finished { battery: Option<bool> },
}

/// The state of a search.
pub enum SearchState {
    Looking { above: Seq<Seq<u8>>, level: int },
    Reading { supplies: Seq<Seq<u8>> },
    Finished { battery: Option<bool> },
}

impl View for BatterySearch {
    type V = SearchState;

    open spec fn view(&self) -> SearchState {
        match *self {
            BatterySearch::Looking { above, level } => SearchState::Looking {
                above: above@,
                level: level as int,
            },
            BatterySearch::Reading { supplies } => SearchState::Reading { supplies: supplies@ },
            BatterySearch::Finished { battery } => SearchState::Finished { battery },
        }
    }
}

impl SearchState {
    /// The state in which the search looks at the directory above `below`, if
    /// there is one and the search goes up as far as `level`.
    pub open spec fn look_above(below: Seq<Seq<u8>>, level: int) -> SearchState {
        match syspath::parent_of(below) {
            Some(above) if level < LEVELS => SearchState::Looking { above, level },
            _ => SearchState::Finished { battery: None },
        }
    }

    /// The directory that the search has to do with.
    pub open spec fn directory(self) -> Option<Seq<Seq<u8>>> {
        match self {
            SearchState::Looking { above, .. } => Some(above.push(supplies_name())),
            SearchState::Reading { supplies } => Some(supplies),
            SearchState::Finished { .. } => None,
        }
    }

    /// The state after a finding. A finding that answers another question than
    /// the one that is open changes nothing.
    pub open spec fn after(self, finding: Finding) -> SearchState {
        match (self, finding) {
            (SearchState::Looking { above, level }, Finding::Directory(exists_there)) => {
                if exists_there {
                    SearchState::Reading { supplies: above.push(supplies_name()) }
                } else {
                    SearchState::look_above(above, level + 1)
                }
            },
            (SearchState::Reading { .. }, Finding::Status(Some(status))) => SearchState::Finished {
                battery: Some(battery::active_status(status@)),
            },
            (SearchState::Reading { .. }, Finding::NoMoreEntries) => SearchState::Finished {
                battery: None,
            },
            _ => self,
        }
    }
}

/// The name of the directory of power supplies is a name.
pub proof fn lemma_supplies_name()
    ensures
        syspath::is_name(supplies_name()),
{
    reveal_strlit("power_supply");
    is_ascii_chars_encode_utf8("power_supply"@);
}

fn supplies_below(above: &SysPath) -> (supplies: SysPath)
    ensures
        supplies@ == above@.push(supplies_name()),
{
    proof {
        lemma_supplies_name();
    }
    above.child("power_supply")
}

fn look_above(below: &SysPath, level: u8) -> (search: BatterySearch)
    ensures
        search@ == SearchState::look_above(below@, level as int),
{
    match below.parent() {
        Some(above) if level < LEVELS => BatterySearch::Looking { above, level },
        _ => BatterySearch::Finished { battery: None },
    }
}

impl BatterySearch {
    /// Begins the search for the battery of the device at `syspath`.
    #[must_use]
    pub fn begin(syspath: &SysPath) -> (search: Self)
        ensures
            search@ == SearchState::look_above(syspath@, 0),
            search is Looking <==> syspath@.len() > 0 && syspath@.last() != seq![47u8],
            search matches BatterySearch::Looking { above, level } ==> above@
                == syspath@.drop_last() && level == 0,
            search !is Reading,
            search matches BatterySearch::Finished { battery } ==> battery is None,
    {
        look_above(syspath, 0)
    }

    /// The directory whose existence is to be found out, or whose entries are to
    /// be read.
    #[must_use]
    pub fn directory(&self) -> (directory: Option<SysPath>)
        ensures
            match directory {
                Some(path) => self@.directory() == Some(path@),
                None => self@.directory() is None,
            },
            directory is None <==> self is Finished,
            self matches BatterySearch::Looking { above, .. } ==> directory->0@ == above@.push(
                encode_utf8("power_supply"@),
            ),
            self matches BatterySearch::Reading { supplies } ==> directory->0@ == supplies@,
    {
        match self {
            BatterySearch::Looking { above, .. } => Some(supplies_below(above)),
            BatterySearch::Reading { supplies } => Some(supplies.clone()),
            BatterySearch::Finished { .. } => None,
        }
    }

    /// Goes on with the search after a finding.
    #[must_use]
    pub fn after(self, finding: Finding) -> (search: Self)
        ensures
            search@ == self@.after(finding),
            match (self, finding) {
                (BatterySearch::Looking { above, .. }, Finding::Directory(true)) => search matches
                    BatterySearch::Reading { supplies } && supplies@ == above@.push(
                    encode_utf8("power_supply"@),
                ),
                (BatterySearch::Looking { above, level }, Finding::Directory(false)) => {
                    if level + 1 < 6 && above@.len() > 0 && above@.last() != seq![47u8] {
                        search matches BatterySearch::Looking { above: next, level: up } && next@
                            == above@.drop_last() && up == level + 1
                    } else {
                        search matches BatterySearch::Finished { battery } && battery is None
                    }
                },
                (BatterySearch::Reading { .. }, Finding::Status(Some(status))) => search matches
                    BatterySearch::Finished { battery } && battery == Some(
                    {
                        let word = text::trimmed(status@);
                        word == "Discharging"@ || word == "Charging"@ || word == "Full"@
                    },
                ),
                (BatterySearch::Reading { .. }, Finding::NoMoreEntries) => search matches
                    BatterySearch::Finished { battery } && battery is None,
                _ => search == self,
            },
    {
        match (self, finding) {
            (BatterySearch::Looking { above, level }, Finding::Directory(exists_there)) => {
                if exists_there {
                    BatterySearch::Reading { supplies: supplies_below(&above) }
                } else if level < LEVELS {
                    look_above(&above, level + 1)
                } else {
                    BatterySearch::Finished { battery: None }
                }
            },
            (BatterySearch::Reading { .. }, Finding::Status(Some(status))) => {
                BatterySearch::Finished {
                    battery: Some(battery::is_battery_active(status.as_str())),
                }
            },
            (BatterySearch::Reading { .. }, Finding::NoMoreEntries) => BatterySearch::Finished {
                battery: None,
            },
            (search, _) => search,
        }
    }
}

/// What there is to find: which directories exist, and what comes of reading
/// the `status` file of each of their entries, in the order in which they are
/// listed.
pub struct Surroundings {
    pub directories: Set<Seq<Seq<u8>>>,
    pub statuses: spec_fn(Seq<Seq<u8>>) -> Seq<Option<String>>,
}

impl Surroundings {
    /// The findings of a user who answers truly: what is reported next in
    /// `state`, when `read` entries of the directory have been read.
    pub open spec fn finding(self, state: SearchState, read: nat) -> Finding {
        let directory = state.directory()->0;
        match state {
            SearchState::Looking { .. } => Finding::Directory(self.directories.contains(directory)),
            _ => if read < (self.statuses)(directory).len() {
                Finding::Status((self.statuses)(directory)[read as int])
            } else {
                Finding::NoMoreEntries
            },
        }
    }

    /// What a search that is in `state` comes to, when `read` entries of the
    /// directory have been read.
    pub open spec fn outcome(self, state: SearchState, read: nat) -> Option<bool>
        decreases
            (if state is Looking { LEVELS - state->level + 1 } else { 0 }),
            (if state is Reading { (self.statuses)(state->supplies).len() - read + 1 } else { 0 }),
    {
        let next = state.after(self.finding(state, read));
        match state {
            SearchState::Looking { .. } if state->level >= LEVELS => None,
            SearchState::Looking { .. } => self.outcome(next, 0),
            SearchState::Reading { supplies } if read > (self.statuses)(supplies).len() => None,
            SearchState::Reading { .. } => self.outcome(next, read + 1),
            SearchState::Finished { battery } => battery,
        }
    }

    /// What the first readable one of the statuses from `from` on says, if one
    /// can be read.
    pub open spec fn verdict(statuses: Seq<Option<String>>, from: nat) -> Option<bool>
        decreases statuses.len() - from,
    {
        if from >= statuses.len() {
            None
        } else {
            match statuses[from as int] {
                Some(status) => Some(battery::active_status(status@)),
                None => Self::verdict(statuses, from + 1),
            }
        }
    }

    /// The directory of power supplies `level` directories further up than the
    /// one right above `device`.
    pub open spec fn supplies_above(device: Seq<Seq<u8>>, level: nat) -> Option<Seq<Seq<u8>>>
        decreases level,
    {
        match syspath::parent_of(device) {
            None => None,
            Some(above) => if level == 0 {
                Some(above.push(supplies_name()))
            } else {
                Self::supplies_above(above, (level - 1) as nat)
            },
        }
    }

    /// Whether there are power supplies at this level above `device`.
    pub open spec fn has_supplies(self, device: Seq<Seq<u8>>, level: nat) -> bool {
        Self::supplies_above(device, level) matches Some(supplies) && self.directories.contains(
            supplies,
        )
    }

    /// Whether the nearest power supplies above `device` are at this level.
    pub open spec fn nearest(self, device: Seq<Seq<u8>>, level: nat) -> bool {
        &&& self.has_supplies(device, level)
        &&& forall|lower: nat| lower < level ==> !#[trigger] self.has_supplies(device, lower)
    }

    /// Whether `battery` is what the nearest power supplies less than `levels`
    /// levels above `device` say: nothing where there are none, and nothing where
    /// those have no readable status.
    pub open spec fn finds_nearest(
        self,
        device: Seq<Seq<u8>>,
        levels: nat,
        battery: Option<bool>,
    ) -> bool {
        &&& battery is None <==> forall|level: nat|
            level < levels && #[trigger] self.nearest(device, level) ==> Self::verdict(
                (self.statuses)(Self::supplies_above(device, level)->0),
                0,
            ) is None
        &&& forall|level: nat|
            level < levels && #[trigger] self.nearest(device, level) ==> battery == Self::verdict(
                (self.statuses)(Self::supplies_above(device, level)->0),
                0,
            )
    }
}

proof fn lemma_reading(around: Surroundings, supplies: Seq<Seq<u8>>, read: nat)
    requires
        read <= (around.statuses)(supplies).len(),
    ensures
        around.outcome(SearchState::Reading { supplies }, read) == Surroundings::verdict(
            (around.statuses)(supplies),
            read,
        ),
    decreases (around.statuses)(supplies).len() - read,
{
    let state = SearchState::Reading { supplies };
    reveal_with_fuel(Surroundings::outcome, 3);
    if read < (around.statuses)(supplies).len() {
        lemma_reading(around, supplies, read + 1);
    }
}

proof fn lemma_looking(around: Surroundings, below: Seq<Seq<u8>>, level: int)
    requires
        0 <= level <= LEVELS,
    ensures
        around.finds_nearest(
            below,
            (LEVELS - level) as nat,
            around.outcome(SearchState::look_above(below, level), 0),
        ),
    decreases LEVELS - level,
{
    let outcome = around.outcome(SearchState::look_above(below, level), 0);
    let levels = (LEVELS - level) as nat;
    match syspath::parent_of(below) {
        Some(above) if level < LEVELS => {
            lemma_looking(around, above, level + 1);
            let supplies = above.push(supplies_name());
            assert(Surroundings::supplies_above(below, 0) == Some(supplies));
            assert forall|up: nat| up > 0 implies #[trigger] around.has_supplies(below, up)
                == around.has_supplies(above, (up - 1) as nat) by {}
            if around.directories.contains(supplies) {
                lemma_reading(around, supplies, 0);
                assert(around.nearest(below, 0));
            } else {
                assert(!around.has_supplies(below, 0));
                if outcome is Some {
                    let up = choose|up: nat|
                        up < levels - 1 && #[trigger] around.nearest(above, up)
                            && Surroundings::verdict(
                            (around.statuses)(Surroundings::supplies_above(above, up)->0),
                            0,
                        ) is Some;
                    assert(around.has_supplies(below, up + 1));
                    assert(around.nearest(below, up + 1)) by {
                        assert forall|lower: nat| lower < up + 1 implies !#[trigger] around.has_supplies(
                            below,
                            lower,
                        ) by {
                            if lower > 0 {
                                assert(!around.has_supplies(above, (lower - 1) as nat));
                            }
                        }
                    }
                }
                assert forall|up: nat|
                    up < levels && #[trigger] around.nearest(
                        below,
                        up,
                    ) implies outcome == Surroundings::verdict(
                    (around.statuses)(Surroundings::supplies_above(below, up)->0),
                    0,
                ) by {
                    let less = (up - 1) as nat;
                    assert(around.has_supplies(above, less));
                    assert forall|lower: nat| lower < less implies !#[trigger] around.has_supplies(
                        above,
                        lower,
                    ) by {
                        assert(!around.has_supplies(below, lower + 1));
                    }
                    assert(around.nearest(above, less));
                }
            }
        },
        _ => {
            assert forall|up: nat| up < levels implies !#[trigger] around.has_supplies(
                below,
                up,
            ) by {}
        },
    }
}

/// A search that is answered truly ends with what the nearest directory of power
/// supplies within reach says, and with nothing where there is none or where its
/// power supplies have no readable status.
pub proof fn law_search_finds_the_nearest_battery(around: Surroundings, device: Seq<Seq<u8>>)
    ensures
        around.finds_nearest(
            device,
            LEVELS as nat,
            around.outcome(SearchState::look_above(device, 0), 0),
        ),
{
    lemma_looking(around, device, 0);
}

proof fn lemma_first_readable(statuses: Seq<Option<String>>, from: nat, entry: int)
    requires
        from <= entry < statuses.len(),
        statuses[entry] is Some,
        forall|e: int| from <= e < entry ==> (#[trigger] statuses[e]) is None,
    ensures
        Surroundings::verdict(statuses, from) == Some(battery::active_status(statuses[entry]->0@)),
    decreases entry - from,
{
    if from < entry {
        assert(statuses[from as int] is None);
        lemma_first_readable(statuses, from + 1, entry);
    }
}

proof fn lemma_none_readable(statuses: Seq<Option<String>>, from: nat)
    requires
        forall|e: int| 0 <= e < statuses.len() ==> (#[trigger] statuses[e]) is None,
    ensures
        Surroundings::verdict(statuses, from) is None,
    decreases statuses.len() - from,
{
    if from < statuses.len() {
        assert(statuses[from as int] is None);
        lemma_none_readable(statuses, from + 1);
    }
}

/// A search comes to read the nearest directory of power supplies.
proof fn lemma_nearest_is_read(
    around: Surroundings,
    below: Seq<Seq<u8>>,
    level: int,
    kept: int,
)
    requires
        0 <= level,
        0 <= kept < below.len() <= kept + LEVELS - level,
        forall|j: int| kept <= j < below.len() ==> #[trigger] below[j] != syspath::root(),
        around.directories.contains(below.take(kept).push(supplies_name())),
        forall|n: int|
            kept < n < below.len() ==> !around.directories.contains(
                (#[trigger] below.take(n)).push(supplies_name()),
            ),
    ensures
        around.outcome(SearchState::look_above(below, level), 0) == Surroundings::verdict(
            (around.statuses)(below.take(kept).push(supplies_name())),
            0,
        ),
    decreases below.len(),
{
    let above = below.drop_last();
    assert(below[below.len() - 1] != syspath::root());
    assert(above =~= below.take(below.len() - 1));
    reveal_with_fuel(Surroundings::outcome, 2);
    if kept == below.len() - 1 {
        lemma_reading(around, above.push(supplies_name()), 0);
    } else {
        assert(above.take(kept) =~= below.take(kept));
        assert forall|n: int| kept < n < above.len() implies !around.directories.contains(
            (#[trigger] above.take(n)).push(supplies_name()),
        ) by {
            assert(above.take(n) =~= below.take(n));
        }
        assert forall|j: int| kept <= j < above.len() implies #[trigger] above[j]
            != syspath::root() by {
            assert(above[j] == below[j]);
        }
        lemma_nearest_is_read(around, above, level + 1, kept);
    }
}

/// A search comes to what the first readable status in the nearest directory
/// `power_supply` says, if that directory stands in one of the six directories
/// above the device: that the mouse is on exactly for the words `Discharging`,
/// `Charging` and `Full`. The path of the directory it stands in is made of the
/// first `kept` components of the device's path.
pub proof fn law_first_readable_status_decides(
    around: Surroundings,
    device: Seq<Seq<u8>>,
    kept: int,
    entry: int,
)
    requires
        0 <= kept < device.len() <= kept + 6,
        forall|j: int| kept <= j < device.len() ==> #[trigger] device[j] != seq![47u8],
        around.directories.contains(device.take(kept).push(encode_utf8("power_supply"@))),
        forall|n: int|
            kept < n < device.len() ==> !around.directories.contains(
                (#[trigger] device.take(n)).push(encode_utf8("power_supply"@)),
            ),
        ({
            let statuses = (around.statuses)(
                device.take(kept).push(encode_utf8("power_supply"@)),
            );
            &&& 0 <= entry < statuses.len()
            &&& statuses[entry] is Some
            &&& forall|e: int| 0 <= e < entry ==> (#[trigger] statuses[e]) is None
        }),
    ensures
        around.outcome(SearchState::look_above(device, 0), 0) == Some(
            {
                let word = text::trimmed(
                    (around.statuses)(
                        device.take(kept).push(encode_utf8("power_supply"@)),
                    )[entry]->0@,
                );
                word == "Discharging"@ || word == "Charging"@ || word == "Full"@
            },
        ),
{
    lemma_nearest_is_read(around, device, 0, kept);
    lemma_first_readable((around.statuses)(device.take(kept).push(supplies_name())), 0, entry);
}

/// A search comes to nothing where no status in the nearest directory
/// `power_supply` can be read.
pub proof fn law_unreadable_statuses_decide_nothing(
    around: Surroundings,
    device: Seq<Seq<u8>>,
    kept: int,
)
    requires
        0 <= kept < device.len() <= kept + 6,
        forall|j: int| kept <= j < device.len() ==> #[trigger] device[j] != seq![47u8],
        around.directories.contains(device.take(kept).push(encode_utf8("power_supply"@))),
        forall|n: int|
            kept < n < device.len() ==> !around.directories.contains(
                (#[trigger] device.take(n)).push(encode_utf8("power_supply"@)),
            ),
        forall|e: int|
            0 <= e < (around.statuses)(
                device.take(kept).push(encode_utf8("power_supply"@)),
            ).len() ==> (#[trigger] (around.statuses)(
                device.take(kept).push(encode_utf8("power_supply"@)),
            )[e]) is None,
    ensures
        around.outcome(SearchState::look_above(device, 0), 0) is None,
{
    lemma_nearest_is_read(around, device, 0, kept);
    lemma_none_readable((around.statuses)(device.take(kept).push(supplies_name())), 0);
}

proof fn lemma_nothing_is_found(around: Surroundings, below: Seq<Seq<u8>>, level: int)
    requires
        0 <= level,
        forall|n: int|
            #![trigger below.take(n)]
            0 <= n < below.len() <= n + LEVELS - level && (forall|j: int|
                n <= j < below.len() ==> #[trigger] below[j] != syspath::root())
                ==> !around.directories.contains(below.take(n).push(supplies_name())),
    ensures
        around.outcome(SearchState::look_above(below, level), 0) is None,
    decreases below.len(),
{
    reveal_with_fuel(Surroundings::outcome, 2);
    if below.len() > 0 && below.last() != syspath::root() && level < LEVELS {
        let above = below.drop_last();
        assert(above =~= below.take(below.len() - 1));
        assert forall|n: int|
            #![trigger above.take(n)]
            0 <= n < above.len() <= n + LEVELS - (level + 1) && (forall|j: int|
                n <= j < above.len() ==> #[trigger] above[j]
                    != syspath::root()) implies !around.directories.contains(
            above.take(n).push(supplies_name()),
        ) by {
            assert(above.take(n) =~= below.take(n));
            assert forall|j: int| n <= j < below.len() implies #[trigger] below[j]
                != syspath::root() by {
                if j < above.len() {
                    assert(above[j] == below[j]);
                }
            }
        }
        lemma_nothing_is_found(around, above, level + 1);
    }
}

/// A search comes to nothing where none of the six directories above the device
/// has a directory `power_supply` in it. Above the root there is none to look
/// at.
pub proof fn law_without_supplies_nothing_is_found(around: Surroundings, device: Seq<Seq<u8>>)
    requires
        forall|n: int|
            #![trigger device.take(n)]
            0 <= n < device.len() <= n + 6 && (forall|j: int|
                n <= j < device.len() ==> #[trigger] device[j] != seq![47u8])
                ==> !around.directories.contains(
                device.take(n).push(encode_utf8("power_supply"@)),
            ),
    ensures
        around.outcome(SearchState::look_above(device, 0), 0) is None,
{
    lemma_nothing_is_found(around, device, 0);
}

/// Each step of a search: from the directory above the device upwards, one
/// component at a time, until a directory `power_supply` exists or six levels
/// have been searched; then from one status to the next until one can be read.
pub proof fn law_steps_of_a_search(
    device: Seq<Seq<u8>>,
    above: Seq<Seq<u8>>,
    part: Seq<u8>,
    level: int,
    supplies: Seq<Seq<u8>>,
    status: String,
    finding: Finding,
    battery: Option<bool>,
)
    requires
        part != seq![47u8],
    ensures
        SearchState::look_above(device.push(part), 0) == (SearchState::Looking {
            above: device,
            level: 0,
        }),
        (SearchState::Looking { above, level }).directory() == Some(
            above.push(encode_utf8("power_supply"@)),
        ),
        (SearchState::Looking { above, level }).after(Finding::Directory(true)) == (
        SearchState::Reading { supplies: above.push(encode_utf8("power_supply"@)) }),
        level < 5 ==> (SearchState::Looking { above: above.push(part), level }).after(
            Finding::Directory(false),
        ) == (SearchState::Looking { above, level: level + 1 }),
        level >= 5 ==> (SearchState::Looking { above, level }).after(Finding::Directory(false)) == (
        SearchState::Finished { battery: None }),
        (SearchState::Looking { above: above.push(seq![47u8]), level }).after(
            Finding::Directory(false),
        ) == (SearchState::Finished { battery: None }),
        (SearchState::Reading { supplies }).directory() == Some(supplies),
        (SearchState::Reading { supplies }).after(Finding::Status(None)) == (
        SearchState::Reading { supplies }),
        (SearchState::Reading { supplies }).after(Finding::NoMoreEntries) == (
        SearchState::Finished { battery: None }),
        (SearchState::Reading { supplies }).after(Finding::Status(Some(status))) == (
        SearchState::Finished {
            battery: Some(
                {
                    let word = text::trimmed(status@);
                    word == "Discharging"@ || word == "Charging"@ || word == "Full"@
                },
            ),
        }),
        (SearchState::Finished { battery }).after(finding) == (SearchState::Finished { battery }),
{
    assert(device.push(part).drop_last() =~= device);
    assert(above.push(part).drop_last() =~= above);
}

} // verus!
