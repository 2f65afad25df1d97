//! A count of connected mice that reports when it leaves and when it reaches zero.

use vstd::prelude::*;

verus! {

/// The count after a mouse was connected, or disconnected. A disconnect when
/// there is no mouse does not matter.
pub open spec fn counted(count: nat, connected: bool) -> nat {
    if connected {
        count + 1
    } else if count == 0 {
        0
    } else {
        (count - 1) as nat
    }
}

/// Whether a mouse that was connected is the first one, or a mouse that was
/// disconnected the last one.
pub open spec fn crosses(count: nat, connected: bool) -> bool {
    if connected {
        count == 0
    } else {
        count == 1
    }
}

/// Tracks how many external mice are currently connected and reports whether
/// each add or remove event crosses the boundary between none and some, the
/// only point at which the touchpad has to be toggled. With two mice plugged in
/// at once, unplugging one of them leaves the touchpad disabled.
#[derive(Debug, Clone, Copy, PartialEq, Eq, Structural)]
pub struct MouseCounter(usize);

impl View for MouseCounter {
    type V = nat;

    closed spec fn view(&self) -> nat {
        self.0 as nat
    }
}

impl Default for MouseCounter {
    /// A counter of no mice.
    fn default() -> (counter: Self)
        ensures
            counter@ == 0,
    {
        MouseCounter(0)
    }
}

impl MouseCounter {
    /// Creates a counter seeded with `initial` already-connected mice.
    #[inline]
    #[must_use]
    pub fn new(initial: usize) -> (counter: Self)
        ensures
            counter@ == initial,
    {
        Self(initial)
    }

    /// The number of mice currently tracked as connected.
    #[inline]
    #[must_use]
    pub fn count(self) -> (count: usize)
        ensures
            count == self@,
    {
        self.0
    }

    /// Registers a connected external mouse. Returns `true` exactly when this
    /// is the first currently-connected mouse, i.e. when the touchpad should
    /// now be disabled.
    #[inline]
    pub fn connect(&mut self) -> (first: bool)
        requires
            old(self)@ < usize::MAX,
        ensures
            final(self)@ == counted(old(self)@, true),
            final(self)@ == old(self)@ + 1,
            first == crosses(old(self)@, true),
            first <==> old(self)@ == 0,
    {
        self.0 += 1;
        self.0 == 1
    }

    /// Registers a disconnected external mouse. Returns `true` exactly when no
    /// mice remain, i.e. when the touchpad should now be enabled again. A
    /// disconnect with no mice currently tracked is spurious and ignored.
    #[inline]
    pub fn disconnect(&mut self) -> (last: bool)
        ensures
            final(self)@ == counted(old(self)@, false),
            old(self)@ > 0 ==> final(self)@ == old(self)@ - 1,
            old(self)@ == 0 ==> final(self)@ == 0,
            last == crosses(old(self)@, false),
            last <==> old(self)@ == 1,
    {
        if self.0 == 0 {
            return false;
        }
        self.0 -= 1;
        self.0 == 0
    }
}

/// Two counters with the same count are equal.
pub proof fn law_same_count_same_counter(a: MouseCounter, b: MouseCounter)
    ensures
        a@ == b@ ==> a == b,
{
}

/// Each connect adds one mouse, each disconnect takes one away unless there is
/// none, and what is reported is the first mouse that comes and the last that
/// goes.
pub proof fn law_counting(count: nat)
    ensures
        counted(count, true) == count + 1,
        counted(count + 1, false) == count,
        counted(0, false) == 0,
        crosses(count, true) <==> count == 0,
        crosses(count, false) <==> count == 1,
{
}

} // verus!
