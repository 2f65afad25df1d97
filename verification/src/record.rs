//! The record that the daemon keeps of the input nodes of mice.

use vstd::prelude::*;
use crate::counter::MouseCounter;
use crate::mice;
use crate::mice::Mice;
use crate::syspath::SysPath;

verus! {

/// A tracked input node.
#[derive(Debug)]
struct Node {
    path: SysPath,
    active: bool,
}

spec fn stands_at(nodes: Seq<Node>, i: int, path: Seq<Seq<u8>>) -> bool {
    0 <= i < nodes.len() && nodes[i].path@ == path
}

/// Whether one of the first `count` nodes stands at `path`.
spec fn seen(nodes: Seq<Node>, count: int, path: Seq<Seq<u8>>) -> bool {
    exists|i: int| i < count && stands_at(nodes, i, path)
}

spec fn map_of(nodes: Seq<Node>) -> Map<Seq<Seq<u8>>, bool> {
    Map::new(
        |path: Seq<Seq<u8>>| exists|i: int| stands_at(nodes, i, path),
        |path: Seq<Seq<u8>>| nodes[choose|i: int| stands_at(nodes, i, path)].active,
    )
}

/// Whether no path stands in `nodes` twice.
spec fn distinct(nodes: Seq<Node>) -> bool {
    forall|i: int, j: int|
        0 <= i < j < nodes.len() ==> (#[trigger] nodes[i]).path@ != (#[trigger] nodes[j]).path@
}

proof fn lemma_map_of(nodes: Seq<Node>, i: int)
    requires
        distinct(nodes),
        0 <= i < nodes.len(),
    ensures
        map_of(nodes).contains_key(nodes[i].path@),
        map_of(nodes)[nodes[i].path@] == nodes[i].active,
{
    let path = nodes[i].path@;
    assert(stands_at(nodes, i, path));
    let k = choose|k: int| stands_at(nodes, k, path);
    assert(stands_at(nodes, k, path));
    assert(k == i);
}

proof fn lemma_map_len(nodes: Seq<Node>)
    requires
        distinct(nodes),
    ensures
        map_of(nodes).dom().finite(),
        map_of(nodes).dom().len() == nodes.len(),
    decreases nodes.len(),
{
    if nodes.len() == 0 {
        assert(map_of(nodes).dom() =~= Set::empty());
    } else {
        let last = nodes.len() - 1;
        lemma_map_of(nodes, last);
        lemma_map_remove(nodes, last);
        lemma_map_len(nodes.remove(last));
    }
}

/// The tracked input nodes, and the number of those whose mice are active.
#[derive(Debug)]
pub struct Record {
    nodes: Vec<Node>,
    mice: MouseCounter,
}

impl View for Record {
    type V = Mice;

    closed spec fn view(&self) -> Mice {
        Mice { known: map_of(self.nodes@), count: self.mice@ }
    }
}

impl Record {
    /// Whether no node stands in the record twice and the count is right.
    pub closed spec fn well_formed(&self) -> bool {
        &&& distinct(self.nodes@)
        &&& self@.exact()
    }

    /// What holds of a record that is well formed.
    pub proof fn lemma_exact(&self)
        requires
            self.well_formed(),
        ensures
            self@.exact(),
    {
    }

    /// A record of no mice.
    #[must_use]
    pub fn empty() -> (record: Self)
        ensures
            record.well_formed(),
            record@ == Mice::none(),
    {
        let record = Record { nodes: Vec::new(), mice: MouseCounter::new(0) };
        assert(record@.known =~= Map::empty());
        proof {
            Mice::lemma_none_exact();
        }
        record
    }

    /// How many mice are counted as connected.
    #[must_use]
    pub fn mouse_count(&self) -> (count: usize)
        ensures
            count == self@.count,
    {
        self.mice.count()
    }

    /// How many input nodes are tracked.
    #[must_use]
    pub fn node_count(&self) -> (count: usize)
        requires
            self.well_formed(),
        ensures
            count == self@.known.dom().len(),
    {
        proof {
            lemma_map_len(self.nodes@);
        }
        self.nodes.len()
    }

    /// The tracked nodes below `hid`, each with whether its mouse is active.
    #[must_use]
    pub fn nodes_below(&self, hid: &SysPath) -> (below: Vec<(SysPath, bool)>)
        requires
            self.well_formed(),
        ensures
            mice::lists_below(below@, self@, hid@),
    {
        let mut below: Vec<(SysPath, bool)> = Vec::new();
        let mut i: usize = 0;
        while i < self.nodes.len()
            invariant
                i <= self.nodes@.len(),
                self.well_formed(),
                forall|k: int|
                    0 <= k < below@.len() ==> {
                        let (path, active) = #[trigger] below@[k];
                        &&& self@.known.contains_key(path@)
                        &&& self@.known[path@] == active
                        &&& hid@.is_prefix_of(path@)
                    },
                forall|k: int|
                    0 <= k < below@.len() ==> seen(
                        self.nodes@,
                        i as int,
                        (#[trigger] below@[k]).0@,
                    ),
                forall|k: int, l: int|
                    0 <= k < l < below@.len() ==> (#[trigger] below@[k]).0@ != (
                    #[trigger] below@[l]).0@,
                forall|j: int|
                    0 <= j < i && hid@.is_prefix_of((#[trigger] self.nodes@[j]).path@)
                        ==> exists|k: int|
                        0 <= k < below@.len() && (#[trigger] below@[k]).0@ == self.nodes@[j].path@,
            decreases self.nodes@.len() - i,
        {
            proof {
                lemma_map_of(self.nodes@, i as int);
            }
            let ghost before = below@;
            if self.nodes[i].path.starts_with(hid) {
                assert(stands_at(self.nodes@, i as int, self.nodes@[i as int].path@));
                below.push((self.nodes[i].path.clone(), self.nodes[i].active));
                assert(below@[before.len() as int].0@ == self.nodes@[i as int].path@);
            }
            assert forall|k: int| 0 <= k < below@.len() implies seen(
                self.nodes@,
                i + 1,
                (#[trigger] below@[k]).0@,
            ) by {
                if k < before.len() {
                    assert(below@[k] == before[k]);
                }
            }
            assert forall|j: int|
                0 <= j <= i && hid@.is_prefix_of((#[trigger] self.nodes@[j]).path@) implies exists|
                k: int,
            | 0 <= k < below@.len() && (#[trigger] below@[k]).0@ == self.nodes@[j].path@ by {
                if j < i {
                    let k = choose|k: int|
                        0 <= k < before.len() && (#[trigger] before[k]).0@
                            == self.nodes@[j].path@;
                    assert(below@[k] == before[k]);
                }
            }
            i += 1;
        }
        assert forall|path: Seq<Seq<u8>>| #[trigger]
            self@.known.contains_key(path) && hid@.is_prefix_of(path) implies exists|k: int|
            0 <= k < below@.len() && (#[trigger] below@[k]).0@ == path by {
            let j = choose|j: int| stands_at(self.nodes@, j, path);
            assert(stands_at(self.nodes@, j, path));
        }
        below
    }

    /// The position of the node at `path` in the record; its length where the
    /// node is not tracked.
    fn position(&self, path: &SysPath) -> (at: usize)
        requires
            distinct(self.nodes@),
        ensures
            at <= self.nodes@.len(),
            at < self.nodes@.len() ==> self.nodes@[at as int].path@ == path@,
            at == self.nodes@.len() ==> !self@.known.contains_key(path@),
    {
        let mut at: usize = 0;
        while at < self.nodes.len()
            invariant
                at <= self.nodes@.len(),
                forall|j: int| 0 <= j < at ==> (#[trigger] self.nodes@[j]).path@ != path@,
            decreases self.nodes@.len() - at,
        {
            if self.nodes[at].path.same_as(path) {
                return at;
            }
            at += 1;
        }
        at
    }

    /// Records whether the mouse of the node at `path` is active.
    fn set(&mut self, path: &SysPath, active: bool)
        requires
            distinct(old(self).nodes@),
        ensures
            distinct(final(self).nodes@),
            final(self)@.known == old(self)@.known.insert(path@, active),
            final(self)@.count == old(self)@.count,
    {
        let at = self.position(path);
        if at < self.nodes.len() {
            self.nodes[at].active = active;
        } else {
            assert forall|j: int| 0 <= j < self.nodes@.len() implies (
            #[trigger] self.nodes@[j]).path@ != path@ by {
                assert(stands_at(self.nodes@, j, self.nodes@[j].path@));
            }
            self.nodes.push(Node { path: path.clone(), active });
        }
        assert(self@.known =~= old(self)@.known.insert(path@, active)) by {
            lemma_map_insert(old(self).nodes@, self.nodes@, at as int);
        }
    }

    /// Tracks the mouse at `path`, and counts it as its activity asks.
    pub fn plug(&mut self, path: &SysPath, active: bool) -> (command: Option<bool>)
        requires
            old(self).well_formed(),
        ensures
            final(self).well_formed(),
            final(self)@ == old(self)@.plugged(path@, active),
            command == mice::toggle(old(self)@.count, final(self)@.count),
    {
        let at = self.position(path);
        let was = at < self.nodes.len() && self.nodes[at].active;
        proof {
            self@.lemma_plugged_exact(path@, active);
            if at < self.nodes@.len() {
                lemma_map_of(self.nodes@, at as int);
            }
        }
        self.set(path, active);
        if active && !was {
            proof {
                let next = old(self)@.plugged(path@, active);
                next.lemma_finite();
                lemma_map_len(self.nodes@);
                assert(self.nodes@.len() == self.nodes.len());
            }
            if self.mice.connect() {
                return Some(false);
            }
        } else if !active && was {
            if self.mice.disconnect() {
                return Some(true);
            }
        }
        None
    }

    /// Tracks the node at `path` no longer.
    pub fn unplug(&mut self, path: &SysPath) -> (command: Option<bool>)
        requires
            old(self).well_formed(),
        ensures
            final(self).well_formed(),
            final(self)@ == old(self)@.unplugged(path@),
            command == mice::toggle(old(self)@.count, final(self)@.count),
    {
        let at = self.position(path);
        proof {
            old(self)@.lemma_unplugged_exact(path@);
        }
        if at == self.nodes.len() {
            return None;
        }
        proof {
            lemma_map_of(self.nodes@, at as int);
            lemma_map_remove(self.nodes@, at as int);
        }
        let node = self.nodes.remove(at);
        let last = node.active && self.mice.disconnect();
        if last {
            Some(true)
        } else {
            None
        }
    }

    /// Records of all mice below `hid` that they are active, or that they are
    /// not.
    pub fn switch(&mut self, hid: &SysPath, active: bool) -> (command: Option<bool>)
        requires
            old(self).well_formed(),
        ensures
            final(self).well_formed(),
            final(self)@ == old(self)@.switched(hid@, active),
            command == mice::toggle(old(self)@.count, final(self)@.count),
    {
        let ghost before = self@;
        let ghost nodes = self.nodes@;
        let ghost changing = before.changing(hid@, active);
        let ghost mut done: Set<Seq<Seq<u8>>> = Set::empty();
        proof {
            before.lemma_finite();
            before.lemma_switched_exact(hid@, active);
            lemma_map_len(nodes);
            assert(nodes.len() == self.nodes.len());
        }
        let mut command: Option<bool> = None;
        let mut i: usize = 0;
        while i < self.nodes.len()
            invariant
                i <= self.nodes@.len() == nodes.len(),
                distinct(nodes),
                before.known == map_of(nodes),
                changing == before.changing(hid@, active),
                changing.finite(),
                done.finite(),
                done.subset_of(changing),
                forall|j: int|
                    0 <= j < nodes.len() ==> (#[trigger] self.nodes@[j]).path@ == nodes[j].path@,
                forall|j: int|
                    0 <= j < i ==> (#[trigger] self.nodes@[j]).active == if hid@.is_prefix_of(
                        nodes[j].path@,
                    ) {
                        active
                    } else {
                        nodes[j].active
                    },
                forall|j: int| i <= j < nodes.len() ==> #[trigger] self.nodes@[j] == nodes[j],
                forall|j: int| i <= j < nodes.len() ==> !done.contains((#[trigger] nodes[j]).path@),
                forall|j: int|
                    0 <= j < i && changing.contains((#[trigger] nodes[j]).path@) ==> done.contains(
                        nodes[j].path@,
                    ),
                active ==> before.count + changing.len() <= usize::MAX,
                !active ==> changing.len() <= before.count,
                active ==> self.mice@ == before.count + done.len(),
                !active ==> self.mice@ == before.count - done.len(),
                command == mice::toggle(before.count, self.mice@),
            decreases nodes.len() - i,
        {
            proof {
                lemma_map_of(nodes, i as int);
            }
            let ghost path = nodes[i as int].path@;
            if self.nodes[i].path.starts_with(hid) && self.nodes[i].active != active {
                proof {
                    assert(changing.contains(path));
                    vstd::set_lib::lemma_len_subset(done.insert(path), changing);
                    done = done.insert(path);
                }
                self.nodes[i].active = active;
                if active {
                    if self.mice.connect() {
                        command = Some(false);
                    }
                } else {
                    if self.mice.disconnect() {
                        command = Some(true);
                    }
                }
            }
            i += 1;
        }
        proof {
            assert(done =~= changing) by {
                assert forall|path: Seq<Seq<u8>>| changing.contains(path) implies done.contains(
                    path,
                ) by {
                    let j = choose|j: int| stands_at(nodes, j, path);
                    assert(stands_at(nodes, j, path));
                }
            }
            lemma_map_switch(nodes, self.nodes@, hid@, active);
            assert(self@ =~= before.switched(hid@, active));
        }
        command
    }
}

/// Taking away a node takes away its path.
proof fn lemma_map_remove(nodes: Seq<Node>, at: int)
    requires
        distinct(nodes),
        0 <= at < nodes.len(),
    ensures
        distinct(nodes.remove(at)),
        map_of(nodes.remove(at)) == map_of(nodes).remove(nodes[at].path@),
{
    let after = nodes.remove(at);
    let m = map_of(nodes).remove(nodes[at].path@);
    assert forall|path: Seq<Seq<u8>>| map_of(after).contains_key(
        path,
    ) implies #[trigger] m.contains_key(path) && map_of(after)[path] == m[path] by {
        let i = choose|i: int| stands_at(after, i, path);
        assert(stands_at(after, i, path));
        lemma_map_of(after, i);
        let k = if i < at { i } else { i + 1 };
        assert(stands_at(nodes, k, path));
        lemma_map_of(nodes, k);
    }
    assert forall|path: Seq<Seq<u8>>| m.contains_key(path) implies #[trigger] map_of(
        after,
    ).contains_key(path) by {
        let i = choose|i: int| stands_at(nodes, i, path);
        assert(stands_at(nodes, i, path));
        let k = if i < at { i } else { i - 1 };
        assert(stands_at(after, k, path));
    }
    assert(map_of(after) =~= m);
}

/// Setting all nodes below `hid` sets the map at all paths below it.
proof fn lemma_map_switch(before: Seq<Node>, after: Seq<Node>, hid: Seq<Seq<u8>>, active: bool)
    requires
        distinct(before),
        after.len() == before.len(),
        forall|j: int| 0 <= j < before.len() ==> (#[trigger] after[j]).path@ == before[j].path@,
        forall|j: int|
            0 <= j < before.len() ==> (#[trigger] after[j]).active == if hid.is_prefix_of(
                before[j].path@,
            ) {
                active
            } else {
                before[j].active
            },
    ensures
        distinct(after),
        map_of(after) == map_of(before).map_entries(
            |path: Seq<Seq<u8>>, was: bool| if hid.is_prefix_of(path) { active } else { was },
        ),
{
    let m = map_of(before).map_entries(
        |path: Seq<Seq<u8>>, was: bool| if hid.is_prefix_of(path) { active } else { was },
    );
    assert forall|path: Seq<Seq<u8>>| map_of(after).contains_key(
        path,
    ) implies #[trigger] m.contains_key(path) && map_of(after)[path] == m[path] by {
        let i = choose|i: int| stands_at(after, i, path);
        assert(stands_at(after, i, path));
        lemma_map_of(after, i);
        assert(stands_at(before, i, path));
        lemma_map_of(before, i);
    }
    assert forall|path: Seq<Seq<u8>>| m.contains_key(path) implies #[trigger] map_of(
        after,
    ).contains_key(path) by {
        let i = choose|i: int| stands_at(before, i, path);
        assert(stands_at(before, i, path));
        assert(stands_at(after, i, path));
    }
    assert(map_of(after) =~= m);
}

/// Replacing or adding one node changes the map at one path.
proof fn lemma_map_insert(before: Seq<Node>, after: Seq<Node>, at: int)
    requires
        distinct(before),
        distinct(after),
        0 <= at < after.len(),
        after.len() == before.len() || at == before.len() == after.len() - 1,
        forall|j: int| 0 <= j < before.len() ==> (#[trigger] after[j]).path@ == before[j].path@,
        forall|j: int| 0 <= j < before.len() && j != at ==> #[trigger] after[j] == before[j],
    ensures
        map_of(after) == map_of(before).insert(after[at].path@, after[at].active),
{
    let m = map_of(before).insert(after[at].path@, after[at].active);
    assert forall|path: Seq<Seq<u8>>| map_of(after).contains_key(
        path,
    ) implies #[trigger] m.contains_key(path) && map_of(after)[path] == m[path] by {
        let i = choose|i: int| stands_at(after, i, path);
        assert(stands_at(after, i, path));
        lemma_map_of(after, i);
        if i != at {
            assert(stands_at(before, i, path));
            lemma_map_of(before, i);
        }
    }
    assert forall|path: Seq<Seq<u8>>| m.contains_key(path) implies #[trigger] map_of(
        after,
    ).contains_key(path) by {
        if path == after[at].path@ {
            assert(stands_at(after, at, path));
        } else {
            let i = choose|i: int| stands_at(before, i, path);
            assert(stands_at(before, i, path));
            assert(stands_at(after, i, path));
        }
    }
    assert(map_of(after) =~= m);
}

} // verus!
