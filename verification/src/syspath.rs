//! Paths in sysfs, taken as sequences of components.

use vstd::prelude::*;
use vstd::slice::{slice_subrange, slice_to_vec};
use vstd::utf8::*;
use crate::text;

verus! {

/// The byte that separates the components of a path.
pub const SLASH: u8 = 47;

/// The byte of which the component for the current directory is made.
pub const DOT: u8 = 46;

/// The component that stands for the root directory.
pub open spec fn root() -> Seq<u8> {
    seq![SLASH]
}

/// The component that stands for the current directory.
pub open spec fn current() -> Seq<u8> {
    seq![DOT]
}

/// Whether `part` names an entry of a directory.
pub open spec fn is_name(part: Seq<u8>) -> bool {
    &&& part.len() > 0
    &&& part != current()
    &&& !part.contains(SLASH)
}

/// Whether `parts` are the components of a path: names, with the root or the
/// current directory before them or nothing.
pub open spec fn is_path(parts: Seq<Seq<u8>>) -> bool {
    forall|i: int|
        0 <= i < parts.len() ==> {
            ||| is_name(#[trigger] parts[i])
            ||| i == 0 && (parts[i] == root() || parts[i] == current())
        }
}

/// The pieces between the slashes of `text`, without those that do not count:
/// the empty ones and those for the current directory.
pub open spec fn names_in(text: Seq<u8>) -> Seq<Seq<u8>> {
    text::split_on(text, SLASH).filter(|piece: Seq<u8>| piece.len() > 0 && piece != current())
}

/// What stands before the names of a path: the root, the current directory, or
/// nothing.
pub open spec fn anchor_of(text: Seq<u8>) -> Seq<Seq<u8>> {
    if text.len() > 0 && text[0] == SLASH {
        seq![root()]
    } else if text::split_on(text, SLASH)[0] == current() {
        seq![current()]
    } else {
        seq![]
    }
}

/// The components of the path that `text` spells. Repeated and trailing slashes
/// do not matter, nor does a dot for the current directory except at the front.
pub open spec fn path_of(text: Seq<u8>) -> Seq<Seq<u8>> {
    anchor_of(text) + names_in(text)
}

/// The path without its last component, where it has one to take away.
pub open spec fn parent_of(parts: Seq<Seq<u8>>) -> Option<Seq<Seq<u8>>> {
    if parts.len() == 0 || parts.last() == root() {
        None
    } else {
        Some(parts.drop_last())
    }
}

/// The plainest spelling of a path.
pub open spec fn spelling(parts: Seq<Seq<u8>>) -> Seq<u8> {
    if parts.len() > 0 && parts[0] == root() {
        root() + text::joined(parts.skip(1), SLASH)
    } else {
        text::joined(parts, SLASH)
    }
}

spec fn views(parts: Seq<Vec<u8>>) -> Seq<Seq<u8>> {
    parts.map_values(|part: Vec<u8>| part@)
}

/// A path in sysfs, such as the one of an input device.
#[derive(Debug)]
pub struct SysPath {
    parts: Vec<Vec<u8>>,
}

impl View for SysPath {
    type V = Seq<Seq<u8>>;

    closed spec fn view(&self) -> Seq<Seq<u8>> {
        views(self.parts@)
    }
}

impl Clone for SysPath {
    fn clone(&self) -> (copy: Self)
        ensures
            copy@ == self@,
    {
        proof {
            use_type_invariant(self);
        }
        let copy = SysPath { parts: copy_parts(&self.parts, self.parts.len()) };
        assert(self@.take(self@.len() as int) =~= self@);
        copy
    }
}

fn copy_parts(parts: &Vec<Vec<u8>>, count: usize) -> (copy: Vec<Vec<u8>>)
    requires
        count <= parts@.len(),
    ensures
        views(copy@) == views(parts@).take(count as int),
{
    let mut copy: Vec<Vec<u8>> = Vec::new();
    let mut i: usize = 0;
    while i < count
        invariant
            i <= count <= parts@.len(),
            views(copy@) =~= views(parts@).take(i as int),
        decreases count - i,
    {
        let part = slice_to_vec(parts[i].as_slice());
        let ghost before = views(copy@);
        copy.push(part);
        assert(views(copy@) =~= before.push(views(parts@)[i as int]));
        i += 1;
    }
    copy
}

/// The offset of the first slash of `text` from `start` on; its length where
/// there is none.
fn next_slash(text: &[u8], start: usize) -> (end: usize)
    requires
        start <= text@.len(),
    ensures
        start <= end <= text@.len(),
        end == start + text::run_before(text@.skip(start as int), SLASH),
{
    let mut end: usize = start;
    while end < text.len() && text[end] != SLASH
        invariant
            start <= end <= text@.len(),
            text::run_before(text@.skip(start as int), SLASH) == end - start + text::run_before(
                text@.skip(end as int),
                SLASH,
            ),
        decreases text@.len() - end,
    {
        assert(text@.skip(end as int).skip(1) =~= text@.skip(end + 1));
        end += 1;
    }
    end
}

proof fn lemma_names_in_front(text: Seq<u8>)
    ensures
        ({
            let cut = text::run_before(text, SLASH);
            let piece = text.take(cut);
            let first = if piece.len() > 0 && piece != current() {
                seq![piece]
            } else {
                seq![]
            };
            names_in(text) == if cut < text.len() {
                first + names_in(text.skip(cut + 1))
            } else {
                first
            }
        }),
{
    let cut = text::run_before(text, SLASH);
    text::lemma_run_before(text, SLASH);
    let piece = text.take(cut);
    let keep = |piece: Seq<u8>| piece.len() > 0 && piece != current();
    reveal_with_fuel(Seq::filter, 2);
    assert(seq![piece].drop_last() =~= Seq::<Seq<u8>>::empty());
    if cut < text.len() {
        Seq::filter_distributes_over_add(
            seq![piece],
            text::split_on(text.skip(cut + 1), SLASH),
            keep,
        );
    } else {
        assert(piece =~= text);
    }
}

proof fn lemma_path_of_is_path(text: Seq<u8>)
    ensures
        is_path(path_of(text)),
{
    let pieces = text::split_on(text, SLASH);
    let keep = |piece: Seq<u8>| piece.len() > 0 && piece != current();
    text::lemma_split_on_pieces(text, SLASH);
    lemma_filter_keeps(pieces, keep, |piece: Seq<u8>| !piece.contains(SLASH));
}

/// What holds of all items of a sequence holds of those that a filter keeps,
/// and so does the filter's own condition.
proof fn lemma_filter_keeps<T>(s: Seq<T>, keep: spec_fn(T) -> bool, also: spec_fn(T) -> bool)
    requires
        forall|i: int| 0 <= i < s.len() ==> also(#[trigger] s[i]),
    ensures
        forall|i: int|
            0 <= i < s.filter(keep).len() ==> keep(#[trigger] s.filter(keep)[i]) && also(
                s.filter(keep)[i],
            ),
    decreases s.len(),
{
    reveal(Seq::filter);
    if s.len() > 0 {
        let front = s.drop_last();
        assert forall|i: int| 0 <= i < front.len() implies also(#[trigger] front[i]) by {
            assert(front[i] == s[i]);
        }
        lemma_filter_keeps(front, keep, also);
        assert(also(s[s.len() - 1]));
        assert forall|i: int| 0 <= i < s.filter(keep).len() implies keep(
            #[trigger] s.filter(keep)[i],
        ) && also(s.filter(keep)[i]) by {
            if i < front.filter(keep).len() {
                assert(s.filter(keep)[i] == front.filter(keep)[i]);
            }
        }
    }
}

/// A path is read from its spelling as the path that it is.
pub proof fn law_spelling_is_read_back(parts: Seq<Seq<u8>>)
    requires
        is_path(parts),
    ensures
        path_of(spelling(parts)) == parts,
{
    let keep = |piece: Seq<u8>| piece.len() > 0 && piece != current();
    let spelled = spelling(parts);
    assert(root()[0] == SLASH && current()[0] == DOT);
    if parts.len() > 0 && parts[0] == root() {
        let names = parts.skip(1);
        lemma_spelled_names(names);
        text::lemma_split_on_cons(Seq::<u8>::empty(), text::joined(names, SLASH), SLASH);
        assert(spelled =~= Seq::<u8>::empty() + seq![SLASH] + text::joined(names, SLASH));
        let pieces = text::split_on(text::joined(names, SLASH), SLASH);
        Seq::filter_distributes_over_add(seq![Seq::<u8>::empty()], pieces, keep);
        lemma_filter_one(Seq::<u8>::empty(), keep);
        assert(names_in(spelled) =~= names);
        assert(parts =~= seq![root()] + names);
    } else if parts.len() > 0 && parts[0] == current() {
        let names = parts.skip(1);
        assert forall|i: int| 0 <= i < parts.len() implies !(#[trigger] parts[i]).contains(SLASH) by {}
        text::law_splitting_undoes_joining(parts, SLASH);
        lemma_split_on_nonempty_front(parts);
        assert(parts =~= seq![current()] + names);
        Seq::filter_distributes_over_add(seq![current()], names, keep);
        lemma_filter_one(current(), keep);
        assert forall|i: int| 0 <= i < names.len() implies is_name(#[trigger] names[i]) by {
            assert(names[i] == parts[i + 1]);
        }
        lemma_filter_all(names, keep);
        assert(path_of(spelled) =~= parts);
    } else {
        lemma_spelled_names(parts);
        if parts.len() > 0 {
            assert(is_name(parts[0]));
            text::law_splitting_undoes_joining(parts, SLASH);
            lemma_split_on_nonempty_front(parts);
        }
        assert(path_of(spelled) =~= parts);
    }
}

/// The first byte of what is joined is that of the first piece.
proof fn lemma_split_on_nonempty_front(parts: Seq<Seq<u8>>)
    requires
        parts.len() > 0,
        parts[0].len() > 0,
    ensures
        text::joined(parts, SLASH).len() > 0,
        text::joined(parts, SLASH)[0] == parts[0][0],
{
}

proof fn lemma_filter_one<T>(item: T, keep: spec_fn(T) -> bool)
    ensures
        seq![item].filter(keep) == if keep(item) {
            seq![item]
        } else {
            seq![]
        },
{
    reveal_with_fuel(Seq::filter, 2);
    assert(seq![item].drop_last() =~= Seq::<T>::empty());
}

proof fn lemma_filter_all<T>(s: Seq<T>, keep: spec_fn(T) -> bool)
    requires
        forall|i: int| 0 <= i < s.len() ==> keep(#[trigger] s[i]),
    ensures
        s.filter(keep) == s,
    decreases s.len(),
{
    reveal(Seq::filter);
    if s.len() > 0 {
        let front = s.drop_last();
        assert forall|i: int| 0 <= i < front.len() implies keep(#[trigger] front[i]) by {
            assert(front[i] == s[i]);
        }
        lemma_filter_all(front, keep);
        assert(keep(s[s.len() - 1]));
        assert(s =~= front.push(s.last()));
    }
}

/// Names are read back from their spelling.
proof fn lemma_spelled_names(names: Seq<Seq<u8>>)
    requires
        forall|i: int| 0 <= i < names.len() ==> is_name(#[trigger] names[i]),
    ensures
        names_in(text::joined(names, SLASH)) == names,
{
    let keep = |piece: Seq<u8>| piece.len() > 0 && piece != current();
    if names.len() == 0 {
        lemma_filter_one(Seq::<u8>::empty(), keep);
        assert(text::split_on(Seq::<u8>::empty(), SLASH) =~= seq![Seq::<u8>::empty()]);
        assert(text::joined(names, SLASH) =~= Seq::<u8>::empty());
        assert(names =~= Seq::<Seq<u8>>::empty());
    } else {
        text::law_splitting_undoes_joining(names, SLASH);
        lemma_filter_all(names, keep);
    }
}

/// A path lies below its parent.
pub proof fn law_parent_is_above(parts: Seq<Seq<u8>>)
    ensures
        parent_of(parts) matches Some(parent) ==> parent.is_prefix_of(parts) && parent != parts,
{
    if let Some(parent) = parent_of(parts) {
        assert(parent =~= parts.subrange(0, parent.len() as int));
    }
}

impl SysPath {
    #[verifier::type_invariant]
    spec fn well_formed(self) -> bool {
        is_path(views(self.parts@))
    }

    /// Reads a path from its spelling.
    #[must_use]
    pub fn parse(text: &[u8]) -> (path: Self)
        ensures
            path@ == path_of(text@),
            is_path(path@),
    {
        let mut parts: Vec<Vec<u8>> = Vec::new();
        let first: usize = next_slash(text, 0);
        proof {
            text::lemma_split_on_front(text@, SLASH);
            assert(text@.skip(0) =~= text@);
            text::lemma_run_before(text@, SLASH);
        }
        if text.len() > 0 && text[0] == SLASH {
            let mut slash: Vec<u8> = Vec::new();
            slash.push(SLASH);
            assert(slash@ =~= root());
            parts.push(slash);
        } else if first == 1 && text[0] == DOT {
            let mut dot: Vec<u8> = Vec::new();
            dot.push(DOT);
            assert(dot@ =~= current());
            assert(text@.take(1) =~= current());
            parts.push(dot);
        }
        assert(views(parts@) =~= anchor_of(text@)) by {
            if text::split_on(text@, SLASH)[0] == current() {
                assert(text@.take(first as int).len() == 1);
                assert(text@.take(first as int)[0] == text@[0]);
            }
        }
        let mut start: usize = 0;
        loop
            invariant_except_break
                start <= text@.len(),
                views(parts@) + names_in(text@.skip(start as int)) == path_of(text@),
            ensures
                views(parts@) == path_of(text@),
            decreases text@.len() - start,
        {
            let end = next_slash(text, start);
            let ghost before = views(parts@);
            let ghost rest = text@.skip(start as int);
            let ghost piece = rest.take(end - start);
            proof {
                lemma_names_in_front(rest);
                text::lemma_run_before(rest, SLASH);
            }
            if end > start && !(end - start == 1 && text[start] == DOT) {
                let part = slice_to_vec(slice_subrange(text, start, end));
                assert(part@ =~= piece);
                assert(piece != current()) by {
                    if piece == current() {
                        assert(piece[0] == text@[start as int]);
                        assert(current()[0] == DOT);
                    }
                }
                parts.push(part);
                assert(views(parts@) =~= before + seq![piece]);
            } else {
                assert(piece.len() == 1 ==> piece =~= current());
            }
            if end == text.len() {
                assert(views(parts@) =~= before + names_in(rest));
                break;
            }
            assert(rest.skip(end - start + 1) =~= text@.skip(end + 1));
            assert(views(parts@) + names_in(text@.skip(end + 1)) =~= before + names_in(rest));
            start = end + 1;
        }
        proof {
            lemma_path_of_is_path(text@);
        }
        SysPath { parts }
    }

    /// The path as a byte string.
    #[must_use]
    pub fn to_bytes(&self) -> (text: Vec<u8>)
        ensures
            text@ == spelling(self@),
    {
        let mut text: Vec<u8> = Vec::new();
        let count = self.parts.len();
        if count == 0 {
            return text;
        }
        let mut first: usize = 0;
        if is_root(&self.parts[0]) {
            text.push(SLASH);
            first = 1;
            assert(text@ =~= root());
        }
        let ghost head = text@;
        let ghost tail = self@.skip(first as int);
        assert(first == 0 ==> tail =~= self@);
        let mut i: usize = first;
        while i < count
            invariant
                first <= i <= count == self.parts@.len(),
                self@ == views(self.parts@),
                tail == self@.skip(first as int),
                head + text::joined(tail, SLASH) == text@ + unwritten(tail, i - first),
            decreases count - i,
        {
            if i > first {
                text.push(SLASH);
            }
            let ghost before = text@;
            append(&mut text, &self.parts[i]);
            assert(text@ =~= before + tail[i - first]);
            assert(tail.skip(i - first).skip(1) =~= tail.skip(i - first + 1));
            assert(head + text::joined(tail, SLASH) =~= text@ + unwritten(tail, i - first + 1));
            i += 1;
        }
        assert(text@ + unwritten(tail, i - first) =~= text@);
        text
    }

    /// The path without its last component; `None` where there is nothing to
    /// take away, as at the root.
    #[must_use]
    pub fn parent(&self) -> (parent: Option<SysPath>)
        ensures
            match parent {
                Some(path) => parent_of(self@) == Some(path@),
                None => parent_of(self@) is None,
            },
            parent is Some <==> self@.len() > 0 && self@.last() != seq![47u8],
            parent matches Some(path) ==> path@ == self@.drop_last(),
    {
        proof {
            use_type_invariant(self);
        }
        let count = self.parts.len();
        if count == 0 || is_root(&self.parts[count - 1]) {
            return None;
        }
        let parts = copy_parts(&self.parts, count - 1);
        assert(views(parts@) =~= self@.drop_last());
        Some(SysPath { parts })
    }

    /// The path of the entry `name` of this directory.
    #[must_use]
    pub(crate) fn child(&self, name: &str) -> (path: SysPath)
        requires
            is_name(encode_utf8(name@)),
        ensures
            path@ == self@.push(encode_utf8(name@)),
    {
        proof {
            use_type_invariant(self);
        }
        let mut parts = copy_parts(&self.parts, self.parts.len());
        assert(views(parts@) =~= self@);
        parts.push(name.as_bytes_vec());
        assert(views(parts@) =~= self@.push(encode_utf8(name@)));
        SysPath { parts }
    }

    /// Whether this path is `base` or lies below it. Only whole components
    /// match.
    #[must_use]
    pub fn starts_with(&self, base: &SysPath) -> (below: bool)
        ensures
            below == base@.is_prefix_of(self@),
    {
        if base.parts.len() > self.parts.len() {
            return false;
        }
        let mut i: usize = 0;
        while i < base.parts.len()
            invariant
                self@ == views(self.parts@),
                base@ == views(base.parts@),
                i <= base@.len() <= self@.len(),
                forall|j: int| 0 <= j < i ==> base@[j] == self@[j],
            decreases base@.len() - i,
        {
            if !text::same_bytes(self.parts[i].as_slice(), base.parts[i].as_slice()) {
                assert(base@[i as int] != self@.subrange(0, base@.len() as int)[i as int]);
                return false;
            }
            assert(base@[i as int] == self@[i as int]);
            i += 1;
        }
        assert(base@ =~= self@.subrange(0, base@.len() as int));
        true
    }

    /// Whether two paths have the same components.
    #[must_use]
    pub fn same_as(&self, other: &SysPath) -> (same: bool)
        ensures
            same == (self@ == other@),
    {
        let same = self.parts.len() == other.parts.len() && self.starts_with(other);
        proof {
            if same {
                assert(self@ =~= other@);
            } else {
                assert(other@ =~= other@.subrange(0, other@.len() as int));
            }
        }
        same
    }
}

/// What is still to be written of `text::joined(parts, SLASH)` when the first `done`
/// components have been.
spec fn unwritten(parts: Seq<Seq<u8>>, done: int) -> Seq<u8> {
    if done >= parts.len() {
        seq![]
    } else if done == 0 {
        text::joined(parts, SLASH)
    } else {
        seq![SLASH] + text::joined(parts.skip(done), SLASH)
    }
}

fn is_root(part: &Vec<u8>) -> (yes: bool)
    ensures
        yes == (part@ == root()),
{
    let yes = part.len() == 1 && part[0] == SLASH;
    assert(yes ==> part@ =~= root());
    assert(root()[0] == SLASH);
    yes
}

fn append(text: &mut Vec<u8>, part: &Vec<u8>)
    ensures
        final(text)@ == old(text)@ + part@,
{
    let mut i: usize = 0;
    while i < part.len()
        invariant
            i <= part@.len(),
            text@ == old(text)@ + part@.take(i as int),
        decreases part@.len() - i,
    {
        text.push(part[i]);
        i += 1;
    }
    assert(part@.take(i as int) =~= part@);
}

/// A path grows by each component of its spelling: a name after a slash is its
/// last component, while a further slash, or a dot after a slash, adds nothing.
pub proof fn law_path_grows_by_each_component(text: Seq<u8>, name: Seq<u8>)
    requires
        name.len() > 0,
        !name.contains(47u8),
        name != seq![46u8],
    ensures
        path_of(Seq::<u8>::empty()) == Seq::<Seq<u8>>::empty(),
        path_of(seq![47u8]) == seq![seq![47u8]],
        path_of(seq![46u8]) == seq![seq![46u8]],
        path_of(name) == seq![name],
        path_of(seq![47u8] + seq![46u8]) == seq![seq![47u8]],
        path_of(seq![47u8] + name) == seq![seq![47u8], name],
        text.len() > 0 ==> path_of(text + seq![47u8]) == path_of(text),
        text.len() > 0 ==> path_of(text + seq![47u8] + seq![46u8]) == path_of(text),
        text.len() > 0 ==> path_of(text + seq![47u8] + name) == path_of(text).push(name),
{
    let empty = Seq::<u8>::empty();
    assert(root() == seq![47u8] && current() == seq![46u8]);
    assert(!empty.contains(SLASH));
    assert(!current().contains(SLASH)) by {
        assert(current()[0] == DOT);
    }
    lemma_path_of_piece(empty);
    lemma_path_of_piece(current());
    lemma_path_of_piece(name);
    assert(seq![SLASH] + empty =~= root());
    assert(seq![root()] + Seq::<Seq<u8>>::empty() =~= seq![root()]);
    assert(seq![root()] + seq![name] =~= seq![root(), name]);
    if text.len() > 0 {
        lemma_path_with_piece(text, empty);
        lemma_path_with_piece(text, current());
        lemma_path_with_piece(text, name);
        assert(text + seq![SLASH] + empty =~= text + seq![47u8]);
        assert(path_of(text) + Seq::<Seq<u8>>::empty() =~= path_of(text));
        assert(path_of(text) + seq![name] =~= path_of(text).push(name));
    }
}

proof fn lemma_path_of_piece(piece: Seq<u8>)
    requires
        !piece.contains(SLASH),
    ensures
        path_of(piece) == if piece.len() > 0 {
            seq![piece]
        } else {
            seq![]
        },
        path_of(seq![SLASH] + piece) == seq![root()] + if piece.len() > 0 && piece != current() {
            seq![piece]
        } else {
            seq![]
        },
{
    let keep = |piece: Seq<u8>| piece.len() > 0 && piece != current();
    let empty = Seq::<u8>::empty();
    text::law_splitting_goes_piece_by_piece(piece, piece, SLASH);
    text::law_splitting_goes_piece_by_piece(empty, piece, SLASH);
    lemma_filter_one(piece, keep);
    lemma_filter_one(empty, keep);
    if piece.len() > 0 {
        assert(piece.contains(piece[0]));
    }
    assert(names_in(piece) == seq![piece].filter(keep));
    assert(path_of(piece) =~= if piece.len() > 0 {
        seq![piece]
    } else {
        seq![]
    });
    let rooted = seq![SLASH] + piece;
    assert(rooted =~= empty + seq![SLASH] + piece);
    Seq::filter_distributes_over_add(seq![empty], seq![piece], keep);
    assert(rooted[0] == SLASH);
    assert(names_in(rooted) =~= seq![piece].filter(keep));
}

proof fn lemma_path_with_piece(text: Seq<u8>, piece: Seq<u8>)
    requires
        text.len() > 0,
        !piece.contains(SLASH),
    ensures
        path_of(text + seq![SLASH] + piece) == path_of(text) + if piece.len() > 0 && piece
            != current() {
            seq![piece]
        } else {
            seq![]
        },
{
    let keep = |piece: Seq<u8>| piece.len() > 0 && piece != current();
    let whole = text + seq![SLASH] + piece;
    text::law_splitting_goes_piece_by_piece(text, piece, SLASH);
    text::law_splitting_goes_piece_by_piece(piece, piece, SLASH);
    text::lemma_split_on_front(text, SLASH);
    Seq::filter_distributes_over_add(text::split_on(text, SLASH), seq![piece], keep);
    lemma_filter_one(piece, keep);
    assert(whole[0] == text[0]);
    assert(anchor_of(whole) == anchor_of(text));
    assert(path_of(whole) =~= path_of(text) + seq![piece].filter(keep));
}

/// A path is spelled component by component, with a slash before each but the
/// first, and no second slash behind the root.
pub proof fn law_spelling_grows_by_each_component(parts: Seq<Seq<u8>>, part: Seq<u8>)
    ensures
        spelling(Seq::<Seq<u8>>::empty()) == Seq::<u8>::empty(),
        spelling(seq![part]) == part,
        spelling(seq![seq![47u8], part]) == seq![47u8] + part,
        parts.len() > 0 && parts != seq![seq![47u8]] ==> spelling(parts.push(part)) == spelling(
            parts,
        ) + seq![47u8] + part,
{
    assert(root() == seq![47u8]);
    text::law_joining_goes_piece_by_piece(parts, part, SLASH);
    assert(seq![part].skip(1) =~= Seq::<Seq<u8>>::empty());
    assert(seq![root(), part].skip(1) =~= seq![part]);
    assert(spelling(seq![part]) =~= part);
    if parts.len() > 0 && parts != seq![root()] {
        let all = parts.push(part);
        if parts[0] == root() {
            let names = parts.skip(1);
            if names.len() == 0 {
                assert(parts =~= seq![root()]);
            }
            text::law_joining_goes_piece_by_piece(names, part, SLASH);
            assert(all.skip(1) =~= names.push(part));
            assert(spelling(all) =~= spelling(parts) + seq![47u8] + part);
        }
    }
}

/// The parent of a path is the path without its last component; the root and the
/// empty path have none.
pub proof fn law_parent_lacks_the_last_component(parts: Seq<Seq<u8>>, part: Seq<u8>)
    ensures
        parent_of(Seq::<Seq<u8>>::empty()) is None,
        part == seq![47u8] ==> parent_of(parts.push(part)) is None,
        part != seq![47u8] ==> parent_of(parts.push(part)) == Some(parts),
{
    assert(parts.push(part).drop_last() =~= parts);
}

/// What the components of a path are.
pub proof fn law_components(parts: Seq<Seq<u8>>)
    ensures
        is_path(parts) <==> forall|i: int|
            0 <= i < parts.len() ==> {
                let part = #[trigger] parts[i];
                ||| part.len() > 0 && part != seq![46u8] && !part.contains(47u8)
                ||| i == 0 && (part == seq![47u8] || part == seq![46u8])
            },
{
    assert(root() == seq![47u8] && current() == seq![46u8]);
    if is_path(parts) {
        assert forall|i: int| 0 <= i < parts.len() implies {
            let part = #[trigger] parts[i];
            ||| part.len() > 0 && part != seq![46u8] && !part.contains(47u8)
            ||| i == 0 && (part == seq![47u8] || part == seq![46u8])
        } by {
            assert(is_name(parts[i]) || i == 0);
        }
    }
}

} // verus!
