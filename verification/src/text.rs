//! Text as sequences of characters and of bytes: splitting, trimming and
//! searching.

use vstd::prelude::*;
use vstd::utf8::*;

verus! {

/// The number of leading items of `s` before the first `sep`; all of `s` where
/// there is none.
pub open spec fn run_before<T>(s: Seq<T>, sep: T) -> int
    decreases s.len(),
{
    if s.len() == 0 || s[0] == sep {
        0
    } else {
        1 + run_before(s.skip(1), sep)
    }
}

/// The pieces of `s` between occurrences of `sep`. There is always one more
/// piece than there are separators.
pub open spec fn split_on<T>(s: Seq<T>, sep: T) -> Seq<Seq<T>>
    decreases s.len(),
    via split_on_decreases::<T>
{
    let cut = run_before(s, sep);
    if cut >= s.len() {
        seq![s]
    } else {
        seq![s.take(cut)] + split_on(s.skip(cut + 1), sep)
    }
}

#[via_fn]
proof fn split_on_decreases<T>(s: Seq<T>, sep: T) {
    lemma_run_before(s, sep);
}

/// What `run_before` counts.
pub proof fn lemma_run_before<T>(s: Seq<T>, sep: T)
    ensures
        0 <= run_before(s, sep) <= s.len(),
        forall|i: int| 0 <= i < run_before(s, sep) ==> s[i] != sep,
        run_before(s, sep) < s.len() ==> s[run_before(s, sep)] == sep,
    decreases s.len(),
{
    if s.len() > 0 && s[0] != sep {
        let rest = s.skip(1);
        lemma_run_before(rest, sep);
        assert forall|i: int| 0 <= i < run_before(s, sep) implies s[i] != sep by {
            if i > 0 {
                assert(rest[i - 1] == s[i]);
            }
        }
    }
}

/// The first piece of a split is what stands before the first separator.
pub proof fn lemma_split_on_front<T>(s: Seq<T>, sep: T)
    ensures
        split_on(s, sep).len() > 0,
        split_on(s, sep)[0] == s.take(run_before(s, sep)),
{
    lemma_run_before(s, sep);
    if run_before(s, sep) >= s.len() {
        assert(s.take(run_before(s, sep)) =~= s);
    }
}

/// No piece of a split holds the separator.
pub proof fn lemma_split_on_pieces<T>(s: Seq<T>, sep: T)
    ensures
        forall|k: int|
            0 <= k < split_on(s, sep).len() ==> !(#[trigger] split_on(s, sep)[k]).contains(sep),
    decreases s.len(),
{
    let cut = run_before(s, sep);
    lemma_run_before(s, sep);
    if cut < s.len() {
        let rest = s.skip(cut + 1);
        lemma_split_on_pieces(rest, sep);
        assert forall|k: int| 0 <= k < split_on(s, sep).len() implies !(#[trigger] split_on(
            s,
            sep,
        )[k]).contains(sep) by {
            if k > 0 {
                assert(split_on(s, sep)[k] == split_on(rest, sep)[k - 1]);
            }
        }
    }
}

/// A piece without the separator is split off from what follows it.
pub proof fn lemma_split_on_cons<T>(piece: Seq<T>, rest: Seq<T>, sep: T)
    requires
        !piece.contains(sep),
    ensures
        split_on(piece, sep) == seq![piece],
        split_on(piece + seq![sep] + rest, sep) == seq![piece] + split_on(rest, sep),
{
    lemma_run_before(piece, sep);
    let s = piece + seq![sep] + rest;
    let cut = run_before(s, sep);
    lemma_run_before(s, sep);
    assert(s[piece.len() as int] == sep);
    if cut < piece.len() {
        assert(piece[cut] == s[cut]);
    }
    assert(s.take(cut) =~= piece);
    assert(s.skip(cut + 1) =~= rest);
}

/// The pieces with `sep` between each two of them.
pub open spec fn joined<T>(pieces: Seq<Seq<T>>, sep: T) -> Seq<T>
    decreases pieces.len(),
{
    if pieces.len() == 0 {
        seq![]
    } else if pieces.len() == 1 {
        pieces[0]
    } else {
        pieces[0] + seq![sep] + joined(pieces.skip(1), sep)
    }
}

/// Joining the pieces of a split gives back what was split.
pub proof fn law_joining_undoes_splitting<T>(s: Seq<T>, sep: T)
    ensures
        joined(split_on(s, sep), sep) == s,
    decreases s.len(),
{
    let cut = run_before(s, sep);
    lemma_run_before(s, sep);
    if cut < s.len() {
        let rest = s.skip(cut + 1);
        law_joining_undoes_splitting(rest, sep);
        lemma_split_on_front(rest, sep);
        assert(split_on(s, sep).skip(1) =~= split_on(rest, sep));
        assert(s =~= s.take(cut) + seq![sep] + rest);
    }
}

/// Splitting what was joined gives back the pieces, if there are any and none
/// holds the separator.
pub proof fn law_splitting_undoes_joining<T>(pieces: Seq<Seq<T>>, sep: T)
    requires
        pieces.len() > 0,
        forall|i: int| 0 <= i < pieces.len() ==> !(#[trigger] pieces[i]).contains(sep),
    ensures
        split_on(joined(pieces, sep), sep) == pieces,
    decreases pieces.len(),
{
    let rest = pieces.skip(1);
    lemma_split_on_cons(pieces[0], joined(rest, sep), sep);
    if pieces.len() == 1 {
        assert(pieces =~= seq![pieces[0]]);
    } else {
        assert forall|i: int| 0 <= i < rest.len() implies !(#[trigger] rest[i]).contains(sep) by {
            assert(rest[i] == pieces[i + 1]);
        }
        law_splitting_undoes_joining(rest, sep);
        assert(pieces =~= seq![pieces[0]] + rest);
    }
}

/// Whether `c` has the Unicode property White_Space.
pub open spec fn white_space(c: char) -> bool {
    ||| '\u{9}' <= c <= '\u{d}'
    ||| c == ' '
    ||| c == '\u{85}'
    ||| c == '\u{a0}'
    ||| c == '\u{1680}'
    ||| '\u{2000}' <= c <= '\u{200a}'
    ||| c == '\u{2028}'
    ||| c == '\u{2029}'
    ||| c == '\u{202f}'
    ||| c == '\u{205f}'
    ||| c == '\u{3000}'
}

/// Whether `c` has the Unicode property White_Space.
#[must_use]
pub fn is_white_space(c: char) -> (yes: bool)
    ensures
        yes == white_space(c),
{
    ('\u{9}' <= c && c <= '\u{d}') || c == ' ' || c == '\u{85}' || c == '\u{a0}' || c == '\u{1680}'
        || ('\u{2000}' <= c && c <= '\u{200a}') || c == '\u{2028}' || c == '\u{2029}' || c
        == '\u{202f}' || c == '\u{205f}' || c == '\u{3000}'
}

/// `s` without its leading white space.
pub open spec fn trim_start(s: Seq<char>) -> Seq<char>
    decreases s.len(),
{
    if s.len() > 0 && white_space(s[0]) {
        trim_start(s.skip(1))
    } else {
        s
    }
}

/// `s` without its trailing white space.
pub open spec fn trim_end(s: Seq<char>) -> Seq<char>
    decreases s.len(),
{
    if s.len() > 0 && white_space(s.last()) {
        trim_end(s.drop_last())
    } else {
        s
    }
}

/// `s` without the white space around it.
pub open spec fn trimmed(s: Seq<char>) -> Seq<char> {
    trim_end(trim_start(s))
}

/// What `trim_start` leaves is the end of the text, and has no white space at
/// its front.
proof fn lemma_trim_start(s: Seq<char>)
    ensures
        trim_start(s).len() <= s.len(),
        trim_start(s) == s.skip(s.len() - trim_start(s).len()),
        trim_start(s).len() > 0 ==> !white_space(trim_start(s)[0]),
    decreases s.len(),
{
    if s.len() > 0 && white_space(s[0]) {
        lemma_trim_start(s.skip(1));
    }
}

/// What `trim_end` leaves is the front of the text, and has no white space at
/// its end.
proof fn lemma_trim_end(s: Seq<char>)
    ensures
        trim_end(s).len() <= s.len(),
        trim_end(s) == s.take(trim_end(s).len() as int),
        trim_end(s).len() > 0 ==> !white_space(trim_end(s).last()),
    decreases s.len(),
{
    if s.len() > 0 && white_space(s.last()) {
        lemma_trim_end(s.drop_last());
    }
}

/// What trimming leaves is a part of the text without white space around it, so
/// that trimming it again changes nothing.
pub proof fn law_trimming(s: Seq<char>)
    ensures
        exists|start: int|
            0 <= start <= s.len() - trimmed(s).len() && trimmed(s) == #[trigger] s.subrange(
                start,
                start + trimmed(s).len(),
            ),
        trimmed(s).len() > 0 ==> !white_space(trimmed(s)[0]) && !white_space(trimmed(s).last()),
        trimmed(trimmed(s)) == trimmed(s),
{
    let rest = trim_start(s);
    lemma_trim_start(s);
    lemma_trim_end(rest);
    let start = s.len() - rest.len();
    assert(trimmed(s) =~= s.subrange(start, start + trimmed(s).len()));
}

/// The characters of `text` in order.
pub(crate) fn chars_of(text: &str) -> (chars: Vec<char>)
    ensures
        chars@ == text@,
{
    let mut chars: Vec<char> = Vec::new();
    for c in it: text.chars()
        invariant
            it.seq() == text@,
            chars@ == text@.take(it.index() as int),
    {
        chars.push(c);
    }
    chars
}

/// Narrows the range from `lo` to `hi` to what is left of it when the white
/// space at both ends is dropped.
pub(crate) fn trim_range(chars: &Vec<char>, lo: usize, hi: usize) -> (range: (usize, usize))
    requires
        lo <= hi <= chars@.len(),
    ensures
        lo <= range.0 <= range.1 <= hi,
        chars@.subrange(range.0 as int, range.1 as int) == trimmed(
            chars@.subrange(lo as int, hi as int),
        ),
{
    let mut start: usize = lo;
    while start < hi && is_white_space(chars[start])
        invariant
            lo <= start <= hi <= chars@.len(),
            trim_start(chars@.subrange(start as int, hi as int)) == trim_start(
                chars@.subrange(lo as int, hi as int),
            ),
        decreases hi - start,
    {
        assert(chars@.subrange(start as int, hi as int).skip(1) =~= chars@.subrange(
            start + 1,
            hi as int,
        ));
        start += 1;
    }
    let mut end: usize = hi;
    while start < end && is_white_space(chars[end - 1])
        invariant
            lo <= start <= end <= hi <= chars@.len(),
            trim_end(chars@.subrange(start as int, end as int)) == trim_end(
                chars@.subrange(start as int, hi as int),
            ),
        decreases end - start,
    {
        assert(chars@.subrange(start as int, end as int).drop_last() =~= chars@.subrange(
            start as int,
            end - 1,
        ));
        end -= 1;
    }
    (start, end)
}

/// `text` without the white space around it.
#[must_use]
pub fn trim(text: &str) -> (rest: &str)
    ensures
        rest@ == trimmed(text@),
{
    let chars = chars_of(text);
    let (start, end) = trim_range(&chars, 0, chars.len());
    assert(text@.subrange(0, text@.len() as int) =~= text@);
    text.substring_char(start, end)
}

/// The byte `b` with an ASCII capital letter made small.
pub open spec fn ascii_lower(b: u8) -> u8 {
    if 'A' as u8 <= b <= 'Z' as u8 {
        (b + 32) as u8
    } else {
        b
    }
}

/// Whether `needle` stands in `haystack` at offset `at`, up to ASCII case.
pub open spec fn matches_at(haystack: Seq<u8>, needle: Seq<u8>, at: int) -> bool {
    &&& 0 <= at <= haystack.len() - needle.len()
    &&& forall|i: int|
        0 <= i < needle.len() ==> ascii_lower(haystack[at + i]) == ascii_lower(
            #[trigger] needle[i],
        )
}

/// Whether `needle` stands somewhere in `haystack`, up to ASCII case.
pub open spec fn contains_ignoring_case(haystack: Seq<u8>, needle: Seq<u8>) -> bool {
    exists|at: int| matches_at(haystack, needle, at)
}

fn to_ascii_lower(b: u8) -> (lower: u8)
    ensures
        lower == ascii_lower(b),
{
    if 'A' as u8 <= b && b <= 'Z' as u8 {
        b + 32
    } else {
        b
    }
}

/// Compares `needle` with what stands in `haystack` from offset `at` on.
fn is_match_at(haystack: &[u8], needle: &[u8], at: usize) -> (matched: bool)
    requires
        at + needle@.len() <= haystack@.len(),
    ensures
        matched == matches_at(haystack@, needle@, at as int),
{
    let mut i: usize = 0;
    while i < needle.len()
        invariant
            at + needle@.len() <= haystack@.len() == haystack.len(),
            i <= needle@.len(),
            forall|j: int|
                0 <= j < i ==> ascii_lower(haystack@[at + j]) == ascii_lower(#[trigger] needle@[j]),
        decreases needle@.len() - i,
    {
        if to_ascii_lower(haystack[at + i]) != to_ascii_lower(needle[i]) {
            assert(needle@[i as int] == needle[i as int]);
            return false;
        }
        i += 1;
    }
    true
}

/// Searches `haystack` for `needle` without regard to the case of ASCII
/// letters. An empty `needle` is found everywhere.
#[must_use]
pub fn contains_ignore_ascii_case(haystack: &str, needle: &str) -> (found: bool)
    ensures
        found == contains_ignoring_case(encode_utf8(haystack@), encode_utf8(needle@)),
{
    let text: &[u8] = haystack.as_bytes();
    let word: &[u8] = needle.as_bytes();
    let mut at: usize = 0;
    while at <= text.len() && word.len() <= text.len() - at
        invariant
            text@ == encode_utf8(haystack@),
            word@ == encode_utf8(needle@),
            forall|k: int| 0 <= k < at ==> !matches_at(text@, word@, k),
        decreases text@.len() + 1 - at,
    {
        if is_match_at(text, word, at) {
            return true;
        }
        if at == text.len() {
            return false;
        }
        at += 1;
    }
    false
}

/// Compares two texts character by character.
#[must_use]
pub fn same_text(a: &str, b: &str) -> (same: bool)
    ensures
        same == (a@ == b@),
{
    let same = same_bytes(a.as_bytes(), b.as_bytes());
    proof {
        encode_utf8_decode_utf8(a@);
        encode_utf8_decode_utf8(b@);
    }
    same
}

/// Whether `text` begins with `prefix`.
pub(crate) fn has_prefix(text: &str, prefix: &str) -> (yes: bool)
    ensures
        yes == prefix@.is_prefix_of(text@),
{
    let text_chars = chars_of(text);
    let prefix_chars = chars_of(prefix);
    if prefix_chars.len() > text_chars.len() {
        return false;
    }
    let mut i: usize = 0;
    while i < prefix_chars.len()
        invariant
            text_chars@ == text@,
            prefix_chars@ == prefix@,
            i <= prefix@.len() <= text@.len(),
            forall|j: int| 0 <= j < i ==> prefix@[j] == text@[j],
        decreases prefix@.len() - i,
    {
        if prefix_chars[i] != text_chars[i] {
            assert(prefix@[i as int] != text@.subrange(0, prefix@.len() as int)[i as int]);
            return false;
        }
        i += 1;
    }
    assert(prefix@ =~= text@.subrange(0, prefix@.len() as int));
    true
}

/// Compares two byte strings.
pub(crate) fn same_bytes(a: &[u8], b: &[u8]) -> (same: bool)
    ensures
        same == (a@ == b@),
{
    if a.len() != b.len() {
        return false;
    }
    let mut i: usize = 0;
    while i < a.len()
        invariant
            i <= a@.len(),
            a@.len() == b@.len(),
            forall|j: int| 0 <= j < i ==> a@[j] == b@[j],
        decreases a@.len() - i,
    {
        if a[i] != b[i] {
            return false;
        }
        i += 1;
    }
    assert(a@ =~= b@);
    true
}

/// Splitting goes piece by piece: a text without the separator is one piece, and
/// the pieces of two texts with a separator between them are those of the one
/// and then those of the other.
pub proof fn law_splitting_goes_piece_by_piece<T>(s: Seq<T>, t: Seq<T>, sep: T)
    ensures
        !s.contains(sep) ==> split_on(s, sep) == seq![s],
        split_on(s + seq![sep] + t, sep) == split_on(s, sep) + split_on(t, sep),
    decreases s.len(),
{
    let cut = run_before(s, sep);
    lemma_run_before(s, sep);
    if cut >= s.len() {
        assert(!s.contains(sep));
        lemma_split_on_cons(s, t, sep);
    } else {
        let front = s.take(cut);
        let rest = s.skip(cut + 1);
        law_splitting_goes_piece_by_piece(rest, t, sep);
        assert(s[cut] == sep);
        assert(!front.contains(sep)) by {
            assert forall|i: int| 0 <= i < front.len() implies front[i] != sep by {
                assert(front[i] == s[i]);
            }
        }
        lemma_split_on_cons(front, rest, sep);
        lemma_split_on_cons(front, rest + seq![sep] + t, sep);
        assert(s =~= front + seq![sep] + rest);
        assert(s + seq![sep] + t =~= front + seq![sep] + (rest + seq![sep] + t));
        assert(split_on(s, sep) + split_on(t, sep) =~= seq![front] + (split_on(rest, sep)
            + split_on(t, sep)));
    }
}

/// Joining puts the separator between the pieces and nowhere else.
pub proof fn law_joining_goes_piece_by_piece<T>(pieces: Seq<Seq<T>>, piece: Seq<T>, sep: T)
    ensures
        joined(Seq::<Seq<T>>::empty(), sep) == Seq::<T>::empty(),
        joined(seq![piece], sep) == piece,
        pieces.len() > 0 ==> joined(pieces.push(piece), sep) == joined(pieces, sep) + seq![sep]
            + piece,
    decreases pieces.len(),
{
    let all = pieces.push(piece);
    if pieces.len() == 1 {
        assert(all.skip(1) =~= seq![piece]);
        assert(joined(all.skip(1), sep) == piece);
    } else if pieces.len() > 1 {
        let rest = pieces.skip(1);
        law_joining_goes_piece_by_piece(rest, piece, sep);
        assert(all.skip(1) =~= rest.push(piece));
        assert(joined(all, sep) =~= joined(pieces, sep) + seq![sep] + piece);
    }
}

/// The code points with the Unicode property White_Space.
pub proof fn law_white_space(c: char)
    ensures
        white_space(c) <==> {
            let code = c as u32;
            ||| 9 <= code <= 13
            ||| code == 32
            ||| code == 133
            ||| code == 160
            ||| code == 5760
            ||| 8192 <= code <= 8202
            ||| 8232 <= code <= 8233
            ||| code == 8239
            ||| code == 8287
            ||| code == 12288
        },
{
}

/// Trimming takes away the white space at both ends, all of it and nothing
/// else: a part of the text that has only white space before and after it, and
/// none at its own ends, is what trimming leaves.
pub proof fn law_trimming_takes_only_white_space(s: Seq<char>, start: int, end: int)
    requires
        0 <= start <= end <= s.len(),
        forall|i: int| 0 <= i < start ==> white_space(#[trigger] s[i]),
        forall|i: int| end <= i < s.len() ==> white_space(#[trigger] s[i]),
        start < end ==> !white_space(s[start]) && !white_space(s[end - 1]),
    ensures
        trimmed(s) == s.subrange(start, end),
{
    lemma_trim_start_is(s, if start < end { start } else { s.len() as int });
    let rest = trim_start(s);
    if start < end {
        assert(rest =~= s.skip(start));
        lemma_trim_end_is(rest, end - start);
        assert(rest.take(end - start) =~= s.subrange(start, end));
    } else {
        assert(rest.len() == 0);
        assert(s.subrange(start, end) =~= Seq::empty());
        assert(trimmed(s) =~= Seq::empty());
    }
}

proof fn lemma_trim_start_is(s: Seq<char>, start: int)
    requires
        0 <= start <= s.len(),
        forall|i: int| 0 <= i < start ==> white_space(#[trigger] s[i]),
        start < s.len() ==> !white_space(s[start]),
    ensures
        trim_start(s) == s.skip(start),
    decreases s.len(),
{
    if start > 0 {
        let rest = s.skip(1);
        assert(white_space(s[0]));
        assert forall|i: int| 0 <= i < start - 1 implies white_space(#[trigger] rest[i]) by {
            assert(rest[i] == s[i + 1]);
        }
        lemma_trim_start_is(rest, start - 1);
        assert(rest.skip(start - 1) =~= s.skip(start));
    } else {
        assert(s.skip(0) =~= s);
    }
}

proof fn lemma_trim_end_is(s: Seq<char>, end: int)
    requires
        0 <= end <= s.len(),
        forall|i: int| end <= i < s.len() ==> white_space(#[trigger] s[i]),
        end > 0 ==> !white_space(s[end - 1]),
    ensures
        trim_end(s) == s.take(end),
    decreases s.len(),
{
    if end < s.len() {
        let front = s.drop_last();
        assert(white_space(s[s.len() - 1]));
        assert forall|i: int| end <= i < front.len() implies white_space(#[trigger] front[i]) by {
            assert(front[i] == s[i]);
        }
        lemma_trim_end_is(front, end);
        assert(front.take(end) =~= s.take(end));
    } else {
        assert(s.take(end) =~= s);
    }
}

/// Two bytes are taken for the same letter exactly if they are the same byte, or
/// one is an ASCII capital letter and the other the small one.
pub proof fn law_letters(a: u8, b: u8)
    ensures
        ascii_lower(a) == ascii_lower(b) <==> {
            ||| a == b
            ||| 65 <= a <= 90 && b == a + 32
            ||| 65 <= b <= 90 && a == b + 32
        },
{
}

/// A word that stands in a text, up to the case of ASCII letters, is found.
pub proof fn law_word_that_is_there_is_found(haystack: Seq<u8>, needle: Seq<u8>, at: int)
    requires
        0 <= at,
        at + needle.len() <= haystack.len(),
        forall|i: int|
            0 <= i < needle.len() ==> {
                let found = haystack[at + i];
                let wanted = #[trigger] needle[i];
                ||| found == wanted
                ||| 65 <= found <= 90 && wanted == found + 32
                ||| 65 <= wanted <= 90 && found == wanted + 32
            },
    ensures
        contains_ignoring_case(haystack, needle),
{
    assert(matches_at(haystack, needle, at));
}

/// A word that is found stands in the text, up to the case of ASCII letters.
pub proof fn law_word_that_is_found_is_there(haystack: Seq<u8>, needle: Seq<u8>) -> (at: int)
    requires
        contains_ignoring_case(haystack, needle),
    ensures
        0 <= at,
        at + needle.len() <= haystack.len(),
        forall|i: int|
            0 <= i < needle.len() ==> {
                let found = haystack[at + i];
                let wanted = #[trigger] needle[i];
                ||| found == wanted
                ||| 65 <= found <= 90 && wanted == found + 32
                ||| 65 <= wanted <= 90 && found == wanted + 32
            },
{
    let at = choose|at: int| matches_at(haystack, needle, at);
    assert(matches_at(haystack, needle, at));
    assert forall|i: int| 0 <= i < needle.len() implies {
        let found = haystack[at + i];
        let wanted = #[trigger] needle[i];
        ||| found == wanted
        ||| 65 <= found <= 90 && wanted == found + 32
        ||| 65 <= wanted <= 90 && found == wanted + 32
    } by {
        law_letters(haystack[at + i], needle[i]);
    }
    at
}

} // verus!
