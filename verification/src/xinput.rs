//! Finding the touchpad among the devices that `xinput` lists, and the command
//! that toggles it.

use vstd::prelude::*;
use vstd::utf8::*;
use crate::text;
use crate::word;

verus! {

/// The `xinput` subcommand for toggling a device's enabled state.
#[inline]
#[must_use]
pub fn xinput_action(enabled: bool) -> (action: &'static str)
    ensures
        action@ == if enabled { "enable"@ } else { "disable"@ },
{
    if enabled {
        "enable"
    } else {
        "disable"
    }
}

/// The arguments with which `xinput` sets the touchpad to enabled or disabled.
#[must_use]
pub fn toggle_arguments(touchpad_name: &str, enabled: bool) -> (arguments: Vec<String>)
    ensures
        arguments@.len() == 2,
        arguments@[0]@ == if enabled { "enable"@ } else { "disable"@ },
        arguments@[1]@ == touchpad_name@,
{
    let mut arguments: Vec<String> = Vec::new();
    arguments.push(xinput_action(enabled).to_owned());
    arguments.push(touchpad_name.to_owned());
    arguments
}

/// Whether a device name has the word "touchpad" in it, in whatever case.
pub open spec fn names_touchpad(name: Seq<char>) -> bool {
    word::has_word(name, "touchpad"@)
}

/// A name is that of a touchpad exactly if the letters t, o, u, c, h, p, a and d
/// stand in it one after the other, each of them small or capital.
pub proof fn law_letters_of_a_touchpad(name: Seq<char>)
    ensures
        names_touchpad(name) <==> exists|at: int| {
            &&& 0 <= at
            &&& at + 8 <= name.len()
            &&& (#[trigger] name[at]) == 't' || name[at] == 'T'
            &&& name[at + 1] == 'o' || name[at + 1] == 'O'
            &&& name[at + 2] == 'u' || name[at + 2] == 'U'
            &&& name[at + 3] == 'c' || name[at + 3] == 'C'
            &&& name[at + 4] == 'h' || name[at + 4] == 'H'
            &&& name[at + 5] == 'p' || name[at + 5] == 'P'
            &&& name[at + 6] == 'a' || name[at + 6] == 'A'
            &&& name[at + 7] == 'd' || name[at + 7] == 'D'
        },
{
    let word = "touchpad"@;
    reveal_strlit("touchpad");
    if names_touchpad(name) {
        let at = choose|at: int| word::word_at(name, word, at);
        assert forall|i: int| 0 <= i < 8 implies word::lower_code(name[at + i]) == word::lower_code(
            #[trigger] word[i],
        ) by {}
        lemma_letter(name[at], word[0]);
        lemma_letter(name[at + 1], word[1]);
        lemma_letter(name[at + 2], word[2]);
        lemma_letter(name[at + 3], word[3]);
        lemma_letter(name[at + 4], word[4]);
        lemma_letter(name[at + 5], word[5]);
        lemma_letter(name[at + 6], word[6]);
        lemma_letter(name[at + 7], word[7]);
        assert(word::lower_code(name[at + 0]) == word::lower_code(word[0]));
    }
    if exists|at: int| {
        &&& 0 <= at
        &&& at + 8 <= name.len()
        &&& (#[trigger] name[at]) == 't' || name[at] == 'T'
        &&& name[at + 1] == 'o' || name[at + 1] == 'O'
        &&& name[at + 2] == 'u' || name[at + 2] == 'U'
        &&& name[at + 3] == 'c' || name[at + 3] == 'C'
        &&& name[at + 4] == 'h' || name[at + 4] == 'H'
        &&& name[at + 5] == 'p' || name[at + 5] == 'P'
        &&& name[at + 6] == 'a' || name[at + 6] == 'A'
        &&& name[at + 7] == 'd' || name[at + 7] == 'D'
    } {
        let at = choose|at: int| {
            &&& 0 <= at
            &&& at + 8 <= name.len()
            &&& (#[trigger] name[at]) == 't' || name[at] == 'T'
            &&& name[at + 1] == 'o' || name[at + 1] == 'O'
            &&& name[at + 2] == 'u' || name[at + 2] == 'U'
            &&& name[at + 3] == 'c' || name[at + 3] == 'C'
            &&& name[at + 4] == 'h' || name[at + 4] == 'H'
            &&& name[at + 5] == 'p' || name[at + 5] == 'P'
            &&& name[at + 6] == 'a' || name[at + 6] == 'A'
            &&& name[at + 7] == 'd' || name[at + 7] == 'D'
        };
        lemma_letter(name[at], word[0]);
        lemma_letter(name[at + 1], word[1]);
        lemma_letter(name[at + 2], word[2]);
        lemma_letter(name[at + 3], word[3]);
        lemma_letter(name[at + 4], word[4]);
        lemma_letter(name[at + 5], word[5]);
        lemma_letter(name[at + 6], word[6]);
        lemma_letter(name[at + 7], word[7]);
        assert forall|i: int| 0 <= i < word.len() implies word::lower_code(name[at + i])
            == word::lower_code(#[trigger] word[i]) by {
            assert(i == 0 || i == 1 || i == 2 || i == 3 || i == 4 || i == 5 || i == 6 || i == 7);
        }
        assert(word::word_at(name, word, at));
    }
}

/// A character is a given small letter up to case if it is that letter or the
/// capital one.
proof fn lemma_letter(c: char, small: char)
    requires
        'a' <= small <= 'z',
    ensures
        word::lower_code(c) == word::lower_code(small) <==> c == small || c as int == small as int
            - 32,
{
}

/// The first of `lines` that names a touchpad, without the white space around
/// it.
pub open spec fn first_touchpad(lines: Seq<Seq<char>>) -> Option<Seq<char>>
    decreases lines.len(),
{
    if lines.len() == 0 {
        None
    } else if names_touchpad(text::trimmed(lines[0])) {
        Some(text::trimmed(lines[0]))
    } else {
        first_touchpad(lines.skip(1))
    }
}

/// Parses `xinput list --name-only` output and returns the first device name
/// that contains "touchpad" (case-insensitive), without the white space around
/// it. A carriage return at the end of a line is such white space.
#[must_use]
pub fn find_touchpad_name(xinput_list_output: &str) -> (name: Option<String>)
    ensures
        match name {
            Some(name) => first_touchpad(text::split_on(xinput_list_output@, '\n')) == Some(name@),
            None => first_touchpad(text::split_on(xinput_list_output@, '\n')) is None,
        },
        name is Some ==> exists|at: int| {
            &&& 0 <= at
            &&& at + 8 <= name->0@.len()
            &&& (#[trigger] name->0@[at]) == 't' || name->0@[at] == 'T'
            &&& name->0@[at + 1] == 'o' || name->0@[at + 1] == 'O'
            &&& name->0@[at + 2] == 'u' || name->0@[at + 2] == 'U'
            &&& name->0@[at + 3] == 'c' || name->0@[at + 3] == 'C'
            &&& name->0@[at + 4] == 'h' || name->0@[at + 4] == 'H'
            &&& name->0@[at + 5] == 'p' || name->0@[at + 5] == 'P'
            &&& name->0@[at + 6] == 'a' || name->0@[at + 6] == 'A'
            &&& name->0@[at + 7] == 'd' || name->0@[at + 7] == 'D'
        },
{
    let chars = text::chars_of(xinput_list_output);
    let mut start: usize = 0;
    assert(chars@.skip(0) =~= chars@);
    loop
        invariant
            chars@ == xinput_list_output@,
            start <= chars@.len(),
            first_touchpad(text::split_on(chars@.skip(start as int), '\n')) == first_touchpad(
                text::split_on(xinput_list_output@, '\n'),
            ),
        decreases chars@.len() - start,
    {
        let end = line_end(&chars, start);
        let (from, to) = text::trim_range(&chars, start, end);
        let name = xinput_list_output.substring_char(from, to);
        let ghost rest = chars@.skip(start as int);
        let ghost lines = text::split_on(rest, '\n');
        proof {
            text::lemma_split_on_front(rest, '\n');
            assert(rest.take(end - start) =~= chars@.subrange(start as int, end as int));
            reveal_strlit("touchpad");
            word::law_words_are_found_in_bytes(name@, "touchpad"@);
        }
        if text::contains_ignore_ascii_case(name, "touchpad") {
            let found = Some(name.to_owned());
            proof {
                law_letters_of_a_touchpad(found->0@);
            }
            return found;
        }
        if end == chars.len() {
            assert(first_touchpad(lines.skip(1)) is None);
            return None;
        }
        proof {
            assert(rest.skip(end - start + 1) =~= chars@.skip(end + 1));
            assert(lines.skip(1) =~= text::split_on(chars@.skip(end + 1), '\n'));
        }
        start = end + 1;
    }
}

/// The offset of the first line feed from `start` on; the length where there is
/// none.
fn line_end(chars: &Vec<char>, start: usize) -> (end: usize)
    requires
        start <= chars@.len(),
    ensures
        start <= end <= chars@.len(),
        end == start + text::run_before(chars@.skip(start as int), '\n'),
{
    let mut end: usize = start;
    while end < chars.len() && chars[end] != '\n'
        invariant
            start <= end <= chars@.len(),
            text::run_before(chars@.skip(start as int), '\n') == end - start + text::run_before(
                chars@.skip(end as int),
                '\n',
            ),
        decreases chars@.len() - end,
    {
        assert(chars@.skip(end as int).skip(1) =~= chars@.skip(end + 1));
        end += 1;
    }
    end
}

/// What a command that ran to its end has left.
#[derive(Debug)]
pub struct CommandOutput {
    /// Whether the command reported success.
    pub success: bool,
    /// What it wrote to its standard output.
    pub stdout: Vec<u8>,
}

/// The text that `String::from_utf8_lossy` makes of `bytes`.
pub uninterp spec fn lossy_text(bytes: Seq<u8>) -> Seq<char>;

/// Calls `String::from_utf8_lossy`. What it returns depends on `bytes` alone; of
/// bytes that are valid UTF-8 it is the text that they encode. How it replaces
/// other bytes is left unsaid.
#[verifier::external_body]
fn from_utf8_lossy(bytes: &[u8]) -> (decoded: String)
    ensures
        decoded@ == lossy_text(bytes@),
        valid_utf8(bytes@) ==> decoded@ == decode_utf8(bytes@),
{
    String::from_utf8_lossy(bytes).into_owned()
}

/// The text that a command has written.
pub open spec fn output_text(bytes: Seq<u8>) -> Seq<char> {
    if valid_utf8(bytes) {
        decode_utf8(bytes)
    } else {
        lossy_text(bytes)
    }
}

/// Detects the touchpad in what `xinput list --name-only` has left; `listing` is
/// `None` where the command could not be run. A listing that failed names no
/// touchpad.
#[must_use]
pub fn autodetect_touchpad_name(listing: Option<&CommandOutput>) -> (name: Option<String>)
    ensures
        ({
            let found = if listing is Some && listing->0.success {
                first_touchpad(text::split_on(output_text(listing->0.stdout@), '\n'))
            } else {
                None
            };
            match name {
                Some(name) => found == Some(name@),
                None => found is None,
            }
        }),
{
    match listing {
        Some(output) if output.success => {
            let decoded = from_utf8_lossy(output.stdout.as_slice());
            find_touchpad_name(decoded.as_str())
        },
        _ => None,
    }
}

/// A command's output that is valid UTF-8 is the text that it encodes.
pub proof fn law_valid_output_is_decoded(bytes: Seq<u8>)
    ensures
        valid_utf8(bytes) ==> output_text(bytes) == decode_utf8(bytes),
        !valid_utf8(bytes) ==> output_text(bytes) == lossy_text(bytes),
{
}

} // verus!
