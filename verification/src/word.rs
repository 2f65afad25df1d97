//! Looking for an ASCII word in a text: the same in characters and in the bytes
//! that encode them.

use vstd::prelude::*;
use vstd::utf8::*;
use crate::text;

verus! {

/// The code of the character `c`, with an ASCII capital letter made small.
pub open spec fn lower_code(c: char) -> int {
    if 'A' <= c <= 'Z' {
        c as int + 32
    } else {
        c as int
    }
}

/// Whether the characters `word` stand in `text` at offset `at`, up to ASCII
/// case.
pub open spec fn word_at(text: Seq<char>, word: Seq<char>, at: int) -> bool {
    &&& 0 <= at <= text.len() - word.len()
    &&& forall|i: int|
        0 <= i < word.len() ==> lower_code(text[at + i]) == lower_code(#[trigger] word[i])
}

/// Whether the characters `word` stand somewhere in `text`, up to ASCII case.
pub open spec fn has_word(text: Seq<char>, word: Seq<char>) -> bool {
    exists|at: int| word_at(text, word, at)
}

/// How a character is encoded: an ASCII one as one byte of the same value,
/// another one as bytes that are no ASCII characters.
proof fn lemma_encode_scalar(c: char)
    ensures
        ({
            let bytes = encode_scalar(c as u32);
            &&& bytes.len() > 0
            &&& c as u32 as int == c as int
            &&& c as u32 <= 0x7f ==> c as u8 as int == c as int
            &&& c as u32 <= 0x7f ==> bytes == seq![c as u8]
            &&& c as u32 > 0x7f ==> forall|i: int|
                0 <= i < bytes.len() ==> #[trigger] bytes[i] >= 0x80
        }),
{
    let v = c as u32;
    char_is_scalar(c);
    assert(v <= 0x7f ==> (v & 0x7f) as u8 == v as u8) by (bit_vector);
    assert(0xc0u8 | ((v >> 6) & 0x1f) as u8 >= 0x80) by (bit_vector);
    assert(0xe0u8 | ((v >> 12) & 0x0f) as u8 >= 0x80) by (bit_vector);
    assert(0xf0u8 | ((v >> 18) & 0x7) as u8 >= 0x80) by (bit_vector);
    assert(0x80u8 | (v & 0x3f) as u8 >= 0x80) by (bit_vector);
    assert(0x80u8 | ((v >> 6) & 0x3f) as u8 >= 0x80) by (bit_vector);
    assert(0x80u8 | ((v >> 12) & 0x3f) as u8 >= 0x80) by (bit_vector);
}

/// A match with something before it is a match in what follows.
proof fn lemma_matches_later(front: Seq<u8>, bytes: Seq<u8>, word: Seq<u8>, at: int)
    requires
        at >= 0,
    ensures
        text::matches_at(front + bytes, word, front.len() + at) <==> text::matches_at(
            bytes,
            word,
            at,
        ),
{
    let whole = front + bytes;
    let from = front.len() + at;
    if text::matches_at(whole, word, from) {
        assert forall|i: int| 0 <= i < word.len() implies text::ascii_lower(bytes[at + i])
            == text::ascii_lower(#[trigger] word[i]) by {
            assert(whole[from + i] == bytes[at + i]);
        }
    }
    if text::matches_at(bytes, word, at) {
        assert forall|i: int| 0 <= i < word.len() implies text::ascii_lower(whole[from + i])
            == text::ascii_lower(#[trigger] word[i]) by {
            assert(whole[from + i] == bytes[at + i]);
        }
    }
}

/// At the front of a text an ASCII word is the same in characters and in bytes.
proof fn lemma_word_in_front(chars: Seq<char>, word: Seq<char>)
    requires
        is_ascii_chars(word),
    ensures
        word_at(chars, word, 0) <==> text::matches_at(encode_utf8(chars), encode_utf8(word), 0),
    decreases word.len(),
{
    let bytes = encode_utf8(chars);
    let wanted = encode_utf8(word);
    is_ascii_chars_encode_utf8(word);
    if word.len() > 0 && chars.len() > 0 {
        let c = chars[0];
        let rest = chars.drop_first();
        let word_rest = word.drop_first();
        lemma_encode_scalar(c);
        lemma_encode_scalar(word[0]);
        lemma_word_in_front(rest, word_rest);
        is_ascii_chars_encode_utf8(word_rest);
        assert(wanted =~= seq![word[0] as u8] + encode_utf8(word_rest));
        assert(bytes[0] == encode_scalar(c as u32)[0]);
        if c as u32 <= 0x7f {
            assert(bytes =~= seq![c as u8] + encode_utf8(rest));
            if word_at(chars, word, 0) {
                assert forall|i: int| 0 <= i < word_rest.len() implies lower_code(rest[i])
                    == lower_code(#[trigger] word_rest[i]) by {
                    assert(word[i + 1] == word_rest[i]);
                    assert(lower_code(chars[i + 1]) == lower_code(word[i + 1]));
                }
                assert(word_at(rest, word_rest, 0));
                assert(lower_code(chars[0]) == lower_code(word[0]));
                assert forall|i: int| 0 <= i < wanted.len() implies text::ascii_lower(bytes[i])
                    == text::ascii_lower(#[trigger] wanted[i]) by {
                    if i > 0 {
                        assert(encode_utf8(word_rest)[i - 1] == wanted[i]);
                        assert(encode_utf8(rest)[i - 1] == bytes[i]);
                    }
                }
            }
            if text::matches_at(bytes, wanted, 0) {
                let more = encode_utf8(word_rest);
                assert forall|i: int| 0 <= i < more.len() implies text::ascii_lower(
                    encode_utf8(rest)[i],
                ) == text::ascii_lower(#[trigger] more[i]) by {
                    assert(wanted[i + 1] == more[i]);
                    assert(text::ascii_lower(bytes[i + 1]) == text::ascii_lower(
                        wanted[i + 1],
                    ));
                }
                assert(text::matches_at(encode_utf8(rest), more, 0));
                assert(text::ascii_lower(bytes[0]) == text::ascii_lower(wanted[0]));
                assert forall|i: int| 0 <= i < word.len() implies lower_code(chars[i])
                    == lower_code(#[trigger] word[i]) by {
                    if i > 0 {
                        assert(word_at(rest, word_rest, 0));
                        assert(word_rest[i - 1] == word[i]);
                        assert(rest[i - 1] == chars[i]);
                    } else {
                        assert(word[0] as u32 <= 0x7f);
                        assert(bytes[0] == c as u8 && wanted[0] == word[0] as u8);
                    }
                }
            }
        } else {
            assert(lower_code(chars[0]) != lower_code(word[0]));
            assert(text::ascii_lower(bytes[0]) != text::ascii_lower(wanted[0]));
        }
    }
}

/// An ASCII word that stands in a text in characters stands in its bytes.
proof fn lemma_word_to_bytes(chars: Seq<char>, word: Seq<char>, at: int)
    requires
        is_ascii_chars(word),
        word_at(chars, word, at),
    ensures
        text::contains_ignoring_case(encode_utf8(chars), encode_utf8(word)),
    decreases at,
{
    if at == 0 {
        lemma_word_in_front(chars, word);
    } else {
        let rest = chars.drop_first();
        let front = encode_scalar(chars[0] as u32);
        assert forall|i: int| 0 <= i < word.len() implies lower_code(rest[at - 1 + i])
            == lower_code(#[trigger] word[i]) by {
            assert(rest[at - 1 + i] == chars[at + i]);
        }
        assert(word_at(rest, word, at - 1));
        lemma_word_to_bytes(rest, word, at - 1);
        let k = choose|k: int| text::matches_at(encode_utf8(rest), encode_utf8(word), k);
        lemma_matches_later(front, encode_utf8(rest), encode_utf8(word), k);
        assert(text::matches_at(encode_utf8(chars), encode_utf8(word), front.len() + k));
    }
}

/// An ASCII word that stands in the bytes of a text stands in it in characters.
proof fn lemma_word_from_bytes(chars: Seq<char>, word: Seq<char>, at: int)
    requires
        is_ascii_chars(word),
        text::matches_at(encode_utf8(chars), encode_utf8(word), at),
    ensures
        has_word(chars, word),
    decreases chars.len(),
{
    let bytes = encode_utf8(chars);
    let wanted = encode_utf8(word);
    is_ascii_chars_encode_utf8(word);
    if word.len() == 0 {
        assert(word_at(chars, word, 0));
    } else if at == 0 {
        lemma_word_in_front(chars, word);
        assert(word_at(chars, word, 0));
    } else {
        let rest = chars.drop_first();
        let front = encode_scalar(chars[0] as u32);
        lemma_encode_scalar(chars[0]);
        assert(text::ascii_lower(bytes[at]) == text::ascii_lower(wanted[0]));
        assert(wanted[0] == word[0] as u8);
        if at < front.len() {
            assert(bytes[at] == front[at]);
            assert(false);
        }
        lemma_matches_later(front, encode_utf8(rest), wanted, at - front.len());
        lemma_word_from_bytes(rest, word, at - front.len());
        let k = choose|k: int| word_at(rest, word, k);
        assert forall|i: int| 0 <= i < word.len() implies lower_code(chars[k + 1 + i])
            == lower_code(#[trigger] word[i]) by {
            assert(rest[k + i] == chars[k + 1 + i]);
        }
        assert(word_at(chars, word, k + 1));
    }
}

/// An ASCII word stands in a text in characters exactly when it stands in the
/// bytes that encode the text.
pub proof fn law_words_are_found_in_bytes(chars: Seq<char>, word: Seq<char>)
    requires
        is_ascii_chars(word),
    ensures
        text::contains_ignoring_case(encode_utf8(chars), encode_utf8(word)) <==> has_word(
            chars,
            word,
        ),
{
    if has_word(chars, word) {
        lemma_word_to_bytes(chars, word, choose|at: int| word_at(chars, word, at));
    }
    if text::contains_ignoring_case(encode_utf8(chars), encode_utf8(word)) {
        let at = choose|at: int| text::matches_at(encode_utf8(chars), encode_utf8(word), at);
        lemma_word_from_bytes(chars, word, at);
    }
}

} // verus!
