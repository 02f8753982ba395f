//! Positions in text counted in characters, for text whose characters take
//! more than one byte.

use std::borrow::Cow;
use std::ops::Range;

use vstd::prelude::*;
use vstd::string::StrSliceExecFns;
use vstd::utf8::char_is_scalar;
use vstd::utf8::encode_utf8;

use crate::text::char_utf8_len;
use crate::text::chars_of;
use crate::text::utf8_len;

verus! {

/// The characters from `start` up to `end`: nothing for an empty range, and
/// no result for a range that reaches past the text.
pub open spec fn char_slice_spec(text: Seq<char>, start: int, end: int) -> Option<Seq<char>> {
    if start >= end {
        Some(Seq::empty())
    } else if end <= text.len() {
        Some(text.subrange(start, end))
    } else {
        None
    }
}

/// The number of characters that begin before the byte at `byte_offset`: the
/// index of the character that begins there, of the next one where the byte
/// lies inside a character, and the length of the text where it lies past
/// the end.
pub open spec fn char_index_for_byte_spec(text: Seq<char>, byte_offset: int) -> nat
    decreases text.len(),
{
    if text.len() == 0 || byte_offset <= 0 {
        0
    } else {
        1 + char_index_for_byte_spec(text.drop_first(), byte_offset - utf8_len(text[0]))
    }
}

/// The number of bytes that a text takes in UTF-8.
pub open spec fn byte_len(text: Seq<char>) -> nat
    decreases text.len(),
{
    if text.len() == 0 {
        0
    } else {
        utf8_len(text[0]) + byte_len(text.drop_first())
    }
}

/// `byte_len` counts the bytes of the UTF-8 encoding.
pub proof fn lemma_byte_len_is_encoded_len(text: Seq<char>)
    ensures
        byte_len(text) == encode_utf8(text).len(),
    decreases text.len(),
{
    if text.len() > 0 {
        char_is_scalar(text[0]);
        lemma_byte_len_is_encoded_len(text.drop_first());
    }
}

/// A byte offset maps to the index of the character it leads up to: an
/// offset behind the first `k` characters, and no further than the end of
/// the next one, maps to `k + 1`. So the first byte of a character maps to
/// the character's index, and a byte inside it to the index after.
pub proof fn lemma_char_index_of_byte(text: Seq<char>, k: int, byte_offset: int)
    requires
        0 <= k < text.len(),
        byte_len(text.take(k)) < byte_offset <= byte_len(text.take(k + 1)),
    ensures
        char_index_for_byte_spec(text, byte_offset) == k + 1,
    decreases k,
{
    assert(text.take(k + 1).drop_first() =~= text.drop_first().take(k));
    assert(text.take(k + 1)[0] == text[0]);
    if k == 0 {
        assert(text.drop_first().take(0) =~= Seq::<char>::empty());
        assert(text.take(0) =~= Seq::<char>::empty());
        lemma_spent_offset(text.drop_first(), byte_offset - utf8_len(text[0]));
    } else {
        assert(text.take(k).drop_first() =~= text.drop_first().take(k - 1));
        assert(text.take(k)[0] == text[0]);
        lemma_char_index_of_byte(text.drop_first(), k - 1, byte_offset - utf8_len(text[0]));
    }
}

/// A byte offset past the end of the text maps to the length of the text,
/// and the offset zero to the index zero.
pub proof fn lemma_char_index_at_ends(text: Seq<char>, byte_offset: int)
    ensures
        byte_offset <= 0 ==> char_index_for_byte_spec(text, byte_offset) == 0,
        byte_offset > byte_len(text) ==> char_index_for_byte_spec(text, byte_offset)
            == text.len(),
    decreases text.len(),
{
    if text.len() > 0 && byte_offset > 0 {
        lemma_char_index_at_ends(text.drop_first(), byte_offset - utf8_len(text[0]));
    }
}

/// Text that can be cut and indexed by characters.
pub trait CharIndexing: Sized {
    /// The characters of the text.
    spec fn chars(&self) -> Seq<char>;

    fn char_slice(&self, range: Range<usize>) -> (r: Option<Self>)
        ensures
            match r {
                Some(s) => char_slice_spec(self.chars(), range.start as int, range.end as int)
                    == Some(s.chars()),
                None => char_slice_spec(self.chars(), range.start as int, range.end as int)
                    is None,
            },
    ;

    fn char_index_for_byte(&self, byte_offset: usize) -> (r: usize)
        ensures
            r == char_index_for_byte_spec(self.chars(), byte_offset as int),
    ;
}

/// The index is never past the end of the text.
pub proof fn lemma_char_index_bounded(text: Seq<char>, byte_offset: int)
    ensures
        char_index_for_byte_spec(text, byte_offset) <= text.len(),
    decreases text.len(),
{
    if text.len() > 0 && byte_offset > 0 {
        lemma_char_index_bounded(text.drop_first(), byte_offset - utf8_len(text[0]));
    }
}

impl<'a> CharIndexing for &'a str {
    open spec fn chars(&self) -> Seq<char> {
        self@
    }

    fn char_slice(&self, range: Range<usize>) -> (r: Option<Self>) {
        if range.start >= range.end {
            proof {
                reveal_strlit("");
                assert(""@ =~= Seq::<char>::empty());
            }
            Some("")
        } else if range.end <= self.unicode_len() {
            Some(self.substring_char(range.start, range.end))
        } else {
            None
        }
    }

    fn char_index_for_byte(&self, byte_offset: usize) -> (r: usize) {
        let chars = chars_of(self);
        let mut left: usize = byte_offset;
        let mut i: usize = 0;
        assert(self@.skip(0) =~= self@);
        while i < chars.len() && left > 0
            invariant
                0 <= i <= chars@.len(),
                chars@ == self@,
                char_index_for_byte_spec(self@, byte_offset as int) == i
                    + char_index_for_byte_spec(self@.skip(i as int), left as int),
            decreases chars@.len() - i,
        {
            let width = char_utf8_len(chars[i]);
            proof {
                assert(self@.skip(i as int).drop_first() =~= self@.skip(i as int + 1));
                if left <= width {
                    lemma_spent_offset(self@.skip(i as int + 1), left as int - width as int);
                }
            }
            left = if left > width {
                left - width
            } else {
                0
            };
            i = i + 1;
        }
        proof {
            lemma_char_index_bounded(self@.skip(i as int), left as int);
        }
        i
    }
}

/// An offset that is used up counts no further character.
proof fn lemma_spent_offset(text: Seq<char>, byte_offset: int)
    requires
        byte_offset <= 0,
    ensures
        char_index_for_byte_spec(text, byte_offset) == 0,
        char_index_for_byte_spec(text, 0) == 0,
{
}

impl CharIndexing for String {
    open spec fn chars(&self) -> Seq<char> {
        self@
    }

    fn char_slice(&self, range: Range<usize>) -> (r: Option<Self>) {
        match self.as_str().char_slice(range) {
            Some(s) => Some(s.to_owned()),
            None => None,
        }
    }

    fn char_index_for_byte(&self, byte_offset: usize) -> (r: usize) {
        self.as_str().char_index_for_byte(byte_offset)
    }
}

impl<'a> CharIndexing for Cow<'a, str> {
    open spec fn chars(&self) -> Seq<char> {
        self@
    }

    fn char_slice(&self, range: Range<usize>) -> (r: Option<Self>) {
        match self {
            Cow::Borrowed(s) => match s.char_slice(range) {
                Some(part) => Some(Cow::Borrowed(part)),
                None => None,
            },
            Cow::Owned(s) => match s.char_slice(range) {
                Some(part) => Some(Cow::Owned(part)),
                None => None,
            },
        }
    }

    fn char_index_for_byte(&self, byte_offset: usize) -> (r: usize) {
        match self {
            Cow::Borrowed(s) => s.char_index_for_byte(byte_offset),
            Cow::Owned(s) => s.char_index_for_byte(byte_offset),
        }
    }
}

} // verus!
