//! Reading measurements out of text: a cursor that knows where in the
//! document it stands, counted in characters.

pub mod char_indexing;
pub mod parse_measure;
pub mod parse_recipe;
pub mod unit_resolver;

pub use char_indexing::CharIndexing;
pub use parse_measure::parse_decimal;
pub use parse_measure::parse_integer;
pub use parse_measure::parse_measure;
pub use parse_measure::parse_measure_at;
pub use parse_measure::parse_rational;
pub use parse_measure::parse_unit;
pub use parse_measure::MeasureToken;
pub use parse_measure::ParseFailure;
pub use parse_recipe::parse_recipe;
pub use parse_recipe::Recipe;
pub use unit_resolver::resolve_unit;

use std::ops::Range;

use vstd::prelude::*;
use vstd::std_specs::convert::FromSpecImpl;
use vstd::string::StrSliceExecFns;

use crate::parser::char_indexing::char_index_for_byte_spec;
use crate::parser::char_indexing::lemma_char_index_bounded;

verus! {

/// A stretch of text together with the index, in characters, at which it
/// begins in the document it was cut from. The index of its end can always
/// be held.
#[derive(Clone, Copy, Debug, PartialEq, Eq)]
pub struct ParserInput<'a> {
    input: &'a str,
    /// The index of the first character in the document, not of its byte.
    char_index: usize,
}

impl<'a> ParserInput<'a> {
    /// The characters of the stretch.
    pub closed spec fn text(&self) -> Seq<char> {
        self.input@
    }

    /// The index in the document of the first character.
    pub closed spec fn offset(&self) -> nat {
        self.char_index as nat
    }

    /// The cursor over a whole document.
    pub closed spec fn at_start(input: &'a str) -> Self {
        ParserInput { input, char_index: 0 }
    }

    #[verifier::type_invariant]
    pub closed spec fn wf(self) -> bool {
        self.char_index + self.input@.len() <= usize::MAX
    }

    /// The cursor over `input`, which begins at `char_index` of its
    /// document.
    pub fn new(input: &'a str, char_index: usize) -> (r: Self)
        requires
            char_index + input@.len() <= usize::MAX,
        ensures
            r.text() == input@,
            r.offset() == char_index,
    {
        Self { input, char_index }
    }

    /// The text of the stretch.
    pub fn input(&self) -> (r: &'a str)
        ensures
            r@ == self.text(),
    {
        self.input
    }

    /// The index in the document of the character that the byte at
    /// `byte_offset` of the stretch belongs to or leads up to.
    pub fn char_index(&self, byte_offset: usize) -> (r: usize)
        ensures
            r == self.offset() + char_index_for_byte_spec(self.text(), byte_offset as int),
    {
        proof {
            use_type_invariant(self);
            lemma_char_index_bounded(self.input@, byte_offset as int);
        }
        self.char_index + self.input.char_index_for_byte(byte_offset)
    }

    /// The indices in the document that the stretch covers.
    pub fn range(&self) -> (r: Range<usize>)
        ensures
            r.start == self.offset(),
            r.end == self.offset() + self.text().len(),
    {
        proof {
            use_type_invariant(self);
        }
        self.char_index..self.char_index + self.input.unicode_len()
    }

    /// The number of characters in the stretch.
    pub fn char_len(&self) -> (n: usize)
        ensures
            n == self.text().len(),
    {
        self.input.unicode_len()
    }

    /// What is left of the stretch after its first `count` characters.
    pub fn skip_chars(&self, count: usize) -> (r: Self)
        requires
            count <= self.text().len(),
        ensures
            r.text() == self.text().skip(count as int),
            r.offset() == self.offset() + count,
    {
        proof {
            use_type_invariant(self);
        }
        let n = self.input.unicode_len();
        let rest = self.input.substring_char(count, n);
        assert(self.input@.subrange(count as int, n as int) =~= self.input@.skip(count as int));
        Self { input: rest, char_index: self.char_index + count }
    }

    /// The first `count` characters of the stretch.
    pub fn take_chars(&self, count: usize) -> (r: Self)
        requires
            count <= self.text().len(),
        ensures
            r.text() == self.text().take(count as int),
            r.offset() == self.offset(),
    {
        proof {
            use_type_invariant(self);
        }
        let first = self.input.substring_char(0, count);
        assert(self.input@.subrange(0, count as int) =~= self.input@.take(count as int));
        Self { input: first, char_index: self.char_index }
    }
}

impl<'a> From<&'a str> for ParserInput<'a> {
    /// The whole of a document, from its first character.
    fn from(input: &'a str) -> (r: Self) {
        let _ = input.unicode_len();
        ParserInput { input, char_index: 0 }
    }
}

impl<'a> FromSpecImpl<&'a str> for ParserInput<'a> {
    open spec fn obeys_from_spec() -> bool {
        true
    }

    open spec fn from_spec(input: &'a str) -> Self {
        ParserInput::at_start(input)
    }
}

/// A cursor at the start of a document holds all of it, from index zero.
pub proof fn lemma_at_start<'a>(input: &'a str)
    ensures
        ParserInput::at_start(input).text() == input@,
        ParserInput::at_start(input).offset() == 0,
{
}

} // verus!
