//! The copy-on-write buffer variant: borrows its text until the first
//! edit, then owns it.

use vstd::prelude::*;

verus! {

use vstd::string::StrSliceExecFns;
use crate::buffer::TextBuffer;
use crate::buffer::insert_chars;
use crate::buffer::remove_chars;

/// Text that is either a borrowed slice or an owned string; edits promote
/// it to owned.
pub enum CowText<'a> {
    Borrowed(&'a str),
    Owned(String),
}

impl<'a> TextBuffer for CowText<'a> {
    open spec fn text(&self) -> Seq<char> {
        match self {
            CowText::Borrowed(s) => s@,
            CowText::Owned(s) => s@,
        }
    }

    open spec fn inv(&self) -> bool {
        true
    }

    open spec fn mutable() -> bool {
        true
    }

    open spec fn insert_spec(pre: Seq<char>, t: Seq<char>, ci: int) -> Seq<char> {
        insert_chars(pre, t, ci)
    }

    open spec fn insert_count(pre: Seq<char>, t: Seq<char>, ci: int) -> int {
        t.len() as int
    }

    open spec fn delete_spec(pre: Seq<char>, start: int, end: int) -> Seq<char> {
        remove_chars(pre, start, end)
    }

    proof fn lemma_insert_len(pre: Seq<char>, t: Seq<char>, ci: int) {
    }

    proof fn lemma_delete_len(pre: Seq<char>, start: int, end: int) {
    }

    fn is_mutable(&self) -> (b: bool) {
        true
    }

    fn as_str<'b>(&'b self) -> (s: &'b str) {
        match self {
            CowText::Borrowed(s) => s,
            CowText::Owned(s) => s.as_str(),
        }
    }

    fn insert_text(&mut self, text: &str, char_index: usize) -> (n: usize) {
        let mut owned: String = (&*self).as_str().to_owned();
        let n = <String as TextBuffer>::insert_text(&mut owned, text, char_index);
        *self = CowText::Owned(owned);
        n
    }

    fn delete_char_range(&mut self, char_range: core::ops::Range<usize>) {
        let mut owned: String = (&*self).as_str().to_owned();
        <String as TextBuffer>::delete_char_range(&mut owned, char_range);
        *self = CowText::Owned(owned);
    }
}

} // verus!
