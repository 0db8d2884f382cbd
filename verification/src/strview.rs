//! The immutable buffer variant: a string slice that reports itself
//! read-only and ignores every edit.

use vstd::prelude::*;

verus! {

use crate::buffer::TextBuffer;

impl<'a> TextBuffer for &'a str {
    open spec fn text(&self) -> Seq<char> {
        (*self)@
    }

    open spec fn inv(&self) -> bool {
        true
    }

    open spec fn mutable() -> bool {
        false
    }

    open spec fn insert_spec(pre: Seq<char>, t: Seq<char>, ci: int) -> Seq<char> {
        pre
    }

    open spec fn insert_count(pre: Seq<char>, t: Seq<char>, ci: int) -> int {
        0
    }

    open spec fn delete_spec(pre: Seq<char>, start: int, end: int) -> Seq<char> {
        pre
    }

    proof fn lemma_insert_len(pre: Seq<char>, t: Seq<char>, ci: int) {
    }

    proof fn lemma_delete_len(pre: Seq<char>, start: int, end: int) {
    }

    fn is_mutable(&self) -> (b: bool) {
        false
    }

    fn as_str<'b>(&'b self) -> (s: &'b str) {
        *self
    }

    fn insert_text(&mut self, text: &str, char_index: usize) -> (n: usize) {
        0
    }

    fn delete_char_range(&mut self, char_range: core::ops::Range<usize>) {
    }
}

} // verus!
