//! The growable buffer variant: a heap-allocated string that accepts every
//! edit in full.

use vstd::prelude::*;

verus! {

use vstd::string::StrSliceExecFns;
use vstd::string::StringExecFns;
use crate::buffer::TextBuffer;
use crate::buffer::clamp_index;
use crate::buffer::insert_chars;
use crate::buffer::remove_chars;

impl TextBuffer for String {
    open spec fn text(&self) -> Seq<char> {
        self@
    }

    open spec fn inv(&self) -> bool {
        true
    }

    open spec fn mutable() -> bool {
        true
    }

    open spec fn insert_spec(pre: Seq<char>, t: Seq<char>, ci: int) -> Seq<char> {
        insert_chars(pre, t, ci)
    }

    open spec fn insert_count(pre: Seq<char>, t: Seq<char>, ci: int) -> int {
        t.len() as int
    }

    open spec fn delete_spec(pre: Seq<char>, start: int, end: int) -> Seq<char> {
        remove_chars(pre, start, end)
    }

    proof fn lemma_insert_len(pre: Seq<char>, t: Seq<char>, ci: int) {
    }

    proof fn lemma_delete_len(pre: Seq<char>, start: int, end: int) {
    }

    fn is_mutable(&self) -> (b: bool) {
        true
    }

    fn as_str<'a>(&'a self) -> (s: &'a str) {
        let me: &String = self;
        me.as_str()
    }

    fn insert_text(&mut self, text: &str, char_index: usize) -> (n: usize) {
        let ghost pre = self@;
        let n_chars = self.as_str().unicode_len();
        let k = if char_index < n_chars {
            char_index
        } else {
            n_chars
        };
        let mut out = self.as_str().substring_char(0, k).to_owned();
        out.append(text);
        out.append(self.as_str().substring_char(k, n_chars));
        proof {
            assert(out@ =~= insert_chars(pre, text@, clamp_index(char_index as int,
                pre.len() as int,
            )));
        }
        *self = out;
        text.unicode_len()
    }

    fn delete_char_range(&mut self, char_range: core::ops::Range<usize>) {
        let ghost pre = self@;
        let n_chars = self.as_str().unicode_len();
        let mut out = self.as_str().substring_char(0, char_range.start).to_owned();
        out.append(self.as_str().substring_char(char_range.end, n_chars));
        proof {
            assert(out@ =~= remove_chars(pre, char_range.start as int, char_range.end as int));
        }
        *self = out;
    }
}

} // verus!
