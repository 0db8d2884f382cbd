//! Translation between character indices and byte offsets, and boundary
//! detection: line starts and word boundaries.
//!
//! Editing operations are expressed in character positions, while UTF-8
//! storage is sliced at byte offsets; the functions here mediate between the
//! two without ever producing an offset that splits a multi-byte character.

use vstd::prelude::*;

verus! {

use vstd::string::StrSliceExecFns;
use vstd::utf8::encode_utf8;
use crate::cursor::CCursor;
use crate::encoding::byte_len;
use crate::encoding::char_utf8_len;
use crate::encoding::lemma_encode_split;
use crate::encoding::lemma_encode_utf8_concat;

/// The byte offset of the character at `ci`, or the total byte length when
/// `ci` is at or beyond the end of the text.
pub open spec fn spec_byte_index(chars: Seq<char>, ci: int) -> int {
    if ci <= chars.len() {
        byte_len(chars.take(ci))
    } else {
        byte_len(chars)
    }
}

/// Byte offset of the character at index `char_index` in `s`; the total byte
/// length of `s` when `char_index` points at or past the end.
pub fn byte_index_from_char_index(s: &str, char_index: usize) -> (r: usize)
    ensures
        r as int == spec_byte_index(s@, char_index as int),
{
    let total = s.as_bytes().len();
    let n = s.unicode_len();
    let k = if char_index < n {
        char_index
    } else {
        n
    };
    proof {
        assert(s@.take(n as int) =~= s@);
    }
    let mut i: usize = 0;
    let mut b: usize = 0;
    while i < k
        invariant
            i <= k <= s@.len(),
            total as int == byte_len(s@),
            b as int == byte_len(s@.take(i as int)),
        decreases k - i,
    {
        let c = s.get_char(i);
        let cl = char_utf8_len(c);
        proof {
            assert(s@.take(i + 1) =~= s@.take(i as int) + seq![s@[i as int]]);
            lemma_encode_utf8_concat(s@.take(i as int), seq![s@[i as int]]);
            assert(seq![s@[i as int]].drop_first() =~= Seq::<char>::empty());
            assert(encode_utf8(Seq::<char>::empty()) =~= Seq::<u8>::empty());
            assert(encode_utf8(seq![s@[i as int]]) =~= vstd::utf8::encode_scalar(
                s@[i as int] as u32,
            ));
            lemma_encode_split(s@, i + 1);
        }
        b = b + cl;
        i = i + 1;
    }
    b
}

/// The contents of the given character range of `s`.
pub fn slice_char_range<'a>(s: &'a str, char_range: core::ops::Range<usize>) -> (r: &'a str)
    requires
        char_range.start <= char_range.end,
        char_range.end <= s@.len(),
    ensures
        r@ == s@.subrange(char_range.start as int, char_range.end as int),
{
    s.substring_char(char_range.start, char_range.end)
}

/// The character index of the start of the line containing position `i`:
/// the nearest position at or before `i` that follows a newline, or the
/// start of the text.
pub open spec fn line_start_spec(chars: Seq<char>, i: int) -> int
    recommends
        0 <= i <= chars.len(),
    decreases i,
{
    if i <= 0 {
        0
    } else if chars[i - 1] == '\n' {
        i
    } else {
        line_start_spec(chars, i - 1)
    }
}

fn line_start_from(text: &str, i: usize) -> (r: usize)
    requires
        i <= text@.len(),
    ensures
        r as int == line_start_spec(text@, i as int),
        r <= i,
    decreases i,
{
    if i == 0 {
        0
    } else if text.get_char(i - 1) == '\n' {
        i
    } else {
        line_start_from(text, i - 1)
    }
}

/// The cursor at the start of the line containing `ccursor`.
pub fn find_line_start(text: &str, ccursor: CCursor) -> (r: CCursor)
    requires
        ccursor.index <= text@.len(),
    ensures
        r.index as int == line_start_spec(text@, ccursor.index as int),
        r.index <= ccursor.index,
        !r.prefer_next_row,
{
    let i = line_start_from(text, ccursor.index);
    CCursor { index: i, prefer_next_row: false }
}

/// What a character is, for the purpose of word boundaries: alphanumeric or
/// an underscore.
pub uninterp spec fn alphanumeric(c: char) -> bool;

/// Relies on char::is_alphanumeric from std: whether the character is in the
/// Unicode Alphabetic or Number categories, a function of the character
/// alone.
#[verifier::external_body]
fn char_is_alphanumeric(c: char) -> (r: bool)
    ensures
        r == alphanumeric(c),
{
    c.is_alphanumeric()
}

/// True when the character belongs to a word rather than to the space
/// between words.
pub open spec fn is_word_char_spec(c: char) -> bool {
    alphanumeric(c) || c == '_'
}

pub fn is_word_char(c: char) -> (r: bool)
    ensures
        r == is_word_char_spec(c),
{
    char_is_alphanumeric(c) || c == '_'
}

/// The first position at or after `k` where the word/non-word class differs
/// from `cls`, or the end of the text.
pub open spec fn word_scan(chars: Seq<char>, k: int, cls: bool) -> int
    recommends
        0 <= k <= chars.len(),
    decreases chars.len() - k,
{
    if k < 0 || k >= chars.len() {
        chars.len() as int
    } else if is_word_char_spec(chars[k]) != cls {
        k
    } else {
        word_scan(chars, k + 1, cls)
    }
}

/// The word boundary reached by moving forward from position `i`: at least
/// one character, then while the class of the second character continues.
pub open spec fn next_word_boundary_spec(chars: Seq<char>, i: int) -> int
    recommends
        0 <= i <= chars.len(),
{
    if i >= chars.len() {
        chars.len() as int
    } else if i + 1 >= chars.len() {
        i + 1
    } else {
        word_scan(chars, i + 2, is_word_char_spec(chars[i + 1]))
    }
}

fn word_scan_exec(text: &str, n: usize, k: usize, cls: bool) -> (r: usize)
    requires
        n as int == text@.len(),
        k <= n,
    ensures
        r as int == word_scan(text@, k as int, cls),
        k <= r <= n,
    decreases n - k,
{
    if k >= n {
        n
    } else {
        let c = text.get_char(k);
        if is_word_char(c) != cls {
            k
        } else {
            word_scan_exec(text, n, k + 1, cls)
        }
    }
}

/// The cursor one word forward of `ccursor`.
pub fn ccursor_next_word(text: &str, ccursor: CCursor) -> (r: CCursor)
    requires
        ccursor.index <= text@.len(),
    ensures
        r.index as int == next_word_boundary_spec(text@, ccursor.index as int),
        ccursor.index <= r.index <= text@.len(),
        !r.prefer_next_row,
{
    let n = text.unicode_len();
    let i = ccursor.index;
    let idx = if i >= n {
        n
    } else if i + 1 >= n {
        i + 1
    } else {
        let cls = is_word_char(text.get_char(i + 1));
        word_scan_exec(text, n, i + 2, cls)
    };
    CCursor { index: idx, prefer_next_row: false }
}

/// The last position at or before `r` whose preceding character's word/non-
/// word class differs from `cls`, or the start of the text.
pub open spec fn back_scan(chars: Seq<char>, r: int, cls: bool) -> int
    recommends
        r <= chars.len(),
    decreases r,
{
    if r <= 0 {
        0
    } else if r > chars.len() {
        0
    } else if is_word_char_spec(chars[r - 1]) != cls {
        r
    } else {
        back_scan(chars, r - 1, cls)
    }
}

/// The word boundary reached by moving backward from position `i`: at least
/// one character, then while the class of the second character (counting
/// backward) continues.
pub open spec fn prev_word_boundary_spec(chars: Seq<char>, i: int) -> int
    recommends
        0 <= i <= chars.len(),
{
    if i <= 1 {
        0
    } else {
        back_scan(chars, i - 2, is_word_char_spec(chars[i - 2]))
    }
}

fn back_scan_exec(text: &str, r: usize, cls: bool) -> (res: usize)
    requires
        r <= text@.len(),
    ensures
        res as int == back_scan(text@, r as int, cls),
        res <= r,
    decreases r,
{
    if r == 0 {
        0
    } else {
        let c = text.get_char(r - 1);
        if is_word_char(c) != cls {
            r
        } else {
            back_scan_exec(text, r - 1, cls)
        }
    }
}

/// The cursor one word backward of `ccursor`.
pub fn ccursor_previous_word(text: &str, ccursor: CCursor) -> (r: CCursor)
    requires
        ccursor.index <= text@.len(),
    ensures
        r.index as int == prev_word_boundary_spec(text@, ccursor.index as int),
        r.index <= ccursor.index,
        r.prefer_next_row,
{
    let i = ccursor.index;
    let idx = if i <= 1 {
        0
    } else {
        let cls = is_word_char(text.get_char(i - 2));
        back_scan_exec(text, i - 2, cls)
    };
    CCursor { index: idx, prefer_next_row: true }
}

} // verus!
