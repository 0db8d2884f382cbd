//! The `TextBuffer` capability trait and the editing operations built on it.
//!
//! A concrete buffer supplies four primitives: a mutability flag, its
//! contents as a string, insertion at a character index and deletion of a
//! character range. Everything else here (clearing, replacing, limited
//! insertion, indentation, character/word/selection/paragraph deletion) is
//! implemented once in terms of those primitives and shared by every
//! variant.

use vstd::prelude::*;

verus! {

use vstd::string::StrSliceExecFns;
use crate::cursor::CCursor;
use crate::cursor::CCursorRange;
use crate::index::find_line_start;
use crate::index::ccursor_next_word;
use crate::index::ccursor_previous_word;
use crate::index::line_start_spec;
use crate::index::next_word_boundary_spec;
use crate::index::prev_word_boundary_spec;

/// Number of spaces an indentation step stands for.
pub const TAB_SIZE: usize = 4;

/// An index clamped to the length of the text: an insertion point at or
/// past the end means the end.
pub open spec fn clamp_index(ci: int, len: int) -> int {
    if ci <= len {
        ci
    } else {
        len
    }
}

/// `t` spliced into `pre` so that it starts at character index `ci`.
pub open spec fn insert_chars(pre: Seq<char>, t: Seq<char>, ci: int) -> Seq<char>
    recommends
        0 <= ci <= pre.len(),
{
    pre.take(ci) + t + pre.skip(ci)
}

/// `pre` with the characters of `[start, end)` removed.
pub open spec fn remove_chars(pre: Seq<char>, start: int, end: int) -> Seq<char>
    recommends
        0 <= start <= end <= pre.len(),
{
    pre.take(start) + pre.skip(end)
}

/// What a type must supply to act as an editable text buffer. The four
/// executable methods are the primitives; the spec functions pin down, per
/// variant, what an insertion or deletion does to the contents (a
/// fixed-capacity buffer truncates, an immutable view ignores edits).
pub trait TextBuffer: Sized {
    /// The current contents, as a sequence of characters.
    spec fn text(&self) -> Seq<char>;

    /// Well-formedness of the buffer's representation.
    spec fn inv(&self) -> bool;

    /// Whether this buffer variant accepts edits; fixed per type.
    spec fn mutable() -> bool;

    /// The contents after inserting `t` at character index `ci` into `pre`.
    spec fn insert_spec(pre: Seq<char>, t: Seq<char>, ci: int) -> Seq<char>;

    /// The character count that an insertion reports.
    spec fn insert_count(pre: Seq<char>, t: Seq<char>, ci: int) -> int;

    /// The contents after deleting the character range `[start, end)` from
    /// `pre`.
    spec fn delete_spec(pre: Seq<char>, start: int, end: int) -> Seq<char>;

    /// An insertion never yields more than the old and the offered
    /// characters together.
    proof fn lemma_insert_len(pre: Seq<char>, t: Seq<char>, ci: int)
        requires
            0 <= ci <= pre.len(),
        ensures
            Self::insert_spec(pre, t, ci).len() <= pre.len() + t.len(),
    ;

    /// A deletion never grows the contents.
    proof fn lemma_delete_len(pre: Seq<char>, start: int, end: int)
        requires
            0 <= start <= end <= pre.len(),
        ensures
            Self::delete_spec(pre, start, end).len() <= pre.len(),
    ;

    /// Can this text be edited?
    fn is_mutable(&self) -> (b: bool)
        ensures
            b == Self::mutable(),
    ;

    /// The contents as a string slice.
    fn as_str<'a>(&'a self) -> (s: &'a str)
        requires
            self.inv(),
        ensures
            s@ == self.text(),
    ;

    /// Inserts `text` so that it starts at character index `char_index`,
    /// or at the end when `char_index` is at or past the character count;
    /// returns the reported number of characters inserted.
    fn insert_text(&mut self, text: &str, char_index: usize) -> (n: usize)
        requires
            old(self).inv(),
        ensures
            final(self).inv(),
            final(self).text() == Self::insert_spec(
                old(self).text(),
                text@,
                clamp_index(char_index as int, old(self).text().len() as int),
            ),
            n as int == Self::insert_count(
                old(self).text(),
                text@,
                clamp_index(char_index as int, old(self).text().len() as int),
            ),
            n as int <= text@.len(),
    ;

    /// Deletes the character range `char_range` from the buffer.
    fn delete_char_range(&mut self, char_range: core::ops::Range<usize>)
        requires
            old(self).inv(),
            char_range.start <= char_range.end,
            char_range.end as int <= old(self).text().len(),
        ensures
            final(self).inv(),
            final(self).text() == Self::delete_spec(
                old(self).text(),
                char_range.start as int,
                char_range.end as int,
            ),
    ;
}

/// Reads the given character range of the buffer.
pub fn char_range<'a, B: TextBuffer>(buf: &'a B, range: core::ops::Range<usize>) -> (r: &'a str)
    requires
        buf.inv(),
        range.start <= range.end,
        range.end as int <= buf.text().len(),
    ensures
        r@ == buf.text().subrange(range.start as int, range.end as int),
{
    crate::index::slice_char_range(buf.as_str(), range)
}

/// The byte offset, in the buffer's UTF-8 contents, of the character at
/// `char_index`; the total byte length when the index is at or past the end.
pub fn byte_index_from_char_index<B: TextBuffer>(buf: &B, char_index: usize) -> (r: usize)
    requires
        buf.inv(),
    ensures
        r as int == crate::index::spec_byte_index(buf.text(), char_index as int),
{
    crate::index::byte_index_from_char_index(buf.as_str(), char_index)
}

/// Deletes all characters of the buffer.
pub fn clear<B: TextBuffer>(buf: &mut B)
    requires
        old(buf).inv(),
    ensures
        final(buf).inv(),
        final(buf).text() == B::delete_spec(old(buf).text(), 0, old(buf).text().len() as int),
{
    let n = buf.as_str().unicode_len();
    buf.delete_char_range(0..n);
}

/// Replaces the whole contents with `text`: a clear followed by an insertion
/// at character index 0.
pub fn replace_with<B: TextBuffer>(buf: &mut B, text: &str)
    requires
        old(buf).inv(),
    ensures
        final(buf).inv(),
        final(buf).text() == B::insert_spec(
            B::delete_spec(old(buf).text(), 0, old(buf).text().len() as int),
            text@,
            0,
        ),
{
    clear(buf);
    buf.insert_text(text, 0);
}

/// Snapshots the contents as an owned string, then clears the buffer.
pub fn take<B: TextBuffer>(buf: &mut B) -> (s: String)
    requires
        old(buf).inv(),
    ensures
        s@ == old(buf).text(),
        final(buf).inv(),
        final(buf).text() == B::delete_spec(old(buf).text(), 0, old(buf).text().len() as int),
{
    let s = buf.as_str().to_owned();
    clear(buf);
    s
}

/// How many characters of an offered text a character limit leaves room
/// for: everything when the limit is `usize::MAX`, otherwise at most the
/// difference between the limit and the current length.
pub open spec fn limit_cutoff(pre_len: int, t_len: int, limit: int) -> int {
    if limit == usize::MAX as int {
        t_len
    } else {
        let avail = if limit >= pre_len {
            limit - pre_len
        } else {
            0
        };
        if t_len <= avail {
            t_len
        } else {
            avail
        }
    }
}

/// Inserts as much of `text_to_insert` at the cursor as fits without the
/// buffer's character count exceeding `char_limit`, and advances the cursor
/// by the number of characters the buffer reports inserted.
pub fn insert_text_at<B: TextBuffer>(
    buf: &mut B,
    ccursor: &mut CCursor,
    text_to_insert: &str,
    char_limit: usize,
)
    requires
        old(buf).inv(),
        old(ccursor).index + text_to_insert@.len() <= usize::MAX,
    ensures
        final(buf).inv(),
        ({
            let cut = limit_cutoff(
                old(buf).text().len() as int,
                text_to_insert@.len() as int,
                char_limit as int,
            );
            let at = clamp_index(old(ccursor).index as int, old(buf).text().len() as int);
            &&& final(buf).text() == B::insert_spec(
                old(buf).text(),
                text_to_insert@.take(cut),
                at,
            )
            &&& final(ccursor).index as int == old(ccursor).index + B::insert_count(
                old(buf).text(),
                text_to_insert@.take(cut),
                at,
            )
            &&& final(ccursor).prefer_next_row == old(ccursor).prefer_next_row
        }),
        old(buf).text().len() as int <= char_limit as int && char_limit < usize::MAX
            ==> final(buf).text().len() as int <= char_limit as int,
{
    let ghost pre = buf.text();
    let ghost cut_spec = limit_cutoff(pre.len() as int, text_to_insert@.len() as int,
        char_limit as int,
    );
    if char_limit < usize::MAX {
        let cur = buf.as_str().unicode_len();
        let cutoff = if char_limit > cur {
            char_limit - cur
        } else {
            0
        };
        let tlen = text_to_insert.unicode_len();
        let cut = if tlen <= cutoff {
            tlen
        } else {
            cutoff
        };
        let new_string = text_to_insert.substring_char(0, cut);
        proof {
            assert(new_string@ =~= text_to_insert@.take(cut as int));
        }
        let n = buf.insert_text(new_string, ccursor.index);
        proof {
            B::lemma_insert_len(
                pre,
                text_to_insert@.take(cut_spec),
                clamp_index(old(ccursor).index as int, pre.len() as int),
            );
        }
        ccursor.index = ccursor.index + n;
    } else {
        proof {
            assert(text_to_insert@.take(text_to_insert@.len() as int) =~= text_to_insert@);
        }
        let n = buf.insert_text(text_to_insert, ccursor.index);
        ccursor.index = ccursor.index + n;
    }
}

/// The number of characters `decrease_indentation` removes from the start
/// of the line beginning at `ls`: one for a tab, `TAB_SIZE` when the first
/// `TAB_SIZE` characters present are all spaces, none otherwise.
pub open spec fn dedent_count(chars: Seq<char>, ls: int) -> int
    recommends
        0 <= ls <= chars.len(),
{
    let lim = if ls + TAB_SIZE as int <= chars.len() {
        ls + TAB_SIZE as int
    } else {
        chars.len() as int
    };
    if ls < chars.len() && chars[ls] == '\t' {
        1
    } else if forall|k: int| ls <= k < lim ==> #[trigger] chars[k] == ' ' {
        TAB_SIZE as int
    } else {
        0
    }
}

fn spaces_from(text: &str, k: usize, lim: usize) -> (r: bool)
    requires
        k <= lim,
        lim as int <= text@.len(),
    ensures
        r == (forall|j: int| k <= j < lim ==> #[trigger] text@[j] == ' '),
    decreases lim - k,
{
    if k >= lim {
        true
    } else if text.get_char(k) != ' ' {
        proof {
            assert(text@[k as int] != ' ');
        }
        false
    } else {
        spaces_from(text, k + 1, lim)
    }
}

/// Removes one level of indentation from the line containing the cursor: a
/// single leading tab, or `TAB_SIZE` leading spaces; shifts the cursor left
/// by the removed amount unless it already sat at the line start.
pub fn decrease_indentation<B: TextBuffer>(buf: &mut B, ccursor: &mut CCursor)
    requires
        old(buf).inv(),
        old(ccursor).index as int <= old(buf).text().len(),
    ensures
        final(buf).inv(),
        ({
            let pre = old(buf).text();
            let ls = line_start_spec(pre, old(ccursor).index as int);
            let cnt = dedent_count(pre, ls);
            let del_end = if ls + cnt <= pre.len() {
                ls + cnt
            } else {
                pre.len() as int
            };
            &&& (cnt == 0 ==> *final(buf) == *old(buf) && *final(ccursor) == *old(ccursor))
            &&& (cnt > 0 ==> final(buf).text() == B::delete_spec(pre, ls, del_end))
            &&& (cnt > 0 ==> ({
                if old(ccursor).index as int == ls {
                    *final(ccursor) == *old(ccursor)
                } else {
                    &&& final(ccursor).index as int == (if old(ccursor).index as int >= cnt {
                        old(ccursor).index - cnt
                    } else {
                        0
                    })
                    &&& final(ccursor).prefer_next_row == old(ccursor).prefer_next_row
                }
            }))
        }),
{
    let line_start = find_line_start(buf.as_str(), *ccursor);
    let n = buf.as_str().unicode_len();
    let ls = line_start.index;
    let remove_len: usize = if ls < n && buf.as_str().get_char(ls) == '\t' {
        1
    } else {
        let lim = if n - ls >= TAB_SIZE {
            ls + TAB_SIZE
        } else {
            n
        };
        if spaces_from(buf.as_str(), ls, lim) {
            TAB_SIZE
        } else {
            0
        }
    };
    if remove_len > 0 {
        let del_end = if n - ls >= remove_len {
            ls + remove_len
        } else {
            n
        };
        buf.delete_char_range(ls..del_end);
        if ccursor.index != ls {
            ccursor.index = if ccursor.index >= remove_len {
                ccursor.index - remove_len
            } else {
                0
            };
        }
    }
}

/// Deletes the characters between the selection's two cursors and returns a
/// cursor at the lower end.
pub fn delete_selected<B: TextBuffer>(buf: &mut B, cursor_range: &CCursorRange) -> (r: CCursor)
    requires
        old(buf).inv(),
        cursor_range.max_spec().index as int <= old(buf).text().len(),
    ensures
        final(buf).inv(),
        final(buf).text() == B::delete_spec(
            old(buf).text(),
            cursor_range.min_spec().index as int,
            cursor_range.max_spec().index as int,
        ),
        r.index == cursor_range.min_spec().index,
        r.prefer_next_row,
{
    let (min, max) = cursor_range.sorted_cursors();
    delete_selected_ccursor_range(buf, min, max)
}

/// Deletes the character range `[min, max)` and returns a cursor at `min`.
pub fn delete_selected_ccursor_range<B: TextBuffer>(buf: &mut B, min: CCursor, max: CCursor) -> (r:
    CCursor)
    requires
        old(buf).inv(),
        min.index <= max.index,
        max.index as int <= old(buf).text().len(),
    ensures
        final(buf).inv(),
        final(buf).text() == B::delete_spec(old(buf).text(), min.index as int, max.index as int),
        r.index == min.index,
        r.prefer_next_row,
{
    buf.delete_char_range(min.index..max.index);
    CCursor { index: min.index, prefer_next_row: true }
}

/// Deletes the character immediately before the cursor, if any.
pub fn delete_previous_char<B: TextBuffer>(buf: &mut B, ccursor: CCursor) -> (r: CCursor)
    requires
        old(buf).inv(),
        ccursor.index as int <= old(buf).text().len(),
    ensures
        final(buf).inv(),
        ccursor.index > 0 ==> final(buf).text() == B::delete_spec(
            old(buf).text(),
            ccursor.index - 1,
            ccursor.index as int,
        ) && r.index == ccursor.index - 1 && r.prefer_next_row,
        ccursor.index == 0 ==> *final(buf) == *old(buf) && r == ccursor,
{
    if ccursor.index > 0 {
        let min_ccursor = CCursor { index: ccursor.index - 1, ..ccursor };
        delete_selected_ccursor_range(buf, min_ccursor, ccursor)
    } else {
        ccursor
    }
}

/// Deletes the character at the cursor, if any; a no-op at the end of the
/// buffer.
pub fn delete_next_char<B: TextBuffer>(buf: &mut B, ccursor: CCursor) -> (r: CCursor)
    requires
        old(buf).inv(),
        ccursor.index as int <= old(buf).text().len(),
    ensures
        final(buf).inv(),
        (ccursor.index as int) < old(buf).text().len() ==> final(buf).text() == B::delete_spec(
            old(buf).text(),
            ccursor.index as int,
            ccursor.index + 1,
        ),
        ccursor.index as int == old(buf).text().len() ==> *final(buf) == *old(buf),
        r.index == ccursor.index,
        r.prefer_next_row,
{
    let n = buf.as_str().unicode_len();
    if ccursor.index < n {
        delete_selected_ccursor_range(
            buf,
            ccursor,
            CCursor { index: ccursor.index + 1, ..ccursor },
        )
    } else {
        CCursor { index: ccursor.index, prefer_next_row: true }
    }
}

/// Deletes from the previous word boundary up to the cursor.
pub fn delete_previous_word<B: TextBuffer>(buf: &mut B, max_ccursor: CCursor) -> (r: CCursor)
    requires
        old(buf).inv(),
        max_ccursor.index as int <= old(buf).text().len(),
    ensures
        final(buf).inv(),
        final(buf).text() == B::delete_spec(
            old(buf).text(),
            prev_word_boundary_spec(old(buf).text(), max_ccursor.index as int),
            max_ccursor.index as int,
        ),
        r.index as int == prev_word_boundary_spec(old(buf).text(), max_ccursor.index as int),
        r.prefer_next_row,
{
    let min_ccursor = ccursor_previous_word(buf.as_str(), max_ccursor);
    delete_selected_ccursor_range(buf, min_ccursor, max_ccursor)
}

/// Deletes from the cursor up to the next word boundary.
pub fn delete_next_word<B: TextBuffer>(buf: &mut B, min_ccursor: CCursor) -> (r: CCursor)
    requires
        old(buf).inv(),
        min_ccursor.index as int <= old(buf).text().len(),
    ensures
        final(buf).inv(),
        final(buf).text() == B::delete_spec(
            old(buf).text(),
            min_ccursor.index as int,
            next_word_boundary_spec(old(buf).text(), min_ccursor.index as int),
        ),
        r.index == min_ccursor.index,
        r.prefer_next_row,
{
    let max_ccursor = ccursor_next_word(buf.as_str(), min_ccursor);
    delete_selected_ccursor_range(buf, min_ccursor, max_ccursor)
}

/// Deletes from the start of the paragraph containing the selection's lower
/// end up to its upper end. The paragraph-start cursor is supplied by the
/// caller's layout; when it already coincides with the upper end, one
/// character before it is deleted instead.
pub fn delete_paragraph_before_cursor<B: TextBuffer>(
    buf: &mut B,
    paragraph_start: CCursor,
    cursor_range: &CCursorRange,
) -> (r: CCursor)
    requires
        old(buf).inv(),
        paragraph_start.index <= cursor_range.min_spec().index,
        cursor_range.max_spec().index as int <= old(buf).text().len(),
    ensures
        final(buf).inv(),
        ({
            let p = paragraph_start.index as int;
            let mx = cursor_range.max_spec().index as int;
            &&& (p == mx && p > 0 ==> final(buf).text() == B::delete_spec(
                old(buf).text(),
                p - 1,
                p,
            ) && r.index as int == p - 1 && r.prefer_next_row)
            &&& (p == mx && p == 0 ==> *final(buf) == *old(buf) && r == paragraph_start)
            &&& (p < mx ==> final(buf).text() == B::delete_spec(old(buf).text(), p, mx)
                && r.index as int == p && r.prefer_next_row)
        }),
{
    let (_min, max) = cursor_range.sorted_cursors();
    if paragraph_start.index == max.index {
        delete_previous_char(buf, paragraph_start)
    } else {
        delete_selected(buf, &CCursorRange::two(paragraph_start, max))
    }
}

/// Deletes from the selection's lower end up to the end of the paragraph
/// containing its upper end. The paragraph-end cursor is supplied by the
/// caller's layout; when it already coincides with the lower end, the
/// character at the cursor is deleted instead.
pub fn delete_paragraph_after_cursor<B: TextBuffer>(
    buf: &mut B,
    paragraph_end: CCursor,
    cursor_range: &CCursorRange,
) -> (r: CCursor)
    requires
        old(buf).inv(),
        cursor_range.max_spec().index <= paragraph_end.index,
        paragraph_end.index as int <= old(buf).text().len(),
    ensures
        final(buf).inv(),
        ({
            let mn = cursor_range.min_spec().index as int;
            let p = paragraph_end.index as int;
            &&& (mn == p && mn < old(buf).text().len() ==> final(buf).text() == B::delete_spec(
                old(buf).text(),
                mn,
                mn + 1,
            ) && r.index as int == mn && r.prefer_next_row)
            &&& (mn == p && mn == old(buf).text().len() ==> *final(buf) == *old(buf)
                && r.index as int == mn && r.prefer_next_row)
            &&& (mn < p ==> final(buf).text() == B::delete_spec(old(buf).text(), mn, p)
                && r.index as int == mn && r.prefer_next_row)
        }),
{
    let (min, _max) = cursor_range.sorted_cursors();
    if min.index == paragraph_end.index {
        delete_next_char(buf, min)
    } else {
        delete_selected(buf, &CCursorRange::two(min, paragraph_end))
    }
}

/// Inserting `t` at `ci` and then deleting the `t.len()` characters starting
/// at `ci` restores the starting text exactly.
pub proof fn lemma_insert_then_delete(pre: Seq<char>, t: Seq<char>, ci: int)
    requires
        0 <= ci <= pre.len(),
    ensures
        remove_chars(insert_chars(pre, t, ci), ci, ci + t.len()) == pre,
{
    assert(remove_chars(insert_chars(pre, t, ci), ci, ci + t.len()) =~= pre);
}

/// Clearing the whole character range empties the text, and clearing again
/// leaves the same empty state.
pub proof fn lemma_clear_idempotent(t: Seq<char>)
    ensures
        remove_chars(t, 0, t.len() as int) == Seq::<char>::empty(),
        remove_chars(remove_chars(t, 0, t.len() as int), 0, remove_chars(t, 0, t.len() as int).len() as int)
            == remove_chars(t, 0, t.len() as int),
{
    assert(remove_chars(t, 0, t.len() as int) =~= Seq::<char>::empty());
    assert(remove_chars(Seq::<char>::empty(), 0, 0) =~= Seq::<char>::empty());
}

/// A line that starts with a tab loses exactly one character, so
/// `decrease_indentation` deletes just the tab and shifts an inside cursor
/// left by one.
pub proof fn lemma_dedent_tab(text: Seq<char>, ls: int)
    requires
        0 <= ls < text.len(),
        text[ls] == '\t',
    ensures
        dedent_count(text, ls) == 1,
{
}

/// A line whose first `TAB_SIZE` characters are all spaces loses exactly
/// `TAB_SIZE` characters, so `decrease_indentation` deletes those spaces
/// and shifts an inside cursor left by `TAB_SIZE`, saturating at zero.
pub proof fn lemma_dedent_spaces(text: Seq<char>, ls: int)
    requires
        0 <= ls,
        ls + TAB_SIZE as int <= text.len(),
        forall|k: int| ls <= k < ls + TAB_SIZE as int ==> #[trigger] text[k] == ' ',
    ensures
        dedent_count(text, ls) == TAB_SIZE as int,
{
    assert(text[ls] == ' ');
}

/// A line that starts with neither a tab nor spaces out to `TAB_SIZE` (the
/// witness `k` is a non-space among its first `TAB_SIZE` characters) is
/// left alone: the removal count is zero.
pub proof fn lemma_dedent_none(text: Seq<char>, ls: int, k: int)
    requires
        0 <= ls <= k < text.len(),
        k < ls + TAB_SIZE as int,
        text[ls] != '\t',
        text[k] != ' ',
    ensures
        dedent_count(text, ls) == 0,
{
}

/// However much text is offered, an insertion limited to `char_limit` never
/// leaves the buffer with more than `char_limit` characters, whatever the
/// buffer variant does with the truncated text.
pub proof fn lemma_capacity_clamp<B: TextBuffer>(
    pre: Seq<char>,
    t: Seq<char>,
    ci: int,
    char_limit: int,
)
    requires
        0 <= ci <= pre.len(),
        pre.len() <= char_limit,
        0 <= char_limit < usize::MAX as int,
    ensures
        B::insert_spec(
            pre,
            t.take(limit_cutoff(pre.len() as int, t.len() as int, char_limit)),
            ci,
        ).len() <= char_limit,
{
    let cut = limit_cutoff(pre.len() as int, t.len() as int, char_limit);
    B::lemma_insert_len(pre, t.take(cut), ci);
}

} // verus!
