use textbuf64::buffer::byte_index_from_char_index;
use textbuf64::buffer::char_range;
use textbuf64::buffer::clear;
use textbuf64::buffer::decrease_indentation;
use textbuf64::buffer::delete_next_char;
use textbuf64::buffer::delete_next_word;
use textbuf64::buffer::delete_paragraph_after_cursor;
use textbuf64::buffer::delete_paragraph_before_cursor;
use textbuf64::buffer::delete_previous_char;
use textbuf64::buffer::delete_previous_word;
use textbuf64::buffer::delete_selected;
use textbuf64::buffer::insert_text_at;
use textbuf64::buffer::replace_with;
use textbuf64::buffer::take;
use textbuf64::buffer::TextBuffer;
use textbuf64::cursor::CCursor;
use textbuf64::cursor::CCursorRange;

fn cur(i: usize) -> CCursor {
    CCursor { index: i, prefer_next_row: false }
}

fn sel(a: usize, b: usize) -> CCursorRange {
    CCursorRange { primary: cur(a), secondary: cur(b) }
}

#[test]
fn string_insert_and_delete() {
    let mut s = String::from("hello");
    let n = s.insert_text("XY", 2);
    assert_eq!(n, 2);
    assert_eq!(TextBuffer::as_str(&s), "heXYllo");
    s.delete_char_range(2..4);
    assert_eq!(TextBuffer::as_str(&s), "hello");
}

#[test]
fn multibyte_delete_scenario() {
    let mut s = String::from("café");
    assert_eq!(s.chars().count(), 4);
    assert_eq!(s.len(), 5);
    s.delete_char_range(1..3);
    assert_eq!(TextBuffer::as_str(&s), "cé");
}

#[test]
fn byte_and_char_indices_agree() {
    let s = String::from("café x");
    assert_eq!(byte_index_from_char_index(&s, 0), 0);
    assert_eq!(byte_index_from_char_index(&s, 3), 3);
    assert_eq!(byte_index_from_char_index(&s, 4), 5);
    assert_eq!(byte_index_from_char_index(&s, 6), 7);
    assert_eq!(byte_index_from_char_index(&s, 100), 7);
}

#[test]
fn char_range_reads_by_characters() {
    let s = String::from("hello world");
    assert_eq!(char_range(&s, 0..5), "hello");
    assert_eq!(char_range(&s, 6..11), "world");
    let t = String::from("café");
    assert_eq!(char_range(&t, 1..4), "afé");
}

#[test]
fn clear_is_idempotent() {
    let mut s = String::from("some text");
    clear(&mut s);
    assert_eq!(TextBuffer::as_str(&s), "");
    clear(&mut s);
    assert_eq!(TextBuffer::as_str(&s), "");
}

#[test]
fn replace_and_take() {
    let mut s = String::from("old");
    replace_with(&mut s, "new text");
    assert_eq!(TextBuffer::as_str(&s), "new text");
    let snapshot = take(&mut s);
    assert_eq!(snapshot, "new text");
    assert_eq!(TextBuffer::as_str(&s), "");
}

#[test]
fn insert_text_at_unbounded() {
    let mut s = String::from("hello");
    let mut c = cur(5);
    insert_text_at(&mut s, &mut c, " world", usize::MAX);
    assert_eq!(TextBuffer::as_str(&s), "hello world");
    assert_eq!(c.index, 11);
}

#[test]
fn insert_text_at_clamps_to_char_limit() {
    let mut s = String::from("hello");
    let mut c = cur(5);
    insert_text_at(&mut s, &mut c, " world", 8);
    assert_eq!(TextBuffer::as_str(&s), "hello wo");
    assert_eq!(s.chars().count(), 8);
    assert_eq!(c.index, 8);
}

#[test]
fn insert_text_at_full_buffer_inserts_nothing() {
    let mut s = String::from("hello");
    let mut c = cur(0);
    insert_text_at(&mut s, &mut c, "more", 3);
    assert_eq!(TextBuffer::as_str(&s), "hello");
    assert_eq!(c.index, 0);
}

#[test]
fn dedent_tab_inside_line() {
    let mut s = String::from("\tfoo");
    let mut c = cur(2);
    decrease_indentation(&mut s, &mut c);
    assert_eq!(TextBuffer::as_str(&s), "foo");
    assert_eq!(c.index, 1);
}

#[test]
fn dedent_tab_at_line_start() {
    let mut s = String::from("\tfoo");
    let mut c = cur(0);
    decrease_indentation(&mut s, &mut c);
    assert_eq!(TextBuffer::as_str(&s), "foo");
    assert_eq!(c.index, 0);
}

#[test]
fn dedent_four_spaces() {
    let mut s = String::from("    foo");
    let mut c = cur(6);
    decrease_indentation(&mut s, &mut c);
    assert_eq!(TextBuffer::as_str(&s), "foo");
    assert_eq!(c.index, 2);
}

#[test]
fn dedent_second_line_tab() {
    let mut s = String::from("abc\n\tdef");
    let mut c = cur(5);
    decrease_indentation(&mut s, &mut c);
    assert_eq!(TextBuffer::as_str(&s), "abc\ndef");
    assert_eq!(c.index, 4);
}

#[test]
fn dedent_at_line_start_ignores_row_hint() {
    let mut s = String::from("x\n\thello");
    let mut c = CCursor { index: 2, prefer_next_row: true };
    decrease_indentation(&mut s, &mut c);
    assert_eq!(TextBuffer::as_str(&s), "x\nhello");
    assert_eq!(c.index, 2);
    assert!(c.prefer_next_row);
}

#[test]
fn dedent_no_indentation_is_noop() {
    let mut s = String::from("foo");
    let mut c = cur(2);
    decrease_indentation(&mut s, &mut c);
    assert_eq!(TextBuffer::as_str(&s), "foo");
    assert_eq!(c.index, 2);
}

#[test]
fn delete_selected_range() {
    let mut s = String::from("hello world");
    let c = delete_selected(&mut s, &sel(8, 3));
    assert_eq!(TextBuffer::as_str(&s), "helrld");
    assert_eq!(c.index, 3);
    assert!(c.prefer_next_row);
}

#[test]
fn delete_previous_char_edges() {
    let mut s = String::from("ab");
    let c = delete_previous_char(&mut s, cur(2));
    assert_eq!(TextBuffer::as_str(&s), "a");
    assert_eq!(c.index, 1);
    let c = delete_previous_char(&mut s, cur(0));
    assert_eq!(TextBuffer::as_str(&s), "a");
    assert_eq!(c.index, 0);
}

#[test]
fn delete_next_char_edges() {
    let mut s = String::from("ab");
    let c = delete_next_char(&mut s, cur(0));
    assert_eq!(TextBuffer::as_str(&s), "b");
    assert_eq!(c.index, 0);
    let c = delete_next_char(&mut s, cur(1));
    assert_eq!(TextBuffer::as_str(&s), "b");
    assert_eq!(c.index, 1);
}

#[test]
fn word_deletion_boundaries() {
    let mut s = String::from("hello world");
    let c = delete_previous_word(&mut s, cur(11));
    assert_eq!(TextBuffer::as_str(&s), "hello ");
    assert_eq!(c.index, 6);

    let mut s = String::from("hello world");
    let c = delete_next_word(&mut s, cur(0));
    assert_eq!(TextBuffer::as_str(&s), " world");
    assert_eq!(c.index, 0);
}

#[test]
fn paragraph_delete_before() {
    let mut s = String::from("abc\ndef\nghi");
    let c = delete_paragraph_before_cursor(&mut s, cur(4), &sel(5, 5));
    assert_eq!(TextBuffer::as_str(&s), "abc\nef\nghi");
    assert_eq!(c.index, 4);
}

#[test]
fn paragraph_delete_before_at_paragraph_start() {
    let mut s = String::from("abc\ndef\nghi");
    let c = delete_paragraph_before_cursor(&mut s, cur(4), &sel(4, 4));
    assert_eq!(TextBuffer::as_str(&s), "abcdef\nghi");
    assert_eq!(c.index, 3);
}

#[test]
fn paragraph_delete_after() {
    let mut s = String::from("abc\ndef\nghi");
    let c = delete_paragraph_after_cursor(&mut s, cur(7), &sel(5, 5));
    assert_eq!(TextBuffer::as_str(&s), "abc\nd\nghi");
    assert_eq!(c.index, 5);
}

#[test]
fn paragraph_delete_after_at_paragraph_end() {
    let mut s = String::from("abc\ndef\nghi");
    let c = delete_paragraph_after_cursor(&mut s, cur(7), &sel(7, 7));
    assert_eq!(TextBuffer::as_str(&s), "abc\ndefghi");
    assert_eq!(c.index, 7);
}

#[test]
fn str_view_is_immutable() {
    let mut v: &str = "abc";
    assert!(!v.is_mutable());
    assert_eq!(v.insert_text("x", 1), 0);
    assert_eq!(TextBuffer::as_str(&v), "abc");
    v.delete_char_range(0..2);
    assert_eq!(TextBuffer::as_str(&v), "abc");
}

#[test]
fn cow_text_promotes_on_edit() {
    let mut v = textbuf64::cowtext::CowText::Borrowed("hello");
    assert!(v.is_mutable());
    assert_eq!(TextBuffer::as_str(&v), "hello");
    let n = v.insert_text("!", 5);
    assert_eq!(n, 1);
    assert_eq!(TextBuffer::as_str(&v), "hello!");
    assert!(matches!(v, textbuf64::cowtext::CowText::Owned(_)));
    v.delete_char_range(0..1);
    assert_eq!(TextBuffer::as_str(&v), "ello!");
}

#[test]
fn string64_through_buffer_operations() {
    let mut s = textbuf64::string64::String64::from("hello");
    let mut c = cur(5);
    insert_text_at(&mut s, &mut c, " world", usize::MAX);
    assert_eq!(s.as_str(), "hello world");
    assert_eq!(c.index, 11);
    let c = delete_previous_word(&mut s, cur(11));
    assert_eq!(s.as_str(), "hello ");
    assert_eq!(c.index, 6);
}

#[test]
fn dedent_short_space_run_at_end() {
    // Fewer than TAB_SIZE characters remain on the line and all are spaces:
    // they are all removed, and the cursor still shifts by TAB_SIZE.
    let mut s = String::from("ab\n  ");
    let mut c = cur(5);
    decrease_indentation(&mut s, &mut c);
    assert_eq!(TextBuffer::as_str(&s), "ab\n");
    assert_eq!(c.index, 1);
}

#[test]
fn insert_text_at_keeps_prefer_flag() {
    let mut s = String::from("ab");
    let mut c = CCursor { index: 1, prefer_next_row: true };
    insert_text_at(&mut s, &mut c, "xy", usize::MAX);
    assert_eq!(TextBuffer::as_str(&s), "axyb");
    assert_eq!(c.index, 3);
    assert!(c.prefer_next_row);
}

#[test]
fn line_start_detection() {
    let ls = textbuf64::index::find_line_start("abc\ndef", cur(6));
    assert_eq!(ls.index, 4);
    let ls = textbuf64::index::find_line_start("abc", cur(2));
    assert_eq!(ls.index, 0);
}

#[test]
fn word_boundary_detection() {
    let w = textbuf64::index::ccursor_next_word("foo_bar baz", cur(0));
    assert_eq!(w.index, 7);
    let w = textbuf64::index::ccursor_previous_word("foo bar", cur(7));
    assert_eq!(w.index, 4);
}

#[test]
fn slice_by_char_range() {
    assert_eq!(textbuf64::index::slice_char_range("héllo", 1..3), "él");
}

#[test]
fn insert_past_the_end_appends() {
    let mut s = String::from("ab");
    let n = s.insert_text("cd", 100);
    assert_eq!(n, 2);
    assert_eq!(TextBuffer::as_str(&s), "abcd");
}
