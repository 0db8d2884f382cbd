//! A fixed-capacity string: 64 bytes of inline storage that always hold a
//! valid, zero-padded UTF-8 string.
//!
//! The unused tail of the cell is zero bytes, and a zero byte is the
//! sentinel for "end of content": the cell therefore cannot store a NUL
//! character, and every constructor clips its input at the first NUL.
//! Content that would overflow the capacity is clipped at the last
//! character boundary that fits, never in the middle of a character.

use vstd::prelude::*;

verus! {

use vstd::pervasive::unreached;
use vstd::slice::slice_subrange;
use vstd::string::StrSliceExecFns;
use vstd::string::StringExecFns;
use vstd::string::StringSliceAdditionalSpecFns;
use vstd::utf8::decode_utf8;
use vstd::utf8::encode_scalar;
use vstd::utf8::encode_utf8;
use vstd::utf8::valid_utf8;
use crate::buffer::TextBuffer;
use crate::buffer::clamp_index;
use crate::buffer::insert_chars;
use crate::buffer::remove_chars;
use crate::bytestr::Utf8Error;
use crate::bytestr::try_str_from_utf8;
use crate::encoding::before_nul;
use crate::encoding::byte_len;
use crate::encoding::char_utf8_len;
use crate::encoding::lemma_byte_len_first;
use crate::encoding::lemma_encode_nul_clip;
use crate::encoding::lemma_encode_nul_free;
use crate::encoding::lemma_encode_singleton;
use crate::encoding::lemma_encode_split;
use crate::encoding::lemma_encode_utf8_concat;
use crate::encoding::lemma_nul_free_of_encode;
use crate::encoding::lemma_nul_index_bounds;
use crate::encoding::lemma_zero_from_bounds;
use crate::encoding::lemma_zero_from_exact;
use crate::encoding::nul_free;
use crate::encoding::zero_from;
use crate::encoding::zero_scan;

broadcast use vstd::array::group_array_axioms;

/// The storage capacity of a [`String64`], in bytes.
pub const CAPACITY: usize = 64;

/// The number of leading characters of `chars` that a cell of `budget`
/// bytes can store: characters are taken until one is NUL or its encoding
/// no longer fits.
pub open spec fn fit_len(chars: Seq<char>, budget: int) -> int
    decreases chars.len(),
{
    if chars.len() == 0 {
        0
    } else if chars[0] == '\0' {
        0
    } else if encode_scalar(chars[0] as u32).len() > budget {
        0
    } else {
        1 + fit_len(chars.drop_first(), budget - encode_scalar(chars[0] as u32).len())
    }
}

/// The prefix of `chars` that a [`String64`] stores.
pub open spec fn fit64(chars: Seq<char>) -> Seq<char> {
    chars.take(fit_len(chars, CAPACITY as int))
}

/// What fits, fits: the stored prefix is NUL-free and its encoding is
/// within the budget.
pub proof fn lemma_fit_len_fits(chars: Seq<char>, budget: int)
    requires
        0 <= budget,
    ensures
        0 <= fit_len(chars, budget) <= chars.len(),
        byte_len(chars.take(fit_len(chars, budget))) <= budget,
        forall|j: int| 0 <= j < fit_len(chars, budget) ==> chars[j] != '\0',
    decreases chars.len(),
{
    assert(chars.take(0) =~= Seq::<char>::empty());
    assert(encode_utf8(Seq::<char>::empty()) =~= Seq::<u8>::empty());
    if chars.len() > 0 && chars[0] != '\0' && encode_scalar(chars[0] as u32).len() <= budget {
        let c0 = encode_scalar(chars[0] as u32).len() as int;
        let rest = chars.drop_first();
        lemma_fit_len_fits(rest, budget - c0);
        let f = fit_len(chars, budget);
        let fr = fit_len(rest, budget - c0);
        assert(chars.take(f).take(1) =~= chars.take(1));
        assert(chars.take(f).skip(1) =~= rest.take(fr));
        lemma_encode_split(chars.take(f), 1);
        lemma_byte_len_first(chars);
        assert(byte_len(chars.take(f).take(1)) == c0);
        assert forall|j: int| 0 <= j < f implies chars[j] != '\0' by {
            if j > 0 {
                assert(rest[j - 1] != '\0');
            }
        }
    }
}

/// `i` is exactly the number of characters stored when the first `i`
/// characters are NUL-free and fit, and the next one is absent, NUL, or
/// too large.
pub proof fn lemma_fit_len_exact(chars: Seq<char>, i: int, budget: int)
    requires
        0 <= i <= chars.len(),
        0 <= budget,
        forall|j: int| 0 <= j < i ==> chars[j] != '\0',
        byte_len(chars.take(i)) <= budget,
        i == chars.len() || chars[i] == '\0' || byte_len(chars.take(i + 1)) > budget,
    ensures
        fit_len(chars, budget) == i,
    decreases i,
{
    assert(chars.take(0) =~= Seq::<char>::empty());
    assert(encode_utf8(Seq::<char>::empty()) =~= Seq::<u8>::empty());
    if i == 0 {
        if chars.len() > 0 && chars[0] != '\0' {
            lemma_byte_len_first(chars);
            assert(byte_len(chars.take(1)) > budget);
        }
    } else {
        assert(chars[0] != '\0');
        let c0 = encode_scalar(chars[0] as u32).len() as int;
        let rest = chars.drop_first();
        lemma_byte_len_first(chars);
        lemma_encode_split(chars.take(i), 1);
        assert(chars.take(i).take(1) =~= chars.take(1));
        assert(chars.take(i).skip(1) =~= rest.take(i - 1));
        assert(byte_len(rest.take(i - 1)) == byte_len(chars.take(i)) - c0);
        assert forall|j: int| 0 <= j < i - 1 implies rest[j] != '\0' by {
            assert(chars[j + 1] != '\0');
        }
        if i < chars.len() && chars[i] != '\0' {
            lemma_encode_split(chars.take(i + 1), 1);
            assert(chars.take(i + 1).take(1) =~= chars.take(1));
            assert(chars.take(i + 1).skip(1) =~= rest.take(i));
            assert(byte_len(rest.take(i)) == byte_len(chars.take(i + 1)) - c0);
        }
        lemma_fit_len_exact(rest, i - 1, budget - c0);
    }
}

/// Round trip: a NUL-free text whose encoding is at most 64 bytes is
/// stored unchanged.
pub proof fn lemma_fit64_identity(chars: Seq<char>)
    requires
        byte_len(chars) <= CAPACITY as int,
        nul_free(chars),
    ensures
        fit64(chars) == chars,
{
    assert(chars.take(chars.len() as int) =~= chars);
    lemma_fit_len_exact(chars, chars.len() as int, CAPACITY as int);
}

/// Truncation safety: whatever is offered, what is stored is NUL-free and
/// its encoding is at most 64 bytes.
pub proof fn lemma_fit64_bounded(chars: Seq<char>)
    ensures
        fit64(chars).len() <= chars.len(),
        byte_len(fit64(chars)) <= CAPACITY as int,
        nul_free(fit64(chars)),
{
    lemma_fit_len_fits(chars, CAPACITY as int);
    let f = fit_len(chars, CAPACITY as int);
    assert forall|j: int| 0 <= j < fit64(chars).len() implies fit64(chars)[j] != '\0' by {
        assert(fit64(chars)[j] == chars[j]);
    }
}

/// Inserting `t` at `ci` and then deleting the same `t.len()` characters
/// restores the cell's contents exactly, whenever the splice fits the
/// capacity (no truncation occurred) and `t` holds no NUL (a NUL would be
/// clipped by the cell, so the deleted range would no longer match what
/// was inserted).
pub proof fn lemma_string64_insert_then_delete(pre: Seq<char>, t: Seq<char>, ci: int)
    requires
        0 <= ci <= pre.len(),
        byte_len(pre) + byte_len(t) <= CAPACITY as int,
        nul_free(pre),
        nul_free(t),
    ensures
        remove_chars(fit64(insert_chars(pre, t, ci)), ci, ci + t.len()) == pre,
{
    let spliced = insert_chars(pre, t, ci);
    lemma_encode_utf8_concat(pre.take(ci) + t, pre.skip(ci));
    lemma_encode_utf8_concat(pre.take(ci), t);
    lemma_encode_split(pre, ci);
    assert(byte_len(spliced) == byte_len(pre) + byte_len(t));
    assert forall|j: int| 0 <= j < spliced.len() implies spliced[j] != '\0' by {
        if j < ci {
            assert(spliced[j] == pre[j]);
        } else if j < ci + t.len() {
            assert(spliced[j] == t[j - ci]);
        } else {
            assert(spliced[j] == pre[j - t.len()]);
        }
    }
    lemma_fit64_identity(spliced);
    crate::buffer::lemma_insert_then_delete(pre, t, ci);
}

/// A 64-byte inline cell holding a valid, zero-padded UTF-8 string. Its
/// view is the sequence of characters encoded before the first zero byte.
#[derive(Clone, Copy, Debug, PartialEq, Eq, PartialOrd, Ord, Hash)]
pub struct String64 {
    bytes: [u8; 64],
}

impl View for String64 {
    type V = Seq<char>;

    closed spec fn view(&self) -> Seq<char> {
        decode_utf8(self.content())
    }
}

impl String64 {
    /// The stored bytes up to the first zero: the UTF-8 encoding of the
    /// contents.
    pub closed spec fn content(&self) -> Seq<u8> {
        self.bytes@.take(zero_from(self.bytes@, 0))
    }

    #[verifier::type_invariant]
    closed spec fn wf(&self) -> bool {
        &&& self.bytes@.len() == CAPACITY as int
        &&& valid_utf8(self.content())
        &&& forall|j: int|
            zero_from(self.bytes@, 0) <= j < CAPACITY as int ==> #[trigger] self.bytes@[j] == 0
    }

    proof fn lemma_content_facts(&self)
        requires
            self.wf(),
        ensures
            self.content() == encode_utf8(self@),
            byte_len(self@) == zero_from(self.bytes@, 0),
            0 <= byte_len(self@) <= CAPACITY as int,
            nul_free(self@),
    {
        lemma_zero_from_bounds(self.bytes@, 0);
        vstd::utf8::decode_utf8_encode_utf8(self.content());
        assert forall|k: int| 0 <= k < byte_len(self@) implies encode_utf8(self@)[k] != 0 by {
            assert(self.content()[k] == self.bytes@[k]);
        }
        lemma_nul_free_of_encode(self@);
    }

    /// Copies NUL-free, valid content into a fresh cell, zero-padded.
    fn from_content(content: Vec<u8>) -> (r: String64)
        requires
            content@.len() <= CAPACITY as int,
            valid_utf8(content@),
            forall|j: int| 0 <= j < content@.len() ==> content@[j] != 0,
        ensures
            r@ == decode_utf8(content@),
    {
        let ghost c = content@;
        let mut arr = [0u8; 64];
        let n = content.len();
        let mut i: usize = 0;
        while i < n
            invariant
                i <= n,
                n == c.len(),
                n <= CAPACITY,
                c == content@,
                arr@.len() == CAPACITY as int,
                forall|j: int| 0 <= j < i ==> arr@[j] == c[j],
                forall|j: int| i <= j < CAPACITY as int ==> arr@[j] == 0,
            decreases n - i,
        {
            let x = content[i];
            arr[i] = x;
            i = i + 1;
        }
        proof {
            assert forall|j: int| 0 <= j < c.len() implies arr@[j] != 0 by {
                assert(arr@[j] == c[j]);
            }
            lemma_zero_from_exact(arr@, 0, c.len() as int);
            assert(arr@.take(zero_from(arr@, 0)) =~= c);
        }
        String64 { bytes: arr }
    }

    /// The empty cell: all 64 bytes zero.
    pub fn new() -> (r: String64)
        ensures
            r@ == Seq::<char>::empty(),
    {
        let v: Vec<u8> = Vec::new();
        proof {
            assert(v@ =~= Seq::<u8>::empty());
            assert(valid_utf8(v@));
            assert(decode_utf8(v@) =~= Seq::<char>::empty());
        }
        String64::from_content(v)
    }

    /// The number of bytes of stored content: the count of bytes before the
    /// first zero.
    pub fn len(&self) -> (r: usize)
        ensures
            r as int == byte_len(self@),
    {
        proof {
            use_type_invariant(self);
            self.lemma_content_facts();
        }
        zero_scan(self.bytes.as_slice(), 0)
    }

    /// The stored text. Storage is always valid UTF-8, so this never fails.
    pub fn as_str<'a>(&'a self) -> (r: &'a str)
        ensures
            r@ == self@,
    {
        proof {
            use_type_invariant(self);
            self.lemma_content_facts();
        }
        let l = zero_scan(self.bytes.as_slice(), 0);
        let sl = slice_subrange(self.bytes.as_slice(), 0, l);
        proof {
            assert(sl@ =~= self.content());
        }
        match try_str_from_utf8(sl) {
            Some(st) => {
                proof {
                    vstd::utf8::encode_utf8_decode_utf8(st@);
                    vstd::utf8::encode_utf8_decode_utf8(self@);
                }
                st
            },
            None => unreached(),
        }
    }

    /// The stored content as bytes, without the zero padding.
    pub fn as_bytes<'a>(&'a self) -> (r: &'a [u8])
        ensures
            r@ == encode_utf8(self@),
    {
        proof {
            use_type_invariant(self);
            self.lemma_content_facts();
        }
        let l = zero_scan(self.bytes.as_slice(), 0);
        let sl = slice_subrange(self.bytes.as_slice(), 0, l);
        proof {
            assert(sl@ =~= self.content());
        }
        sl
    }

    /// The whole 64-byte cell: the encoded content followed by zero
    /// padding.
    pub fn raw<'a>(&'a self) -> (r: &'a [u8])
        ensures
            r@.len() == CAPACITY as int,
            r@ == encode_utf8(self@) + Seq::new((CAPACITY as int - byte_len(self@)) as nat,
                |i: int| 0u8,
            ),
    {
        proof {
            use_type_invariant(self);
            self.lemma_content_facts();
            assert(self.bytes@ =~= encode_utf8(self@) + Seq::new(
                (CAPACITY as int - byte_len(self@)) as nat,
                |i: int| 0u8,
            )) by {
                assert forall|j: int| 0 <= j < byte_len(self@) implies self.bytes@[j]
                    == encode_utf8(self@)[j] by {
                    assert(self.content()[j] == self.bytes@[j]);
                }
            }
        }
        self.bytes.as_slice()
    }

    /// Appends `s` after the current content when it fits in the spare
    /// capacity, clipped at its first NUL; a silent no-op when
    /// `len() + s.len()` exceeds the capacity.
    pub fn push(&mut self, s: &str)
        ensures
            byte_len(old(self)@) + byte_len(s@) > CAPACITY as int ==> *final(self) == *old(self),
            byte_len(old(self)@) + byte_len(s@) <= CAPACITY as int ==> final(self)@ == old(self)@
                + before_nul(s@),
    {
        proof {
            use_type_invariant(&*self);
            (&*self).lemma_content_facts();
        }
        let ghost b0 = self.bytes@;
        let ghost pre = self@;
        let sb = s.as_bytes();
        let l = zero_scan(self.bytes.as_slice(), 0);
        if sb.len() > CAPACITY - l {
            return ;
        }
        let mut v: Vec<u8> = Vec::new();
        let mut i: usize = 0;
        while i < l
            invariant
                i <= l,
                l as int <= b0.len(),
                b0.len() == CAPACITY as int,
                self.bytes@ == b0,
                v@ == b0.subrange(0, i as int),
            decreases l - i,
        {
            let x = self.bytes[i];
            v.push(x);
            i = i + 1;
        }
        let z = zero_scan(sb, 0);
        let mut j: usize = 0;
        while j < z
            invariant
                j <= z,
                z as int <= sb@.len(),
                sb@ == s.spec_bytes(),
                v@ == b0.subrange(0, l as int) + sb@.subrange(0, j as int),
            decreases z - j,
        {
            let x = sb[j];
            v.push(x);
            j = j + 1;
        }
        proof {
            lemma_encode_nul_clip(s@);
            lemma_nul_index_bounds(s@);
            let bn = before_nul(s@);
            assert(sb@.subrange(0, z as int) == encode_utf8(bn));
            assert(b0.subrange(0, l as int) =~= (*self).content());
            assert(v@ == encode_utf8(pre) + encode_utf8(bn));
            assert(nul_free(bn));
            lemma_encode_nul_free(bn);
            vstd::utf8::encode_utf8_valid_utf8(bn);
            vstd::utf8::valid_utf8_concat(encode_utf8(pre), encode_utf8(bn));
            lemma_encode_utf8_concat(pre, bn);
            vstd::utf8::encode_utf8_decode_utf8(pre + bn);
            assert forall|k: int| 0 <= k < v@.len() implies v@[k] != 0 by {
                lemma_encode_nul_free(pre);
                lemma_zero_from_bounds(sb@, 0);
                if k < l as int {
                    assert(v@[k] == encode_utf8(pre)[k]);
                } else {
                    assert(v@[k] == sb@[k - l]);
                }
            }
        }
        *self = String64::from_content(v);
    }

    /// Stores the longest prefix of `s` that fits: clipped at 64 bytes of
    /// encoding, on a character boundary, and at the first NUL.
    pub fn from(s: &str) -> (r: String64)
        ensures
            r@ == fit64(s@),
    {
        let n = s.unicode_len();
        proof {
            assert(s@.take(0) =~= Seq::<char>::empty());
            assert(encode_utf8(Seq::<char>::empty()) =~= Seq::<u8>::empty());
        }
        let scan = fit_scan(s, n, 0, 0);
        let k = scan.0;
        let nb = scan.1;
        proof {
            lemma_fit_len_exact(s@, k as int, CAPACITY as int);
            lemma_encode_split(s@, k as int);
            lemma_encode_nul_free(s@.take(k as int));
            vstd::utf8::encode_utf8_valid_utf8(s@.take(k as int));
            vstd::utf8::encode_utf8_decode_utf8(s@.take(k as int));
        }
        let sb = s.as_bytes();
        let mut v: Vec<u8> = Vec::new();
        let mut j: usize = 0;
        while j < nb
            invariant
                j <= nb,
                nb as int <= sb@.len(),
                sb@ == s.spec_bytes(),
                v@ == sb@.subrange(0, j as int),
            decreases nb - j,
        {
            let x = sb[j];
            v.push(x);
            j = j + 1;
        }
        proof {
            assert(v@ =~= encode_utf8(s@.take(k as int)));
        }
        String64::from_content(v)
    }

    /// Validates up to 64 bytes of `s`, zero-padded, as UTF-8; on success
    /// the stored content is what precedes the first zero byte. Unlike
    /// [`String64::from`], a prefix that ends inside a character is an
    /// error, not a clipping point.
    pub fn try_from(s: &[u8]) -> (r: Result<String64, Utf8Error>)
        ensures
            ({
                let cut = if s@.len() <= CAPACITY as int {
                    s@.len() as int
                } else {
                    CAPACITY as int
                };
                let padded = s@.subrange(0, cut) + Seq::new((CAPACITY as int - cut) as nat,
                    |i: int| 0u8,
                );
                &&& (r is Ok <==> valid_utf8(padded))
                &&& (r matches Ok(v) ==> v@ == decode_utf8(
                    padded.subrange(0, zero_from(padded, 0)),
                ))
            }),
    {
        let cut = if s.len() < CAPACITY {
            s.len()
        } else {
            CAPACITY
        };
        let ghost padded = s@.subrange(0, cut as int) + Seq::new((CAPACITY as int - cut) as nat,
            |i: int| 0u8,
        );
        let mut v: Vec<u8> = Vec::new();
        let mut j: usize = 0;
        while j < cut
            invariant
                j <= cut,
                cut as int <= s@.len(),
                v@ == s@.subrange(0, j as int),
            decreases cut - j,
        {
            let x = s[j];
            v.push(x);
            j = j + 1;
        }
        while v.len() < CAPACITY
            invariant
                cut as int <= v@.len() <= CAPACITY as int,
                cut as int <= s@.len(),
                v@.subrange(0, cut as int) == s@.subrange(0, cut as int),
                forall|i: int| cut as int <= i < v@.len() ==> v@[i] == 0,
            decreases CAPACITY as int - v@.len(),
        {
            v.push(0u8);
        }
        proof {
            assert(v@ =~= padded);
        }
        match try_str_from_utf8(v.as_slice()) {
            None => Err(Utf8Error),
            Some(_) => {
                let z = zero_scan(v.as_slice(), 0);
                let content = slice_subrange(v.as_slice(), 0, z);
                proof {
                    lemma_zero_from_bounds(padded, 0);
                    if z < CAPACITY {
                        vstd::utf8::is_char_boundary_iff_not_is_continuation_byte(padded,
                            z as int,
                        );
                        vstd::utf8::valid_utf8_split(padded, z as int);
                    } else {
                        assert(padded.subrange(0, z as int) =~= padded);
                    }
                    assert(content@ == padded.subrange(0, zero_from(padded, 0)));
                }
                Ok(String64::from_content(slice_to_vec_bytes(content)))
            },
        }
    }
}

/// Copies a byte slice into an owned vector.
fn slice_to_vec_bytes(s: &[u8]) -> (v: Vec<u8>)
    ensures
        v@ == s@,
{
    let mut v: Vec<u8> = Vec::new();
    let mut j: usize = 0;
    while j < s.len()
        invariant
            j <= s@.len(),
            v@ == s@.subrange(0, j as int),
        decreases s@.len() - j,
    {
        let x = s[j];
        v.push(x);
        j = j + 1;
    }
    proof {
        assert(v@ =~= s@);
    }
    v
}

impl Default for String64 {
    /// The empty cell.
    fn default() -> (r: Self)
        ensures
            r@ == Seq::<char>::empty(),
    {
        String64::new()
    }
}

impl TextBuffer for String64 {
    open spec fn text(&self) -> Seq<char> {
        self@
    }

    open spec fn inv(&self) -> bool {
        true
    }

    open spec fn mutable() -> bool {
        true
    }

    open spec fn insert_spec(pre: Seq<char>, t: Seq<char>, ci: int) -> Seq<char> {
        fit64(insert_chars(pre, t, ci))
    }

    open spec fn insert_count(pre: Seq<char>, t: Seq<char>, ci: int) -> int {
        t.len() as int
    }

    open spec fn delete_spec(pre: Seq<char>, start: int, end: int) -> Seq<char> {
        remove_chars(pre, start, end)
    }

    proof fn lemma_insert_len(pre: Seq<char>, t: Seq<char>, ci: int) {
        lemma_fit_len_fits(insert_chars(pre, t, ci), CAPACITY as int);
    }

    proof fn lemma_delete_len(pre: Seq<char>, start: int, end: int) {
    }

    fn is_mutable(&self) -> (b: bool) {
        true
    }

    fn as_str<'a>(&'a self) -> (s: &'a str) {
        let me: &String64 = self;
        me.as_str()
    }

    fn insert_text(&mut self, text: &str, char_index: usize) -> (n: usize) {
        let ghost pre = self@;
        let out: String = {
            let s = (&*self).as_str();
            let nch = s.unicode_len();
            let k = if char_index < nch {
                char_index
            } else {
                nch
            };
            let mut o = s.substring_char(0, k).to_owned();
            o.append(text);
            o.append(s.substring_char(k, nch));
            o
        };
        proof {
            assert(out@ =~= insert_chars(pre, text@, clamp_index(char_index as int,
                pre.len() as int,
            )));
        }
        *self = String64::from(out.as_str());
        text.unicode_len()
    }

    fn delete_char_range(&mut self, char_range: core::ops::Range<usize>) {
        let ghost pre = self@;
        let ghost start = char_range.start as int;
        let ghost end = char_range.end as int;
        proof {
            use_type_invariant(&*self);
            (&*self).lemma_content_facts();
        }
        let out: String = {
            let s = (&*self).as_str();
            let nch = s.unicode_len();
            let mut o = s.substring_char(0, char_range.start).to_owned();
            o.append(s.substring_char(char_range.end, nch));
            o
        };
        proof {
            assert(out@ =~= remove_chars(pre, start, end));
            lemma_encode_split(pre, end);
            lemma_encode_split(pre.take(end), start);
            assert(pre.take(end).take(start) =~= pre.take(start));
            lemma_encode_utf8_concat(pre.take(start), pre.skip(end));
            assert(byte_len(out@) <= byte_len(pre));
            assert forall|j: int| 0 <= j < out@.len() implies out@[j] != '\0' by {
                if j < start {
                    assert(out@[j] == pre[j]);
                } else {
                    assert(out@[j] == pre[j - start + end]);
                }
            }
            lemma_fit64_identity(out@);
        }
        *self = String64::from(out.as_str());
    }
}

fn fit_scan(s: &str, n: usize, i: usize, nb: usize) -> (r: (usize, usize))
    requires
        n as int == s@.len(),
        i <= n,
        nb as int == byte_len(s@.take(i as int)),
        nb <= CAPACITY,
        forall|j: int| 0 <= j < i ==> s@[j] != '\0',
    ensures
        i <= r.0 <= n,
        r.1 as int == byte_len(s@.take(r.0 as int)),
        r.1 <= CAPACITY,
        forall|j: int| 0 <= j < r.0 ==> s@[j] != '\0',
        r.0 as int == s@.len() || s@[r.0 as int] == '\0' || byte_len(s@.take(r.0 as int + 1))
            > CAPACITY as int,
    decreases n - i,
{
    if i >= n {
        (i, nb)
    } else {
        let c = s.get_char(i);
        if c == '\0' {
            (i, nb)
        } else {
            let cl = char_utf8_len(c);
            proof {
                assert(s@.take(i + 1) =~= s@.take(i as int) + seq![s@[i as int]]);
                lemma_encode_utf8_concat(s@.take(i as int), seq![s@[i as int]]);
                lemma_encode_singleton(s@[i as int]);
            }
            if nb + cl > CAPACITY {
                (i, nb)
            } else {
                fit_scan(s, n, i + 1, nb + cl)
            }
        }
    }
}

} // verus!
