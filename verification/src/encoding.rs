//! Facts about the UTF-8 encoding of character sequences that the buffer
//! implementations share: the byte length of a sequence, how encoding
//! distributes over concatenation, and where zero bytes can occur.

use vstd::prelude::*;

verus! {

use vstd::utf8::char_is_scalar;
use vstd::utf8::encode_scalar;
use vstd::utf8::encode_utf8;

/// Number of bytes in the UTF-8 encoding of `chars`.
pub open spec fn byte_len(chars: Seq<char>) -> int {
    encode_utf8(chars).len() as int
}

/// True when no character of `chars` is the NUL character.
pub open spec fn nul_free(chars: Seq<char>) -> bool {
    forall|j: int| 0 <= j < chars.len() ==> chars[j] != '\0'
}

/// The number of bytes in the UTF-8 encoding of a single character,
/// determined by the ranges of the Unicode scalar values.
pub fn char_utf8_len(c: char) -> (n: usize)
    ensures
        n as int == encode_scalar(c as u32).len(),
        1 <= n <= 4,
{
    proof {
        char_is_scalar(c);
    }
    let u = c as u32;
    if u < 0x80 {
        1
    } else if u < 0x800 {
        2
    } else if u < 0x10000 {
        3
    } else {
        4
    }
}

/// Encoding a concatenation encodes each part in turn.
pub proof fn lemma_encode_utf8_concat(a: Seq<char>, b: Seq<char>)
    ensures
        encode_utf8(a + b) == encode_utf8(a) + encode_utf8(b),
    decreases a.len(),
{
    if a.len() == 0 {
        assert(a + b =~= b);
        assert(encode_utf8(a) + encode_utf8(b) =~= encode_utf8(b));
    } else {
        lemma_encode_utf8_concat(a.drop_first(), b);
        assert((a + b).drop_first() =~= a.drop_first() + b);
        assert(encode_utf8(a + b) =~= encode_utf8(a) + encode_utf8(b));
    }
}

/// A character sequence splits at any character position into a byte prefix
/// and a byte suffix of its encoding.
pub proof fn lemma_encode_split(chars: Seq<char>, i: int)
    requires
        0 <= i <= chars.len(),
    ensures
        encode_utf8(chars) == encode_utf8(chars.take(i)) + encode_utf8(chars.skip(i)),
        byte_len(chars) == byte_len(chars.take(i)) + byte_len(chars.skip(i)),
{
    assert(chars =~= chars.take(i) + chars.skip(i));
    lemma_encode_utf8_concat(chars.take(i), chars.skip(i));
}

/// The encoding of a single character never contains a zero byte unless the
/// character is NUL, whose encoding is exactly one zero byte.
pub proof fn lemma_encode_scalar_zero(c: char)
    ensures
        c == '\0' ==> encode_scalar(c as u32) =~= seq![0u8],
        c != '\0' ==> forall|k: int|
            0 <= k < encode_scalar(c as u32).len() ==> #[trigger] encode_scalar(c as u32)[k] != 0,
{
    char_is_scalar(c);
    let u = c as u32;
    vstd::utf8::char_u32_cast(c, u);
    if u < 0x80 {
        assert(u <= 0x7f ==> (u & 0x7f) == u) by (bit_vector);
        if c == '\0' {
            assert(('\0' as u32) == 0);
            assert(encode_scalar(0u32) =~= seq![0u8]);
        } else {
            assert(u != 0);
        }
    } else {
        assert(u >= 0x80 ==> u != 0) by (bit_vector);
        assert(forall|x: u32| (0xC0u8 | ((x >> 6) & 0x1F) as u8) != 0) by (bit_vector);
        assert(forall|x: u32| (0xE0u8 | ((x >> 12) & 0x0F) as u8) != 0) by (bit_vector);
        assert(forall|x: u32| (0xF0u8 | ((x >> 18) & 0x7) as u8) != 0) by (bit_vector);
        assert(forall|x: u32| (0x80u8 | (x & 0x3F) as u8) != 0) by (bit_vector);
        assert(forall|x: u32| (0x80u8 | ((x >> 6) & 0x3F) as u8) != 0) by (bit_vector);
        assert(forall|x: u32| (0x80u8 | ((x >> 12) & 0x3F) as u8) != 0) by (bit_vector);
    }
}

/// The encoding of a single character, as a sequence.
pub proof fn lemma_encode_singleton(c: char)
    ensures
        encode_utf8(seq![c]) == encode_scalar(c as u32),
{
    assert(seq![c].drop_first() =~= Seq::<char>::empty());
    assert(encode_utf8(Seq::<char>::empty()) =~= Seq::<u8>::empty());
    assert(encode_utf8(seq![c]) =~= encode_scalar(c as u32));
}

/// The byte length of a one-character prefix is the length of that
/// character's encoding.
pub proof fn lemma_byte_len_first(chars: Seq<char>)
    requires
        chars.len() > 0,
    ensures
        byte_len(chars.take(1)) == encode_scalar(chars[0] as u32).len(),
{
    assert(chars.take(1) =~= seq![chars[0]]);
    lemma_encode_singleton(chars[0]);
}

/// The encoding of a NUL-free character sequence contains no zero byte.
pub proof fn lemma_encode_nul_free(chars: Seq<char>)
    requires
        nul_free(chars),
    ensures
        forall|k: int| 0 <= k < byte_len(chars) ==> encode_utf8(chars)[k] != 0,
    decreases chars.len(),
{
    if chars.len() > 0 {
        assert(nul_free(chars.drop_first()));
        lemma_encode_nul_free(chars.drop_first());
        lemma_encode_scalar_zero(chars[0]);
        let head = encode_scalar(chars[0] as u32);
        let rest = encode_utf8(chars.drop_first());
        assert(encode_utf8(chars) == head + rest);
        assert forall|k: int| 0 <= k < byte_len(chars) implies encode_utf8(chars)[k] != 0 by {
            if k < head.len() {
                assert(encode_utf8(chars)[k] == head[k]);
            } else {
                assert(encode_utf8(chars)[k] == rest[k - head.len()]);
            }
        }
    }
}

/// If a character sequence holds a NUL, the encoding holds a zero byte at
/// the byte offset of that character.
pub proof fn lemma_encode_nul_position(chars: Seq<char>, j: int)
    requires
        0 <= j < chars.len(),
        chars[j] == '\0',
    ensures
        0 <= byte_len(chars.take(j)) < byte_len(chars),
        encode_utf8(chars)[byte_len(chars.take(j))] == 0,
{
    lemma_encode_split(chars, j);
    let rest = chars.skip(j);
    assert(rest[0] == '\0');
    lemma_byte_len_first(rest);
    lemma_encode_scalar_zero('\0');
    assert(rest =~= rest.take(1) + rest.skip(1));
    lemma_encode_utf8_concat(rest.take(1), rest.skip(1));
    assert(rest.take(1) =~= seq!['\0']);
    lemma_encode_singleton('\0');
    assert(encode_utf8(rest)[0] == 0);
    assert(encode_utf8(chars)[byte_len(chars.take(j))] == encode_utf8(rest)[0]);
}

/// A character sequence whose encoding is zero-free holds no NUL.
pub proof fn lemma_nul_free_of_encode(chars: Seq<char>)
    requires
        forall|k: int| 0 <= k < byte_len(chars) ==> encode_utf8(chars)[k] != 0,
    ensures
        nul_free(chars),
{
    assert forall|j: int| 0 <= j < chars.len() implies chars[j] != '\0' by {
        if chars[j] == '\0' {
            lemma_encode_nul_position(chars, j);
        }
    }
}

/// The first index at or after `k` holding a zero byte, or the length of
/// the sequence when there is none.
pub open spec fn zero_from(b: Seq<u8>, k: int) -> int
    recommends
        0 <= k <= b.len(),
    decreases b.len() - k,
{
    if k < 0 || k >= b.len() {
        b.len() as int
    } else if b[k] == 0 {
        k
    } else {
        zero_from(b, k + 1)
    }
}

pub proof fn lemma_zero_from_bounds(b: Seq<u8>, k: int)
    requires
        0 <= k <= b.len(),
    ensures
        k <= zero_from(b, k) <= b.len(),
        forall|j: int| k <= j < zero_from(b, k) ==> b[j] != 0,
        zero_from(b, k) < b.len() ==> b[zero_from(b, k)] == 0,
    decreases b.len() - k,
{
    if k < b.len() && b[k] != 0 {
        lemma_zero_from_bounds(b, k + 1);
    }
}

/// When the bytes of `[k, n)` are nonzero and `n` ends the sequence or
/// holds a zero, the first zero from `k` is exactly `n`.
pub proof fn lemma_zero_from_exact(b: Seq<u8>, k: int, n: int)
    requires
        0 <= k <= n <= b.len(),
        forall|j: int| k <= j < n ==> b[j] != 0,
        n == b.len() || b[n] == 0,
    ensures
        zero_from(b, k) == n,
    decreases n - k,
{
    if k < n {
        lemma_zero_from_exact(b, k + 1, n);
    }
}

/// First index at or after `k` holding a zero byte, or the length.
pub fn zero_scan(b: &[u8], k: usize) -> (r: usize)
    requires
        k <= b@.len(),
    ensures
        r as int == zero_from(b@, k as int),
        k <= r <= b@.len(),
    decreases b@.len() - k,
{
    if k >= b.len() {
        b.len()
    } else if b[k] == 0 {
        k
    } else {
        zero_scan(b, k + 1)
    }
}

/// The index of the first NUL character, or the length when there is none.
pub open spec fn nul_index(chars: Seq<char>) -> int
    decreases chars.len(),
{
    if chars.len() == 0 {
        0
    } else if chars[0] == '\0' {
        0
    } else {
        1 + nul_index(chars.drop_first())
    }
}

/// The longest NUL-free prefix of `chars`.
pub open spec fn before_nul(chars: Seq<char>) -> Seq<char> {
    chars.take(nul_index(chars))
}

pub proof fn lemma_nul_index_bounds(chars: Seq<char>)
    ensures
        0 <= nul_index(chars) <= chars.len(),
        forall|j: int| 0 <= j < nul_index(chars) ==> chars[j] != '\0',
        nul_index(chars) < chars.len() ==> chars[nul_index(chars)] == '\0',
    decreases chars.len(),
{
    if chars.len() > 0 && chars[0] != '\0' {
        lemma_nul_index_bounds(chars.drop_first());
        assert forall|j: int| 0 <= j < nul_index(chars) implies chars[j] != '\0' by {
            if j > 0 {
                assert(chars.drop_first()[j - 1] != '\0');
            }
        }
    }
}

/// The first zero byte of an encoding sits exactly at the byte offset of
/// the first NUL character, and the bytes before it encode the NUL-free
/// prefix.
pub proof fn lemma_encode_nul_clip(chars: Seq<char>)
    ensures
        zero_from(encode_utf8(chars), 0) == byte_len(before_nul(chars)),
        encode_utf8(chars).subrange(0, byte_len(before_nul(chars)))
            == encode_utf8(before_nul(chars)),
{
    let ni = nul_index(chars);
    lemma_nul_index_bounds(chars);
    lemma_encode_split(chars, ni);
    let pre = chars.take(ni);
    let bl = byte_len(pre);
    lemma_encode_nul_free(pre);
    assert forall|j: int| 0 <= j < bl implies encode_utf8(chars)[j] != 0 by {
        assert(encode_utf8(chars)[j] == encode_utf8(pre)[j]);
    }
    if ni < chars.len() {
        let rest = chars.skip(ni);
        assert(rest[0] == '\0');
        lemma_encode_nul_position(rest, 0);
        assert(rest.take(0) =~= Seq::<char>::empty());
        assert(encode_utf8(Seq::<char>::empty()) =~= Seq::<u8>::empty());
        assert(encode_utf8(rest)[0] == 0);
        assert(encode_utf8(chars)[bl] == encode_utf8(rest)[0]);
        lemma_zero_from_exact(encode_utf8(chars), 0, bl);
    } else {
        assert(pre =~= chars);
        lemma_zero_from_exact(encode_utf8(chars), 0, bl);
    }
    assert(encode_utf8(chars).subrange(0, bl) =~= encode_utf8(pre));
}

} // verus!
