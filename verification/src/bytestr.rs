//! Reading a string out of a zero-padded byte buffer.

use vstd::prelude::*;

verus! {

use vstd::string::StringSliceAdditionalSpecFns;
use vstd::utf8::decode_utf8;
use vstd::utf8::valid_utf8;
use crate::encoding::zero_from;
use crate::encoding::zero_scan;

/// Error returned when bytes fail UTF-8 validation.
#[derive(Clone, Copy, Debug, PartialEq, Eq, Structural)]
pub struct Utf8Error;

/// Relies on std's str::from_utf8: it returns a string viewing exactly the
/// given bytes when they are valid UTF-8, and an error otherwise.
#[verifier::external_body]
pub(crate) fn try_str_from_utf8(b: &[u8]) -> (r: Option<&str>)
    ensures
        r is Some <==> valid_utf8(b@),
        r matches Some(s) ==> s.spec_bytes() == b@,
{
    std::str::from_utf8(b).ok()
}

/// The first index at or after `k` holding a nonzero byte, or the length of
/// the sequence when there is none.
pub open spec fn nonzero_from(b: Seq<u8>, k: int) -> int
    recommends
        0 <= k <= b.len(),
    decreases b.len() - k,
{
    if k < 0 || k >= b.len() {
        b.len() as int
    } else if b[k] != 0 {
        k
    } else {
        nonzero_from(b, k + 1)
    }
}

fn nonzero_scan(b: &[u8], k: usize) -> (r: usize)
    requires
        k <= b@.len(),
    ensures
        r as int == nonzero_from(b@, k as int),
        k <= r <= b@.len(),
    decreases b@.len() - k,
{
    if k >= b.len() {
        b.len()
    } else if b[k] != 0 {
        k
    } else {
        nonzero_scan(b, k + 1)
    }
}

/// The run of bytes that `bytes_to_str` decodes: from the first nonzero
/// byte up to the zero byte (or the end) that follows it.
pub open spec fn trimmed_run(b: Seq<u8>) -> Seq<u8> {
    let start = nonzero_from(b, 0);
    let stop = zero_from(b, start);
    b.subrange(start, stop)
}

/// Decodes the run of nonzero bytes of a zero-padded buffer: zero bytes at
/// the front are skipped, and the run ends at the next zero byte. A buffer
/// holding no nonzero byte at all reads as the empty string; a run that is
/// not valid UTF-8 is an error.
pub fn bytes_to_str(bytes: &[u8]) -> (r: Result<&str, Utf8Error>)
    ensures
        ({
            let start = nonzero_from(bytes@, 0);
            &&& (start == bytes@.len() ==> (r matches Ok(s) && s@ == Seq::<char>::empty()))
            &&& (start < bytes@.len() ==> {
                &&& (r is Ok <==> valid_utf8(trimmed_run(bytes@)))
                &&& (r matches Ok(s) ==> s@ == decode_utf8(trimmed_run(bytes@)))
            })
        }),
{
    broadcast use vstd::utf8::encode_utf8_decode_utf8;

    let len = bytes.len();
    let start = nonzero_scan(bytes, 0);
    if start >= len {
        proof {
            reveal_strlit("");
        }
        return Ok("");
    }
    let stop = zero_scan(bytes, start);
    let sl = vstd::slice::slice_subrange(bytes, start, stop);
    match try_str_from_utf8(sl) {
        Some(s) => {
            proof {
                assert(s@ == decode_utf8(s.spec_bytes()));
            }
            Ok(s)
        },
        None => Err(Utf8Error),
    }
}

} // verus!
