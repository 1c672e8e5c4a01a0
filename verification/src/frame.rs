//! Length-prefix framing: delimits envelopes on a byte stream.
//!
//! Each framed message is a 4-byte little-endian length followed by exactly
//! that many envelope bytes, so a stream of messages of different kinds can
//! be split without any out-of-band length channel.

use crate::decode::read_u32;
use crate::decode::DecodeError;
use crate::wire::framed_bytes;
use crate::wire::unframed;
use vstd::bytes::u32_to_le_bytes;
use vstd::prelude::*;
use vstd::slice::slice_subrange;
use vstd::slice::slice_to_vec;

verus! {

/// Prepends the fixed-width length prefix to one envelope, yielding the
/// bytes to hand to a sink in one logical write.
pub fn write_framed(envelope: &[u8]) -> (r: Vec<u8>)
    requires
        envelope@.len() <= u32::MAX,
    ensures
        r@ == framed_bytes(envelope@),
{
    let mut out = u32_to_le_bytes(envelope.len() as u32);
    let mut rest = slice_to_vec(envelope);
    out.append(&mut rest);
    out
}

/// Reads one framed envelope from the front of `source`: the length prefix
/// first, then exactly as many bytes as it announces.  When the source falls
/// short — of the prefix or of the payload — it fails with `Truncated` and
/// returns no partial envelope.
pub fn read_framed(source: &[u8]) -> (r: Result<Vec<u8>, DecodeError>)
    ensures
        unframed(source@) matches Some(e) ==> (r matches Ok(v) && v@ == e),
        unframed(source@) is None ==> (r matches Err(err) && err is Truncated),
{
    let len = source.len();
    if len < 4 {
        return Err(DecodeError::Truncated);
    }
    let n32 = read_u32(source, 0);
    if 4 + n32 as u64 > len as u64 {
        return Err(DecodeError::Truncated);
    }
    let n = n32 as usize;
    Ok(slice_to_vec(slice_subrange(source, 4, 4 + n)))
}

} // verus!
