//! Decoder: from an envelope buffer to an owned witness.

use crate::variables::VariablesOwned;
use crate::wire::decode_model;
use crate::wire::lemma_parse_entries_none;
use crate::wire::parse_entries;
use crate::wire::u32_at;
use crate::wire::u64_at;
use crate::wire::WireDecode;
use crate::wire::FIELD_PRESENT;
use crate::wire::MESSAGE_WITNESS;
use crate::witness::WitnessOwned;
use vstd::bytes::u32_from_le_bytes;
use vstd::bytes::u64_from_le_bytes;
use vstd::prelude::*;
use vstd::slice::slice_index_get;
use vstd::slice::slice_subrange;
use vstd::slice::slice_to_vec;

verus! {

/// Why a message was rejected.  Malformed input is data, not a programmer
/// error: every malformity surfaces as one of these, never as a panic.
#[derive(Debug)]
pub enum DecodeError {
    /// A required nested structure is absent from the decoded message; the
    /// payload names the missing field.
    MissingField(String),
    /// The envelope's `message_type` tag does not name the expected kind.
    TypeMismatch,
    /// The byte source fell short of a region the message declares.
    Truncated,
}

/// Reads the 32-bit little-endian integer at `pos`.
pub(crate) fn read_u32(buf: &[u8], pos: usize) -> (r: u32)
    requires
        pos + 4 <= buf@.len(),
    ensures
        r == u32_at(buf@, pos as int),
{
    let avail = buf.len();
    u32_from_le_bytes(slice_subrange(buf, pos, pos + 4))
}

/// Reads the 64-bit little-endian integer at `pos`.
pub(crate) fn read_u64(buf: &[u8], pos: usize) -> (r: u64)
    requires
        pos + 8 <= buf@.len(),
    ensures
        r == u64_at(buf@, pos as int),
{
    let avail = buf.len();
    u64_from_le_bytes(slice_subrange(buf, pos, pos + 8))
}

/// Decodes one envelope into an owned witness, copying every byte out of
/// `buf` so the result has no remaining dependency on it.  The outcome is
/// exactly what `decode_model` says of the buffer: the witness it holds, or
/// the error naming how it is malformed; decoding is all-or-nothing.
#[verifier::loop_isolation(false)]
pub fn decode(buf: &[u8]) -> (r: Result<WitnessOwned, DecodeError>)
    ensures
        decode_model(buf@) matches WireDecode::Witness { ids, values } ==> (r matches Ok(w)
            && w.wf() && w@.0 == ids && w@.1 == values),
        decode_model(buf@) is Truncated ==> (r matches Err(e) && e is Truncated),
        decode_model(buf@) is TypeMismatch ==> (r matches Err(e) && e is TypeMismatch),
        decode_model(buf@) is MissingField ==> (r matches Err(e) && (e matches
            DecodeError::MissingField(f) && f@ == "assigned_variables"@)),
{
    let len = buf.len();
    if len < 4 {
        return Err(DecodeError::Truncated);
    }
    let end: usize = len - 4;
    let root32 = read_u32(buf, end);
    if root32 as u64 + 5 > end as u64 {
        return Err(DecodeError::Truncated);
    }
    let root = root32 as usize;
    if *slice_index_get(buf, root) != MESSAGE_WITNESS {
        return Err(DecodeError::TypeMismatch);
    }
    let wit32 = read_u32(buf, root + 1);
    if wit32 as u64 + 5 > end as u64 {
        return Err(DecodeError::Truncated);
    }
    let wit = wit32 as usize;
    if *slice_index_get(buf, wit) != FIELD_PRESENT {
        return Err(DecodeError::MissingField("assigned_variables".to_owned()));
    }
    let tab32 = read_u32(buf, wit + 1);
    if tab32 as u64 + 12 > end as u64 {
        return Err(DecodeError::Truncated);
    }
    let tab = tab32 as usize;
    let n32 = read_u32(buf, tab);
    let ids_off32 = read_u32(buf, tab + 4);
    let offs_off32 = read_u32(buf, tab + 8);
    if ids_off32 as u64 + 8 * (n32 as u64) > end as u64 || offs_off32 as u64 + 4 * (n32 as u64)
        > end as u64 {
        return Err(DecodeError::Truncated);
    }
    let n = n32 as usize;
    let ids_off = ids_off32 as usize;
    let offs_off = offs_off32 as usize;
    let mut acc_ids: Vec<u64> = Vec::new();
    let mut acc_vals: Vec<Vec<u8>> = Vec::new();
    proof {
        assert(acc_vals.deep_view() =~= Seq::<Seq<u8>>::empty());
        assert(acc_ids@ =~= Seq::<u64>::empty());
    }
    let mut i: usize = 0;
    while i < n
        invariant
            i <= n,
            len == buf@.len(),
            4 <= len,
            end == len - 4,
            n == n32 as usize,
            ids_off == ids_off32 as usize,
            offs_off == offs_off32 as usize,
            ids_off + 8 * n <= end,
            offs_off + 4 * n <= end,
            acc_ids@.len() == i,
            acc_vals@.len() == i,
            parse_entries(buf@, end as int, ids_off as int, offs_off as int, i as int) == Some(
                (acc_ids@, acc_vals.deep_view()),
            ),
        decreases n - i,
    {
        let voff32 = read_u32(buf, offs_off + 4 * i);
        if voff32 as u64 + 4 > end as u64 {
            proof {
                assert(parse_entries(
                    buf@,
                    end as int,
                    ids_off as int,
                    offs_off as int,
                    i as int + 1,
                ) is None);
                lemma_parse_entries_none(
                    buf@,
                    end as int,
                    ids_off as int,
                    offs_off as int,
                    i as int + 1,
                    n as int,
                );
            }
            return Err(DecodeError::Truncated);
        }
        let voff = voff32 as usize;
        let vlen32 = read_u32(buf, voff);
        if voff as u64 + 4 + vlen32 as u64 > end as u64 {
            proof {
                assert(parse_entries(
                    buf@,
                    end as int,
                    ids_off as int,
                    offs_off as int,
                    i as int + 1,
                ) is None);
                lemma_parse_entries_none(
                    buf@,
                    end as int,
                    ids_off as int,
                    offs_off as int,
                    i as int + 1,
                    n as int,
                );
            }
            return Err(DecodeError::Truncated);
        }
        let vlen = vlen32 as usize;
        let value = slice_to_vec(slice_subrange(buf, voff + 4, voff + 4 + vlen));
        let id = read_u64(buf, ids_off + 8 * i);
        let ghost dv = acc_vals.deep_view();
        acc_ids.push(id);
        acc_vals.push(value);
        proof {
            assert(acc_vals.deep_view() =~~= dv.push(buf@.subrange(
                voff as int + 4,
                voff as int + 4 + vlen as int,
            )));
            assert(parse_entries(buf@, end as int, ids_off as int, offs_off as int, i as int + 1)
                == Some((acc_ids@, acc_vals.deep_view())));
        }
        i += 1;
    }
    let w = WitnessOwned { assigned_variables: VariablesOwned { ids: acc_ids, values: acc_vals } };
    proof {
        assert(decode_model(buf@) == (WireDecode::Witness { ids: w@.0, values: w@.1 }));
    }
    Ok(w)
}

} // verus!
