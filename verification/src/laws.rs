//! The codec's laws, stated over the byte-level model and proved once; the
//! executable functions' contracts tie every call to these statements.

use crate::wire::decode_model;
use crate::wire::encode_bytes;
use crate::wire::encoded_size;
use crate::wire::framed_bytes;
use crate::wire::lemma_decode_encode;
use crate::wire::lemma_encode_layout;
use crate::wire::root_start;
use crate::wire::u32_at;
use crate::wire::unframed;
use crate::wire::WireDecode;
use crate::wire::MESSAGE_WITNESS;
use crate::witness::WitnessOwned;
use vstd::bytes::lemma_auto_spec_u32_to_from_le_bytes;
use vstd::bytes::spec_u32_to_le_bytes;
use vstd::prelude::*;

verus! {

/// Round trip: decoding the encoding of any well-formed witness — the empty
/// one included — yields exactly its assignments, ids and values alike, in
/// the original order.  `encode` returns `encode_bytes(w@.0, w@.1)`, and
/// `decode` returns what `decode_model` says of its input, so any decode of
/// any encode of `w` succeeds with a witness whose view equals `w`'s.
pub proof fn lemma_round_trip(w: WitnessOwned)
    requires
        w.wf(),
        encoded_size(w@.1) <= u32::MAX,
    ensures
        decode_model(encode_bytes(w@.0, w@.1)) == (WireDecode::Witness {
            ids: w@.0,
            values: w@.1,
        }),
{
    lemma_decode_encode(w@.0, w@.1);
}

/// Framing correctness: reading a framed message back yields exactly the
/// framed envelope bytes, so `read_framed(write_framed(encode(w)))` returns
/// `encode(w)` unchanged.
pub proof fn lemma_framing_round_trip(e: Seq<u8>)
    requires
        e.len() <= u32::MAX,
    ensures
        unframed(framed_bytes(e)) == Some(e),
{
    lemma_auto_spec_u32_to_from_le_bytes();
    let f = framed_bytes(e);
    assert(f.subrange(0, 4) =~= spec_u32_to_le_bytes(e.len() as u32));
    assert(f.subrange(4, 4 + e.len() as int) =~= e);
}

/// Determinism: the encoded bytes are a function of the witness value alone,
/// so encoding the same value twice — each time with a fresh builder, as
/// `encode` does — produces byte-identical envelopes.
pub proof fn lemma_encode_deterministic(w1: WitnessOwned, w2: WitnessOwned)
    requires
        w1@ == w2@,
    ensures
        encode_bytes(w1@.0, w1@.1) == encode_bytes(w2@.0, w2@.1),
{
}

/// Truncation safety: no proper prefix of a framed message unframes; the
/// read path fails with a truncation error rather than yielding a short or
/// partial envelope.
pub proof fn lemma_truncation_safety(e: Seq<u8>, k: int)
    requires
        e.len() <= u32::MAX,
        0 <= k < framed_bytes(e).len(),
    ensures
        unframed(framed_bytes(e).take(k)) is None,
{
    lemma_auto_spec_u32_to_from_le_bytes();
    let f = framed_bytes(e);
    let p = f.take(k);
    if k >= 4 {
        assert(p.subrange(0, 4) =~= spec_u32_to_le_bytes(e.len() as u32));
        assert(4 + (u32_at(p, 0) as int) > p.len());
    }
}

/// Tag integrity: corrupting the envelope's `message_type` to any other tag
/// value makes decoding fail with a type mismatch — the payload is never
/// misinterpreted, however well it still parses structurally.
pub proof fn lemma_tag_integrity(w: WitnessOwned, t: u8)
    requires
        w.wf(),
        encoded_size(w@.1) <= u32::MAX,
        t != MESSAGE_WITNESS,
    ensures
        decode_model(encode_bytes(w@.0, w@.1).update(root_start(w@.1), t)) is TypeMismatch,
{
    let ids = w@.0;
    let vals = w@.1;
    lemma_encode_layout(ids, vals);
    let e = encode_bytes(ids, vals);
    let c = e.update(root_start(vals), t);
    assert(c.subrange(encoded_size(vals) - 4, encoded_size(vals)) =~= e.subrange(
        encoded_size(vals) - 4,
        encoded_size(vals),
    ));
    assert(u32_at(c, c.len() - 4) == u32_at(e, e.len() - 4));
    assert(c[root_start(vals)] == t);
}

} // verus!
