//! Byte-level model of the witness wire format.
//!
//! An encoded envelope is a single arena buffer that grows forward.  Children
//! are written before the structures that reference them, so every offset
//! stored in the buffer points backwards at a region that is already final:
//!
//! * each value: a 4-byte little-endian length followed by the value's bytes;
//! * a vector of 4-byte offsets, one per value record;
//! * the ids, 8 little-endian bytes each;
//! * the variables table: count, offset of the ids, offset of the value
//!   offsets vector;
//! * the witness table: a presence marker for its `assigned_variables` field
//!   and the offset of the variables table;
//! * the root: the `message_type` tag and the offset of the witness table;
//! * a trailer holding the offset of the root, so a reader can locate it.
//!
//! `decode_model` is the total mathematical decoder for this layout; the
//! executable encoder and decoder are specified against it and against
//! `encode_bytes`.

use vstd::bytes::*;
use vstd::prelude::*;

verus! {

broadcast use vstd::seq_lib::group_seq_properties;

/// Envelope tag reserved for a witness payload.
pub const MESSAGE_WITNESS: u8 = 3;

/// Marker stored in a witness table whose `assigned_variables` field is populated.
pub const FIELD_PRESENT: u8 = 1;

/// One serialized value: a 4-byte little-endian length, then the bytes.
pub open spec fn value_record(v: Seq<u8>) -> Seq<u8> {
    spec_u32_to_le_bytes(v.len() as u32) + v
}

/// The region holding every value record, in order.
pub open spec fn values_section(vals: Seq<Seq<u8>>) -> Seq<u8>
    decreases vals.len(),
{
    if vals.len() == 0 {
        Seq::empty()
    } else {
        values_section(vals.drop_last()) + value_record(vals.last())
    }
}

/// Arena offset at which the record of value `i` starts.
pub open spec fn value_offset(vals: Seq<Seq<u8>>, i: int) -> int {
    values_section(vals.take(i)).len() as int
}

/// The first `k` entries of the vector of value-record offsets.
pub open spec fn offsets_vector(vals: Seq<Seq<u8>>, k: int) -> Seq<u8>
    decreases k,
{
    if k <= 0 {
        Seq::empty()
    } else {
        offsets_vector(vals, k - 1) + spec_u32_to_le_bytes(value_offset(vals, k - 1) as u32)
    }
}

/// The first `k` ids, 8 little-endian bytes each.
pub open spec fn ids_section(ids: Seq<u64>, k: int) -> Seq<u8>
    decreases k,
{
    if k <= 0 {
        Seq::empty()
    } else {
        ids_section(ids, k - 1) + spec_u64_to_le_bytes(ids[k - 1])
    }
}

/// Arena offset of the vector of value-record offsets.
pub open spec fn offsets_vector_start(vals: Seq<Seq<u8>>) -> int {
    values_section(vals).len() as int
}

/// Arena offset of the ids.
pub open spec fn ids_start(vals: Seq<Seq<u8>>) -> int {
    values_section(vals).len() + 4 * vals.len() as int
}

/// Arena offset of the variables table.
pub open spec fn table_start(vals: Seq<Seq<u8>>) -> int {
    values_section(vals).len() + 12 * vals.len() as int
}

/// Arena offset of the witness table.
pub open spec fn witness_start(vals: Seq<Seq<u8>>) -> int {
    table_start(vals) + 12
}

/// Arena offset of the root.
pub open spec fn root_start(vals: Seq<Seq<u8>>) -> int {
    table_start(vals) + 17
}

/// Size in bytes of the whole envelope.
pub open spec fn encoded_size(vals: Seq<Seq<u8>>) -> int {
    table_start(vals) + 26
}

/// The variables table: count, then the two offsets it references.
pub open spec fn table_bytes(vals: Seq<Seq<u8>>) -> Seq<u8> {
    spec_u32_to_le_bytes(vals.len() as u32) + spec_u32_to_le_bytes(ids_start(vals) as u32)
        + spec_u32_to_le_bytes(offsets_vector_start(vals) as u32)
}

/// The witness table: presence marker, then the variables table offset.
pub open spec fn witness_bytes(vals: Seq<Seq<u8>>) -> Seq<u8> {
    seq![FIELD_PRESENT] + spec_u32_to_le_bytes(table_start(vals) as u32)
}

/// The root: message tag, then the witness table offset.
pub open spec fn root_bytes(vals: Seq<Seq<u8>>) -> Seq<u8> {
    seq![MESSAGE_WITNESS] + spec_u32_to_le_bytes(witness_start(vals) as u32)
}

/// The whole envelope, children before parents and the root trailer last.
pub open spec fn encode_bytes(ids: Seq<u64>, vals: Seq<Seq<u8>>) -> Seq<u8> {
    values_section(vals) + offsets_vector(vals, vals.len() as int) + ids_section(
        ids,
        vals.len() as int,
    ) + table_bytes(vals) + witness_bytes(vals) + root_bytes(vals) + spec_u32_to_le_bytes(
        root_start(vals) as u32,
    )
}

/// The 32-bit little-endian integer stored at position `p`.
pub open spec fn u32_at(b: Seq<u8>, p: int) -> u32 {
    spec_u32_from_le_bytes(b.subrange(p, p + 4))
}

/// The 64-bit little-endian integer stored at position `p`.
pub open spec fn u64_at(b: Seq<u8>, p: int) -> u64 {
    spec_u64_from_le_bytes(b.subrange(p, p + 8))
}

/// Everything a decoder can say of an envelope buffer.
pub ghost enum WireDecode {
    /// A well-formed witness envelope, with its ids and values in wire order.
    Witness { ids: Seq<u64>, values: Seq<Seq<u8>> },
    /// Some region the buffer points at lies outside the buffer.
    Truncated,
    /// The `message_type` tag is not the witness tag.
    TypeMismatch,
    /// The witness table's `assigned_variables` field is absent.
    MissingField,
}

/// The first `k` (id, value) entries read back through the offsets vector.
pub open spec fn parse_entries(
    b: Seq<u8>,
    end: int,
    ids_off: int,
    offs_off: int,
    k: int,
) -> Option<(Seq<u64>, Seq<Seq<u8>>)>
    decreases k,
{
    if k <= 0 {
        Some((Seq::empty(), Seq::empty()))
    } else {
        match parse_entries(b, end, ids_off, offs_off, k - 1) {
            Option::None => Option::None,
            Option::Some(acc) => {
                let voff = u32_at(b, offs_off + 4 * (k - 1)) as int;
                if voff + 4 > end {
                    Option::None
                } else {
                    let vlen = u32_at(b, voff) as int;
                    if voff + 4 + vlen > end {
                        Option::None
                    } else {
                        Some(
                            (
                                acc.0.push(u64_at(b, ids_off + 8 * (k - 1))),
                                acc.1.push(b.subrange(voff + 4, voff + 4 + vlen)),
                            ),
                        )
                    }
                }
            },
        }
    }
}

/// Total decoder for an envelope buffer: locate the root through the trailer,
/// check the tag, follow the offsets, and read every entry back; any region
/// out of bounds is a truncation.
pub open spec fn decode_model(b: Seq<u8>) -> WireDecode {
    if b.len() < 4 {
        WireDecode::Truncated
    } else {
        let end = b.len() - 4;
        let root = u32_at(b, b.len() - 4) as int;
        if root + 5 > end {
            WireDecode::Truncated
        } else if b[root] != MESSAGE_WITNESS {
            WireDecode::TypeMismatch
        } else {
            let wit = u32_at(b, root + 1) as int;
            if wit + 5 > end {
                WireDecode::Truncated
            } else if b[wit] != FIELD_PRESENT {
                WireDecode::MissingField
            } else {
                let tab = u32_at(b, wit + 1) as int;
                if tab + 12 > end {
                    WireDecode::Truncated
                } else {
                    let n = u32_at(b, tab) as int;
                    let ids_off = u32_at(b, tab + 4) as int;
                    let offs_off = u32_at(b, tab + 8) as int;
                    if ids_off + 8 * n > end || offs_off + 4 * n > end {
                        WireDecode::Truncated
                    } else {
                        match parse_entries(b, end, ids_off, offs_off, n) {
                            Option::Some(p) => WireDecode::Witness { ids: p.0, values: p.1 },
                            Option::None => WireDecode::Truncated,
                        }
                    }
                }
            }
        }
    }
}

/// A framed message: a 4-byte little-endian length prefix, then the envelope.
pub open spec fn framed_bytes(e: Seq<u8>) -> Seq<u8> {
    spec_u32_to_le_bytes(e.len() as u32) + e
}

/// What reading one framed message from `s` yields: the envelope the prefix
/// announces, or nothing when the buffer falls short of it.
pub open spec fn unframed(s: Seq<u8>) -> Option<Seq<u8>> {
    if s.len() < 4 {
        Option::None
    } else {
        let n = u32_at(s, 0) as int;
        if 4 + n > s.len() {
            Option::None
        } else {
            Some(s.subrange(4, 4 + n))
        }
    }
}

// ---- structure of the encoded buffer ----

/// Extending the value list by one appends exactly that value's record.
pub proof fn lemma_values_section_take_succ(vals: Seq<Seq<u8>>, i: int)
    requires
        0 <= i < vals.len(),
    ensures
        values_section(vals.take(i + 1)) == values_section(vals.take(i)) + value_record(vals[i]),
{
    let t = vals.take(i + 1);
    assert(t.drop_last() =~= vals.take(i));
    assert(t.last() == vals[i]);
}

/// Each value record starts right after the previous one ends.
pub proof fn lemma_value_offset_succ(vals: Seq<Seq<u8>>, i: int)
    requires
        0 <= i < vals.len(),
    ensures
        value_offset(vals, i + 1) == value_offset(vals, i) + 4 + vals[i].len(),
{
    lemma_auto_spec_u32_to_from_le_bytes();
    lemma_values_section_take_succ(vals, i);
}

/// Every record, and the gap up to it, lies inside the values section.
pub proof fn lemma_value_offset_le_total(vals: Seq<Seq<u8>>, i: int)
    requires
        0 <= i <= vals.len(),
    ensures
        value_offset(vals, i) <= values_section(vals).len(),
    decreases vals.len() - i,
{
    if i == vals.len() {
        assert(vals.take(i) =~= vals);
    } else {
        lemma_value_offset_succ(vals, i);
        lemma_value_offset_le_total(vals, i + 1);
    }
}

/// The offsets vector holds 4 bytes per value.
pub proof fn lemma_offsets_vector_len(vals: Seq<Seq<u8>>, k: int)
    requires
        0 <= k,
    ensures
        offsets_vector(vals, k).len() == 4 * k,
    decreases k,
{
    lemma_auto_spec_u32_to_from_le_bytes();
    if k > 0 {
        lemma_offsets_vector_len(vals, k - 1);
    }
}

/// The ids section holds 8 bytes per id.
pub proof fn lemma_ids_section_len(ids: Seq<u64>, k: int)
    requires
        0 <= k,
    ensures
        ids_section(ids, k).len() == 8 * k,
    decreases k,
{
    lemma_auto_spec_u64_to_from_le_bytes();
    if k > 0 {
        lemma_ids_section_len(ids, k - 1);
    }
}

/// Entry `i` of the offsets vector is the offset of value record `i`.
pub proof fn lemma_offsets_vector_at(vals: Seq<Seq<u8>>, k: int, i: int)
    requires
        0 <= i < k,
    ensures
        offsets_vector(vals, k).subrange(4 * i, 4 * i + 4) == spec_u32_to_le_bytes(
            value_offset(vals, i) as u32,
        ),
    decreases k,
{
    lemma_auto_spec_u32_to_from_le_bytes();
    lemma_offsets_vector_len(vals, k - 1);
    if i == k - 1 {
        assert(offsets_vector(vals, k).subrange(4 * i, 4 * i + 4) =~= spec_u32_to_le_bytes(
            value_offset(vals, i) as u32,
        ));
    } else {
        lemma_offsets_vector_at(vals, k - 1, i);
        assert(offsets_vector(vals, k).subrange(4 * i, 4 * i + 4) =~= offsets_vector(
            vals,
            k - 1,
        ).subrange(4 * i, 4 * i + 4));
    }
}

/// Entry `i` of the ids section is id `i`, little endian.
pub proof fn lemma_ids_section_at(ids: Seq<u64>, k: int, i: int)
    requires
        0 <= i < k,
    ensures
        ids_section(ids, k).subrange(8 * i, 8 * i + 8) == spec_u64_to_le_bytes(ids[i]),
    decreases k,
{
    lemma_auto_spec_u64_to_from_le_bytes();
    lemma_ids_section_len(ids, k - 1);
    if i == k - 1 {
        assert(ids_section(ids, k).subrange(8 * i, 8 * i + 8) =~= spec_u64_to_le_bytes(ids[i]));
    } else {
        lemma_ids_section_at(ids, k - 1, i);
        assert(ids_section(ids, k).subrange(8 * i, 8 * i + 8) =~= ids_section(
            ids,
            k - 1,
        ).subrange(8 * i, 8 * i + 8));
    }
}

/// The bytes at value record `i`'s offset are exactly that record.
pub proof fn lemma_values_section_at(vals: Seq<Seq<u8>>, i: int)
    requires
        0 <= i < vals.len(),
    ensures
        values_section(vals).subrange(
            value_offset(vals, i),
            value_offset(vals, i) + 4 + vals[i].len(),
        ) == value_record(vals[i]),
    decreases vals.len(),
{
    lemma_auto_spec_u32_to_from_le_bytes();
    let d = vals.drop_last();
    assert(values_section(vals) == values_section(d) + value_record(vals.last()));
    if i == vals.len() - 1 {
        assert(vals.take(i) =~= d);
        assert(values_section(vals).subrange(
            value_offset(vals, i),
            value_offset(vals, i) + 4 + vals[i].len(),
        ) =~= value_record(vals[i]));
    } else {
        lemma_values_section_at(d, i);
        assert(vals.take(i) =~= d.take(i));
        assert(vals.take(i + 1) =~= d.take(i + 1));
        lemma_value_offset_succ(vals, i);
        lemma_value_offset_le_total(d, i + 1);
        assert(values_section(vals).subrange(
            value_offset(vals, i),
            value_offset(vals, i) + 4 + vals[i].len(),
        ) =~= values_section(d).subrange(
            value_offset(d, i),
            value_offset(d, i) + 4 + d[i].len(),
        ));
    }
}

/// Where each piece of an encoded envelope lies, as the decoder will read it.
pub proof fn lemma_encode_layout(ids: Seq<u64>, vals: Seq<Seq<u8>>)
    requires
        ids.len() == vals.len(),
        encoded_size(vals) <= u32::MAX,
    ensures
        encode_bytes(ids, vals).len() == encoded_size(vals),
        u32_at(encode_bytes(ids, vals), encoded_size(vals) - 4) as int == root_start(vals),
        encode_bytes(ids, vals)[root_start(vals)] == MESSAGE_WITNESS,
        u32_at(encode_bytes(ids, vals), root_start(vals) + 1) as int == witness_start(vals),
        encode_bytes(ids, vals)[witness_start(vals)] == FIELD_PRESENT,
        u32_at(encode_bytes(ids, vals), witness_start(vals) + 1) as int == table_start(vals),
        u32_at(encode_bytes(ids, vals), table_start(vals)) as int == vals.len(),
        u32_at(encode_bytes(ids, vals), table_start(vals) + 4) as int == ids_start(vals),
        u32_at(encode_bytes(ids, vals), table_start(vals) + 8) as int == offsets_vector_start(
            vals,
        ),
{
    lemma_auto_spec_u32_to_from_le_bytes();
    lemma_auto_spec_u64_to_from_le_bytes();
    let n = vals.len() as int;
    lemma_offsets_vector_len(vals, n);
    lemma_ids_section_len(ids, n);
    let e = encode_bytes(ids, vals);
    assert(e.len() == encoded_size(vals));
    assert(e.subrange(encoded_size(vals) - 4, encoded_size(vals)) =~= spec_u32_to_le_bytes(
        root_start(vals) as u32,
    ));
    assert(e[root_start(vals)] == MESSAGE_WITNESS);
    assert(e.subrange(root_start(vals) + 1, root_start(vals) + 5) =~= spec_u32_to_le_bytes(
        witness_start(vals) as u32,
    ));
    assert(e[witness_start(vals)] == FIELD_PRESENT);
    assert(e.subrange(witness_start(vals) + 1, witness_start(vals) + 5) =~= spec_u32_to_le_bytes(
        table_start(vals) as u32,
    ));
    assert(e.subrange(table_start(vals), table_start(vals) + 4) =~= spec_u32_to_le_bytes(
        vals.len() as u32,
    ));
    assert(e.subrange(table_start(vals) + 4, table_start(vals) + 8) =~= spec_u32_to_le_bytes(
        ids_start(vals) as u32,
    ));
    assert(e.subrange(table_start(vals) + 8, table_start(vals) + 12) =~= spec_u32_to_le_bytes(
        offsets_vector_start(vals) as u32,
    ));
}

/// What the decoder reads back for entry `i` of an encoded envelope.
pub proof fn lemma_encode_entry(ids: Seq<u64>, vals: Seq<Seq<u8>>, i: int)
    requires
        ids.len() == vals.len(),
        encoded_size(vals) <= u32::MAX,
        0 <= i < vals.len(),
    ensures
        u32_at(encode_bytes(ids, vals), offsets_vector_start(vals) + 4 * i) as int == value_offset(
            vals,
            i,
        ),
        value_offset(vals, i) + 4 + vals[i].len() <= values_section(vals).len(),
        vals[i].len() <= u32::MAX,
        u32_at(encode_bytes(ids, vals), value_offset(vals, i)) as int == vals[i].len(),
        encode_bytes(ids, vals).subrange(
            value_offset(vals, i) + 4,
            value_offset(vals, i) + 4 + vals[i].len(),
        ) == vals[i],
        u64_at(encode_bytes(ids, vals), ids_start(vals) + 8 * i) == ids[i],
{
    lemma_auto_spec_u32_to_from_le_bytes();
    lemma_auto_spec_u64_to_from_le_bytes();
    let n = vals.len() as int;
    lemma_offsets_vector_len(vals, n);
    lemma_ids_section_len(ids, n);
    let e = encode_bytes(ids, vals);
    let o = value_offset(vals, i);
    lemma_value_offset_succ(vals, i);
    lemma_value_offset_le_total(vals, i + 1);
    lemma_offsets_vector_at(vals, n, i);
    assert(e.subrange(offsets_vector_start(vals) + 4 * i, offsets_vector_start(vals) + 4 * i + 4)
        =~= offsets_vector(vals, n).subrange(4 * i, 4 * i + 4));
    lemma_values_section_at(vals, i);
    let vs = values_section(vals);
    let l = vals[i].len() as int;
    let rec = value_record(vals[i]);
    assert forall|j: int| 0 <= j < 4 + l implies vs[o + j] == rec[j] by {
        assert(vs.subrange(o, o + 4 + l)[j] == vs[o + j]);
    }
    assert(o + 4 + l <= vs.len());
    assert forall|p: int| 0 <= p < vs.len() implies e[p] == vs[p] by {}
    assert(e.subrange(o, o + 4) =~= spec_u32_to_le_bytes(vals[i].len() as u32)) by {
        let w = spec_u32_to_le_bytes(vals[i].len() as u32);
        assert forall|j: int| 0 <= j < 4 implies e.subrange(o, o + 4)[j] == w[j] by {
            assert(e.subrange(o, o + 4)[j] == e[o + j]);
            assert(e[o + j] == vs[o + j]);
            assert(vs[o + j] == rec[j]);
            assert(rec[j] == w[j]);
        }
    }
    assert(e.subrange(o + 4, o + 4 + l) =~= vals[i]) by {
        assert forall|j: int| 0 <= j < l implies e.subrange(o + 4, o + 4 + l)[j] == vals[i][j] by {
            assert(e.subrange(o + 4, o + 4 + l)[j] == e[o + 4 + j]);
            assert(e[o + 4 + j] == vs[o + 4 + j]);
            assert(vs[o + 4 + j] == rec[4 + j]);
            assert(rec[4 + j] == vals[i][j]);
        }
    }
    lemma_ids_section_at(ids, n, i);
    assert(e.subrange(ids_start(vals) + 8 * i, ids_start(vals) + 8 * i + 8) =~= ids_section(
        ids,
        n,
    ).subrange(8 * i, 8 * i + 8));
}

/// Reading the first `k` entries back from an encoded envelope yields the
/// first `k` encoded pairs.
pub proof fn lemma_parse_entries_encode(ids: Seq<u64>, vals: Seq<Seq<u8>>, k: int)
    requires
        ids.len() == vals.len(),
        encoded_size(vals) <= u32::MAX,
        0 <= k <= vals.len(),
    ensures
        parse_entries(
            encode_bytes(ids, vals),
            encoded_size(vals) - 4,
            ids_start(vals),
            offsets_vector_start(vals),
            k,
        ) == Some((ids.take(k), vals.take(k))),
    decreases k,
{
    let e = encode_bytes(ids, vals);
    let end = encoded_size(vals) - 4;
    if k <= 0 {
        assert(ids.take(0) =~= Seq::<u64>::empty());
        assert(vals.take(0) =~= Seq::<Seq<u8>>::empty());
    } else {
        lemma_parse_entries_encode(ids, vals, k - 1);
        lemma_encode_entry(ids, vals, k - 1);
        let voff = u32_at(e, offsets_vector_start(vals) + 4 * (k - 1)) as int;
        assert(voff == value_offset(vals, k - 1));
        assert(values_section(vals).len() <= table_start(vals));
        assert(ids.take(k) =~= ids.take(k - 1).push(ids[k - 1]));
        assert(vals.take(k) =~= vals.take(k - 1).push(vals[k - 1]));
    }
}

/// A failed entry read stays failed for any larger entry count.
pub proof fn lemma_parse_entries_none(
    b: Seq<u8>,
    end: int,
    ids_off: int,
    offs_off: int,
    k: int,
    n: int,
)
    requires
        0 <= k <= n,
        parse_entries(b, end, ids_off, offs_off, k) is None,
    ensures
        parse_entries(b, end, ids_off, offs_off, n) is None,
    decreases n,
{
    if n > k {
        lemma_parse_entries_none(b, end, ids_off, offs_off, k, n - 1);
    }
}

/// Decoding an encoded envelope recovers exactly the encoded pairs.
pub proof fn lemma_decode_encode(ids: Seq<u64>, vals: Seq<Seq<u8>>)
    requires
        ids.len() == vals.len(),
        encoded_size(vals) <= u32::MAX,
    ensures
        decode_model(encode_bytes(ids, vals)) == (WireDecode::Witness { ids, values: vals }),
{
    lemma_encode_layout(ids, vals);
    let e = encode_bytes(ids, vals);
    let n = vals.len() as int;
    lemma_parse_entries_encode(ids, vals, n);
    assert(ids.take(n) =~= ids);
    assert(vals.take(n) =~= vals);
}

} // verus!
