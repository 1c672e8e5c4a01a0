//! The owned witness message and its encoder.

use crate::builder::Builder;
use crate::variables::VariablesOwned;
use crate::wire::encode_bytes;
use crate::wire::encoded_size;
use crate::wire::ids_section;
use crate::wire::lemma_ids_section_len;
use crate::wire::lemma_offsets_vector_len;
use crate::wire::lemma_value_offset_succ;
use crate::wire::lemma_values_section_take_succ;
use crate::wire::offsets_vector;
use crate::wire::root_start;
use crate::wire::table_bytes;
use crate::wire::table_start;
use crate::wire::values_section;
use crate::wire::FIELD_PRESENT;
use crate::wire::MESSAGE_WITNESS;
use vstd::bytes::lemma_auto_spec_u32_to_from_le_bytes;
use vstd::prelude::*;

verus! {

/// A witness: the ordered variable assignments satisfying a circuit, owned
/// independently of any wire buffer.
#[derive(Clone, Debug)]
pub struct WitnessOwned {
    /// The witness's one field: its assigned variables.
    pub assigned_variables: VariablesOwned,
}

impl PartialEq for WitnessOwned {
    /// Structural equality: two witnesses are equal exactly when their
    /// assignment lists are equal element-wise and in order.
    fn eq(&self, other: &Self) -> (r: bool) {
        self.assigned_variables == other.assigned_variables
    }
}

impl vstd::std_specs::cmp::PartialEqSpecImpl for WitnessOwned {
    open spec fn obeys_eq_spec() -> bool {
        true
    }

    open spec fn eq_spec(&self, other: &Self) -> bool {
        self@ == other@
    }
}

impl Default for WitnessOwned {
    /// The empty witness: zero assignments.  It is a valid encoder input and
    /// round-trips like any other witness.
    fn default() -> (r: Self)
        ensures
            r.wf(),
            r@.0 == Seq::<u64>::empty(),
            r@.1 == Seq::<Seq<u8>>::empty(),
    {
        WitnessOwned { assigned_variables: VariablesOwned::new() }
    }
}

impl View for WitnessOwned {
    type V = (Seq<u64>, Seq<Seq<u8>>);

    open spec fn view(&self) -> Self::V {
        self.assigned_variables@
    }
}

impl WitnessOwned {
    /// The underlying columns are parallel.
    pub open spec fn wf(&self) -> bool {
        self.assigned_variables.wf()
    }

    /// Adds this witness to the arena: the variables bottom-up first, then
    /// the witness table referencing them, then the envelope root carrying
    /// the witness `message_type` tag.  Returns the root's offset.
    pub fn build(&self, b: &mut Builder) -> (off: u32)
        requires
            old(b)@.len() == 0,
            self.wf(),
            encoded_size(self@.1) <= u32::MAX,
        ensures
            final(b)@ == values_section(self@.1) + offsets_vector(self@.1, self@.1.len() as int)
                + ids_section(self@.0, self@.1.len() as int) + table_bytes(self@.1)
                + crate::wire::witness_bytes(self@.1) + crate::wire::root_bytes(self@.1),
            off == root_start(self@.1),
    {
        let ghost vals = self@.1;
        let ghost gids = self@.0;
        let tab = self.assigned_variables.build(b);
        proof {
            lemma_auto_spec_u32_to_from_le_bytes();
            lemma_offsets_vector_len(vals, vals.len() as int);
            lemma_ids_section_len(gids, vals.len() as int);
            assert(b@.len() == table_start(vals) + 12);
        }
        let wit = b.offset();
        b.push_u8(FIELD_PRESENT);
        b.push_u32(tab);
        proof {
            assert(b@ =~= values_section(vals) + offsets_vector(vals, vals.len() as int)
                + ids_section(gids, vals.len() as int) + table_bytes(vals)
                + crate::wire::witness_bytes(vals));
        }
        let root = b.offset();
        b.push_u8(MESSAGE_WITNESS);
        b.push_u32(wit);
        proof {
            assert(b@ =~= values_section(vals) + offsets_vector(vals, vals.len() as int)
                + ids_section(gids, vals.len() as int) + table_bytes(vals)
                + crate::wire::witness_bytes(vals) + crate::wire::root_bytes(vals));
        }
        root
    }
}

/// Serializes a witness into one self-contained envelope buffer, using a
/// fresh arena: children first, then the tables that reference them, then
/// the tagged root, and last the trailer that locates the root.
pub fn encode(w: &WitnessOwned) -> (r: Vec<u8>)
    requires
        w.wf(),
        encoded_size(w@.1) <= u32::MAX,
    ensures
        r@ == encode_bytes(w@.0, w@.1),
{
    let mut b = Builder::new();
    let root = w.build(&mut b);
    b.push_u32(root);
    proof {
        assert(b@ =~= encode_bytes(w@.0, w@.1));
    }
    b.into_bytes()
}

/// Serializes a witness if it can be serialized at all: the columns must be
/// parallel and the envelope must fit the 32-bit offsets of the wire format.
/// Returns `None` exactly when one of the two fails.
pub fn try_encode(w: &WitnessOwned) -> (r: Option<Vec<u8>>)
    ensures
        w.wf() && encoded_size(w@.1) <= u32::MAX ==> (r matches Some(v) && v@ == encode_bytes(
            w@.0,
            w@.1,
        )),
        !(w.wf() && encoded_size(w@.1) <= u32::MAX) ==> r is None,
{
    let ghost vals = w@.1;
    if w.assigned_variables.ids.len() != w.assigned_variables.values.len() {
        return None;
    }
    let n = w.assigned_variables.values.len();
    let mut sz: u64 = 26;
    let mut i: usize = 0;
    while i < n
        invariant
            i <= n,
            n == w.assigned_variables.values.len(),
            n == w.assigned_variables.ids.len(),
            vals == w@.1,
            sz == 26 + 12 * i + values_section(vals.take(i as int)).len(),
            sz <= u32::MAX,
        decreases n - i,
    {
        proof {
            lemma_value_offset_succ(vals, i as int);
            lemma_values_section_take_succ(vals, i as int);
            assert(vals[i as int] =~= w.assigned_variables.values@[i as int]@);
            lemma_auto_spec_u32_to_from_le_bytes();
        }
        let l = w.assigned_variables.values[i].len();
        if l as u64 > 0xffff_ffff || sz + 16 + (l as u64) > 0xffff_ffff {
            proof {
                lemma_section_growth(vals, i as int + 1);
                assert(encoded_size(vals) > u32::MAX);
            }
            return None;
        }
        sz = sz + 16 + (l as u64);
        i += 1;
    }
    proof {
        assert(vals.take(n as int) =~= vals);
        assert(encoded_size(vals) == sz);
    }
    Some(encode(w))
}

/// The envelope only grows as entries are added: what the first `k` entries
/// already cost bounds the size of the whole envelope from below.
proof fn lemma_section_growth(vals: Seq<Seq<u8>>, k: int)
    requires
        0 <= k <= vals.len(),
    ensures
        encoded_size(vals) >= 26 + 12 * k + values_section(vals.take(k)).len(),
    decreases vals.len() - k,
{
    if k == vals.len() {
        assert(vals.take(k) =~= vals);
    } else {
        lemma_value_offset_succ(vals, k);
        lemma_section_growth(vals, k + 1);
    }
}

} // verus!
