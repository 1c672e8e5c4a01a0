//! Owned, buffer-independent model of a witness's variable assignments.

use crate::builder::Builder;
use crate::wire::encoded_size;
use crate::wire::ids_section;
use crate::wire::ids_start;
use crate::wire::lemma_ids_section_len;
use crate::wire::lemma_offsets_vector_len;
use crate::wire::lemma_value_offset_le_total;
use crate::wire::lemma_value_offset_succ;
use crate::wire::lemma_values_section_take_succ;
use crate::wire::offsets_vector;
use crate::wire::offsets_vector_start;
use crate::wire::table_bytes;
use crate::wire::table_start;
use crate::wire::value_offset;
use crate::wire::values_section;
use vstd::bytes::spec_u32_to_le_bytes;
use vstd::bytes::spec_u64_to_le_bytes;
use vstd::prelude::*;
use vstd::std_specs::cmp::PartialEqSpec;

verus! {

/// An ordered list of variable assignments, kept as two parallel columns:
/// `ids[i]` is assigned the byte string `values[i]`.  Insertion order is
/// preserved and is the only correlation between an id and its value; ids are
/// not required to be unique, and duplicates stay as independent entries.
#[derive(Clone, Debug)]
pub struct VariablesOwned {
    /// The variable ids, in insertion order.
    pub ids: Vec<u64>,
    /// The value byte strings, parallel to `ids`.
    pub values: Vec<Vec<u8>>,
}

impl View for VariablesOwned {
    type V = (Seq<u64>, Seq<Seq<u8>>);

    open spec fn view(&self) -> Self::V {
        (self.ids@, self.values.deep_view())
    }
}

impl PartialEq for VariablesOwned {
    /// Structural equality: the two ordered assignment lists are compared
    /// element-wise, ids and values alike.
    fn eq(&self, other: &Self) -> (r: bool) {
        let r = self.ids == other.ids && self.values == other.values;
        proof {
            if r {
                assert(self.ids@ =~= other.ids@);
                assert(self.values.deep_view() =~~= other.values.deep_view());
            } else if self@ == other@ {
                assert(self.ids.eq_spec(&other.ids));
                assert(self.values.eq_spec(&other.values)) by {
                    assert(self.values.deep_view() == other.values.deep_view());
                    assert(self.values.deep_view().len() == self.values@.len());
                    assert(other.values.deep_view().len() == other.values@.len());
                    assert forall|i: int| #![auto] 0 <= i < self.values@.len() implies self
                        .values[i].eq_spec(&other.values[i]) by {
                        assert(self.values.deep_view()[i] == other.values.deep_view()[i]);
                        assert(self.values.deep_view()[i] == self.values[i].deep_view());
                        assert(other.values.deep_view()[i] == other.values[i].deep_view());
                        assert(self.values[i].deep_view() =~= self.values[i]@);
                        assert(other.values[i].deep_view() =~= other.values[i]@);
                        assert(self.values[i]@ == other.values[i]@);
                    }
                }
            }
        }
        r
    }
}

impl vstd::std_specs::cmp::PartialEqSpecImpl for VariablesOwned {
    open spec fn obeys_eq_spec() -> bool {
        true
    }

    open spec fn eq_spec(&self, other: &Self) -> bool {
        self@ == other@
    }
}

impl Default for VariablesOwned {
    /// The empty assignment list.
    fn default() -> (r: Self)
        ensures
            r.wf(),
            r@.0 == Seq::<u64>::empty(),
            r@.1 == Seq::<Seq<u8>>::empty(),
    {
        VariablesOwned::new()
    }
}

impl VariablesOwned {
    /// The two columns are parallel: one value per id.
    pub open spec fn wf(&self) -> bool {
        self.ids@.len() == self.values@.len()
    }

    /// An empty assignment list.
    pub fn new() -> (r: VariablesOwned)
        ensures
            r.wf(),
            r@.0 == Seq::<u64>::empty(),
            r@.1 == Seq::<Seq<u8>>::empty(),
    {
        let r = VariablesOwned { ids: Vec::new(), values: Vec::new() };
        proof {
            assert(r@.1 =~= Seq::<Seq<u8>>::empty());
        }
        r
    }

    /// Appends one assignment at the end, keeping insertion order.
    pub fn push(&mut self, id: u64, value: Vec<u8>)
        requires
            old(self).wf(),
        ensures
            final(self).wf(),
            final(self)@.0 == old(self)@.0.push(id),
            final(self)@.1 == old(self)@.1.push(value@),
    {
        let ghost gv = value@;
        let ghost before = self.values.deep_view();
        self.ids.push(id);
        self.values.push(value);
        proof {
            assert(self.values.deep_view() =~~= before.push(gv));
        }
    }

    /// Writes this list into the arena bottom-up: every value record first
    /// (each write returning the record's stable offset), then the vector of
    /// those offsets, then the ids, and only then the variables table that
    /// references the finished regions.  Returns the table's offset.
    pub fn build(&self, b: &mut Builder) -> (off: u32)
        requires
            old(b)@.len() == 0,
            self.wf(),
            encoded_size(self@.1) <= u32::MAX,
        ensures
            final(b)@ == values_section(self@.1) + offsets_vector(self@.1, self@.1.len() as int)
                + ids_section(self@.0, self@.1.len() as int) + table_bytes(self@.1),
            off == table_start(self@.1),
    {
        let ghost vals = self@.1;
        let ghost gids = self@.0;
        let n = self.values.len();
        proof {
            assert(vals.len() == n);
            assert(gids.len() == n);
        }
        let mut offs: Vec<u32> = Vec::new();
        let mut i: usize = 0;
        while i < n
            invariant
                i <= n,
                n == self.values.len(),
                n == self.ids.len(),
                vals == self@.1,
                gids == self@.0,
                encoded_size(vals) <= u32::MAX,
                b@ == values_section(vals.take(i as int)),
                offs@.len() == i,
                forall|j: int| 0 <= j < i ==> offs@[j] == value_offset(vals, j) as u32,
            decreases n - i,
        {
            proof {
                lemma_value_offset_succ(vals, i as int);
                lemma_value_offset_le_total(vals, i as int + 1);
                assert(vals[i as int] =~= self.values@[i as int]@);
            }
            let off_i = b.push_value(self.values[i].as_slice());
            proof {
                lemma_values_section_take_succ(vals, i as int);
            }
            offs.push(off_i);
            i += 1;
        }
        proof {
            assert(vals.take(n as int) =~= vals);
            lemma_value_offset_le_total(vals, n as int);
        }
        let offs_pos = b.offset();
        proof {
            assert(offs_pos == offsets_vector_start(vals));
        }
        i = 0;
        while i < n
            invariant
                i <= n,
                n == self.values.len(),
                n == self.ids.len(),
                vals == self@.1,
                gids == self@.0,
                encoded_size(vals) <= u32::MAX,
                offs@.len() == n,
                forall|j: int| 0 <= j < n ==> offs@[j] == value_offset(vals, j) as u32,
                b@ == values_section(vals) + offsets_vector(vals, i as int),
            decreases n - i,
        {
            let ghost bv = b@;
            b.push_u32(offs[i]);
            proof {
                lemma_value_offset_le_total(vals, i as int);
                assert(offsets_vector(vals, i as int + 1) == offsets_vector(vals, i as int)
                    + spec_u32_to_le_bytes(value_offset(vals, i as int) as u32));
                assert(b@ =~= values_section(vals) + offsets_vector(vals, i as int + 1));
            }
            i += 1;
        }
        proof {
            lemma_offsets_vector_len(vals, n as int);
        }
        let ids_pos = b.offset();
        proof {
            assert(ids_pos == ids_start(vals));
        }
        i = 0;
        while i < n
            invariant
                i <= n,
                n == self.values.len(),
                n == self.ids.len(),
                vals == self@.1,
                gids == self@.0,
                encoded_size(vals) <= u32::MAX,
                b@ == values_section(vals) + offsets_vector(vals, n as int) + ids_section(
                    gids,
                    i as int,
                ),
            decreases n - i,
        {
            b.push_u64(self.ids[i]);
            proof {
                assert(ids_section(gids, i as int + 1) == ids_section(gids, i as int)
                    + spec_u64_to_le_bytes(gids[i as int]));
                assert(b@ =~= values_section(vals) + offsets_vector(vals, n as int) + ids_section(
                    gids,
                    i as int + 1,
                ));
            }
            i += 1;
        }
        proof {
            lemma_ids_section_len(gids, n as int);
        }
        let tab_pos = b.offset();
        proof {
            assert(tab_pos == table_start(vals));
        }
        b.push_u32(n as u32);
        b.push_u32(ids_pos);
        b.push_u32(offs_pos);
        proof {
            assert(b@ =~= values_section(vals) + offsets_vector(vals, n as int) + ids_section(
                gids,
                n as int,
            ) + table_bytes(vals));
        }
        tab_pos
    }
}

} // verus!
