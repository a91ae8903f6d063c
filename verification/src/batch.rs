//! A homogeneous array of packed structures.
//!
//! A [`FrcStructureBytes`] couples a descriptor with an element count and a
//! byte buffer holding that many packed records back to back.  Construction
//! validates that the buffer length is exactly `size * count`; the container
//! itself never packs or unpacks -- that is the codec contract's job,
//! applied once per `size`-byte element.

use vstd::prelude::*;
use vstd::slice::slice_subrange;
use crate::codec::FrcStructure;
use crate::codec::lemma_pack_seq_len;
use crate::codec::lemma_pack_seq_round_trip;
use crate::codec::spec_pack_seq;
use crate::error::SchemaError;
use crate::registry::DescView;
use crate::registry::FrcStructDesc;

verus! {

/// The mathematical content of a batch.
pub struct BatchView {
    pub desc: DescView,
    pub count: nat,
    pub data: Seq<u8>,
}

/// Any number of same-typed packed structures in a single buffer, coupled
/// with their descriptor and count.
#[derive(Debug)]
pub struct FrcStructureBytes {
    desc: FrcStructDesc,
    count: usize,
    data: Vec<u8>,
}

impl View for FrcStructureBytes {
    type V = BatchView;

    closed spec fn view(&self) -> BatchView {
        BatchView { desc: self.desc@, count: self.count as nat, data: self.data@ }
    }
}

/// The product of two factors bounded by `u64::MAX` stays within `u128`.
proof fn lemma_usize_product_fits_u128(a: u128, b: u128)
    requires
        a <= u64::MAX,
        b <= u64::MAX,
    ensures
        a * b <= u64::MAX * u64::MAX,
{
    assert(a * b <= u64::MAX * u64::MAX) by (nonlinear_arith)
        requires
            0 <= a <= u64::MAX,
            0 <= b <= u64::MAX,
    ;
}

impl FrcStructureBytes {
    /// The buffer holds exactly `count` records of the descriptor's size.
    pub open spec fn wf(self) -> bool {
        self@.data.len() == self@.desc.size * self@.count
    }

    /// Builds a batch from a descriptor, a record count and an
    /// already-packed buffer.  Fails with `SizeMismatch` -- constructing
    /// nothing -- unless the buffer length is exactly the descriptor's size
    /// times the count.
    pub fn from_parts(desc: &FrcStructDesc, count: usize, data: Vec<u8>) -> (r: Result<
        FrcStructureBytes,
        SchemaError,
    >)
        ensures
            match r {
                Ok(b) => data@.len() == desc@.size * count && b@.desc == desc@ && b@.count == count
                    && b@.data == data@ && b.wf(),
                Err(e) => e == SchemaError::SizeMismatch && data@.len() != desc@.size * count,
            },
    {
        proof {
            lemma_usize_product_fits_u128(desc.size as u128, count as u128);
        }
        let expected: u128 = (desc.size as u128) * (count as u128);
        if (data.len() as u128) != expected {
            return Err(SchemaError::SizeMismatch);
        }
        let copy: FrcStructDesc = FrcStructDesc {
            schema: desc.schema.clone(),
            type_str: desc.type_str.clone(),
            size: desc.size,
        };
        Ok(FrcStructureBytes { desc: copy, count, data })
    }

    /// The description of the structure type and layout.
    pub fn desc(&self) -> (r: &FrcStructDesc)
        ensures
            r@ == self@.desc,
    {
        &self.desc
    }

    /// The number of structs packed into the buffer.
    pub fn count(&self) -> (r: usize)
        ensures
            r == self@.count,
    {
        self.count
    }

    /// The binary data of the structs.
    pub fn data(&self) -> (r: &Vec<u8>)
        ensures
            r@ == self@.data,
    {
        &self.data
    }

    /// Every element of a well-formed batch lies within the buffer: the
    /// bytes of record `i` end at or before the buffer's end, so each of the
    /// `count` records can be unpacked independently.
    pub proof fn lemma_element_in_bounds(self, i: int)
        requires
            self.wf(),
            0 <= i < self@.count,
        ensures
            (i + 1) * self@.desc.size <= self@.data.len(),
            i * self@.desc.size >= 0,
    {
        vstd::arithmetic::mul::lemma_mul_inequality(i + 1, self@.count as int, self@.desc.size as int);
        vstd::arithmetic::mul::lemma_mul_nonnegative(i, self@.desc.size as int);
        assert(self@.count as int * self@.desc.size as int == self@.desc.size as int
            * self@.count as int) by (nonlinear_arith);
        assert((i + 1) * self@.desc.size as int == i * self@.desc.size as int + self@.desc.size)
            by (nonlinear_arith);
    }

    /// The packed-batch round-trip law: in a batch whose buffer holds
    /// `values` packed back to back under a descriptor of their size, the
    /// bytes of record `i` are exactly `values[i]`'s byte image and unpack
    /// to `values[i]` bit for bit -- every one of the `count` records is
    /// independently unpackable.
    pub proof fn lemma_batch_round_trip<T: FrcStructure>(&self, values: Seq<T>, i: int)
        requires
            self@.desc.size == T::spec_size(),
            self@.count == values.len(),
            self@.data == spec_pack_seq(values),
            0 <= i < values.len(),
        ensures
            self.wf(),
            self@.data.subrange(
                i * self@.desc.size as int,
                i * self@.desc.size as int + self@.desc.size,
            ) == values[i].spec_pack(),
            T::spec_unpack(
                self@.data.subrange(
                    i * self@.desc.size as int,
                    i * self@.desc.size as int + self@.desc.size,
                ),
            ) == values[i],
    {
        lemma_pack_seq_len::<T>(values);
        assert(values.len() * T::spec_size() == T::spec_size() * values.len())
            by (nonlinear_arith);
        lemma_pack_seq_round_trip::<T>(values, i);
    }

    /// The bytes of record `i`: the `size`-byte slice starting at
    /// `i * size`.
    pub fn element(&self, i: usize) -> (r: &[u8])
        requires
            self.wf(),
            i < self@.count,
        ensures
            r@ == self@.data.subrange(
                i * self@.desc.size as int,
                i * self@.desc.size as int + self@.desc.size,
            ),
            r@.len() == self@.desc.size,
    {
        let _total: usize = self.data.len();
        proof {
            self.lemma_element_in_bounds(i as int);
            assert((i + 1) * self@.desc.size as int == i * self@.desc.size as int
                + self@.desc.size) by (nonlinear_arith);
        }
        let start: usize = i * self.desc.size;
        let end: usize = start + self.desc.size;
        slice_subrange(self.data.as_slice(), start, end)
    }
}

} // verus!
