//! Runtime access to one packed record of a type not known at compile time.
//!
//! A [`DynamicStructure`] owns a buffer of exactly the descriptor's size and
//! the descriptor's resolved field map.  The map is resolved once, at
//! construction; the buffer may later be replaced wholesale by another
//! snapshot of the same length.  Field-level reads and writes are layered
//! above this type, out of the resolved offsets and kinds it exposes.

use vstd::prelude::*;
use vstd::slice::slice_to_vec;
use crate::error::SchemaError;
use crate::registry::DescView;
use crate::registry::FrcStructDesc;
use crate::registry::FrcStructDescDB;
use crate::schema::FieldEntry;
use crate::schema::SpecFieldEntry;
use crate::schema::resolve_descriptor;
use crate::schema::spec_resolve_descriptor;

verus! {

/// The mathematical content of a dynamic structure.
pub struct DynView {
    pub desc: DescView,
    pub buffer: Seq<u8>,
    pub fields: Seq<SpecFieldEntry>,
}

/// One packed record, its descriptor, and the descriptor's resolved field
/// map.
#[derive(Debug)]
pub struct DynamicStructure {
    desc: FrcStructDesc,
    buffer: Vec<u8>,
    map: Vec<FieldEntry>,
}

impl View for DynamicStructure {
    type V = DynView;

    closed spec fn view(&self) -> DynView {
        DynView { desc: self.desc@, buffer: self.buffer@, fields: self.map.deep_view() }
    }
}

impl DynamicStructure {
    /// The buffer always holds exactly one record of the descriptor's size,
    /// and the field map is the descriptor's resolved schema.
    pub open spec fn wf(self) -> bool {
        self@.buffer.len() == self@.desc.size
    }

    /// Builds a view over one packed record.  Fails with `SizeMismatch`
    /// where the buffer length is not exactly the descriptor's size, and
    /// with the schema's own error where the descriptor does not resolve
    /// against the catalog; nothing is constructed on failure.
    pub fn try_new(desc: &FrcStructDesc, catalog: &FrcStructDescDB, buffer: Vec<u8>) -> (r: Result<
        DynamicStructure,
        SchemaError,
    >)
        ensures
            match r {
                Ok(d) => buffer@.len() == desc@.size && spec_resolve_descriptor(desc@, catalog@)
                    == Ok::<_, SchemaError>(d@.fields) && d@.desc == desc@ && d@.buffer == buffer@
                    && d.wf(),
                Err(e) => if buffer@.len() != desc@.size {
                    e == SchemaError::SizeMismatch
                } else {
                    spec_resolve_descriptor(desc@, catalog@) == Err::<Seq<SpecFieldEntry>, _>(e)
                },
            },
    {
        if buffer.len() != desc.size {
            return Err(SchemaError::SizeMismatch);
        }
        match resolve_descriptor(desc, catalog) {
            Err(e) => Err(e),
            Ok(map) => {
                let copy: FrcStructDesc = FrcStructDesc {
                    schema: desc.schema.clone(),
                    type_str: desc.type_str.clone(),
                    size: desc.size,
                };
                Ok(DynamicStructure { desc: copy, buffer, map })
            },
        }
    }

    /// The description of the record's structure type.
    pub fn description(&self) -> (r: &FrcStructDesc)
        ensures
            r@ == self@.desc,
    {
        &self.desc
    }

    /// The resolved field map: every field's dotted path, byte offset and
    /// primitive kind, in declaration order.
    pub fn fields(&self) -> (r: &Vec<FieldEntry>)
        ensures
            r.deep_view() == self@.fields,
    {
        &self.map
    }

    /// The bytes of the record.
    pub fn buffer(&self) -> (r: &Vec<u8>)
        ensures
            r@ == self@.buffer,
    {
        &self.buffer
    }

    /// Replaces the whole record with a fresh snapshot.  Fails with
    /// `SizeMismatch` -- changing nothing -- where the new bytes are not
    /// exactly as long as the current buffer.
    pub fn update(&mut self, new: &[u8]) -> (r: Result<(), SchemaError>)
        ensures
            match r {
                Ok(()) => new@.len() == old(self)@.buffer.len() && final(self)@.buffer == new@
                    && final(self)@.desc == old(self)@.desc && final(self)@.fields == old(
                    self,
                )@.fields && (old(self).wf() ==> final(self).wf()),
                Err(e) => e == SchemaError::SizeMismatch && new@.len() != old(
                    self,
                )@.buffer.len() && final(self)@ == old(self)@,
            },
    {
        if new.len() != self.buffer.len() {
            return Err(SchemaError::SizeMismatch);
        }
        self.buffer = slice_to_vec(new);
        Ok(())
    }
}

} // verus!
