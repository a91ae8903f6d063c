//! Primitive field kinds and their fixed byte sizes.
//!
//! Each variant couples a primitive kind with an element count: a schema
//! field `int32 xs 4;` (or `int32 xs[4];`) is one `Int32(4)` entry occupying
//! `4 * 4` bytes.

use vstd::prelude::*;
use crate::strings::str_eq;

verus! {

/// A primitive schema field kind together with its element count.
#[derive(Debug, Clone, Copy, PartialEq, Eq, Structural)]
pub enum StructureFieldTypes {
    Bool(usize),
    Char(usize),
    Int8(usize),
    Int16(usize),
    Int32(usize),
    Int64(usize),
    UInt8(usize),
    UInt16(usize),
    UInt32(usize),
    UInt64(usize),
    Float32(usize),
    Float64(usize),
}

impl StructureFieldTypes {
    /// The size in bytes of a single element of this kind.
    pub open spec fn spec_base_size(self) -> nat {
        match self {
            StructureFieldTypes::Bool(_) => 1,
            StructureFieldTypes::Char(_) => 1,
            StructureFieldTypes::Int8(_) => 1,
            StructureFieldTypes::Int16(_) => 2,
            StructureFieldTypes::Int32(_) => 4,
            StructureFieldTypes::Int64(_) => 8,
            StructureFieldTypes::UInt8(_) => 1,
            StructureFieldTypes::UInt16(_) => 2,
            StructureFieldTypes::UInt32(_) => 4,
            StructureFieldTypes::UInt64(_) => 8,
            StructureFieldTypes::Float32(_) => 4,
            StructureFieldTypes::Float64(_) => 8,
        }
    }

    /// The element count carried by the variant.
    pub open spec fn spec_count(self) -> nat {
        match self {
            StructureFieldTypes::Bool(c) => c as nat,
            StructureFieldTypes::Char(c) => c as nat,
            StructureFieldTypes::Int8(c) => c as nat,
            StructureFieldTypes::Int16(c) => c as nat,
            StructureFieldTypes::Int32(c) => c as nat,
            StructureFieldTypes::Int64(c) => c as nat,
            StructureFieldTypes::UInt8(c) => c as nat,
            StructureFieldTypes::UInt16(c) => c as nat,
            StructureFieldTypes::UInt32(c) => c as nat,
            StructureFieldTypes::UInt64(c) => c as nat,
            StructureFieldTypes::Float32(c) => c as nat,
            StructureFieldTypes::Float64(c) => c as nat,
        }
    }

    /// The total size in bytes of the field: base size times element count.
    pub open spec fn spec_total_size(self) -> nat {
        self.spec_base_size() * self.spec_count()
    }

    /// The kind that a primitive type keyword names, or `None` where the
    /// word is no primitive keyword.  `float` and `float32` name the same
    /// four-byte kind; `double` and `float64` the same eight-byte kind.
    pub open spec fn spec_from_type(name: Seq<char>, count: usize) -> Option<
        StructureFieldTypes,
    > {
        if name == "bool"@ {
            Some(StructureFieldTypes::Bool(count))
        } else if name == "char"@ {
            Some(StructureFieldTypes::Char(count))
        } else if name == "int8"@ {
            Some(StructureFieldTypes::Int8(count))
        } else if name == "int16"@ {
            Some(StructureFieldTypes::Int16(count))
        } else if name == "int32"@ {
            Some(StructureFieldTypes::Int32(count))
        } else if name == "int64"@ {
            Some(StructureFieldTypes::Int64(count))
        } else if name == "uint8"@ {
            Some(StructureFieldTypes::UInt8(count))
        } else if name == "uint16"@ {
            Some(StructureFieldTypes::UInt16(count))
        } else if name == "uint32"@ {
            Some(StructureFieldTypes::UInt32(count))
        } else if name == "uint64"@ {
            Some(StructureFieldTypes::UInt64(count))
        } else if name == "float"@ || name == "float32"@ {
            Some(StructureFieldTypes::Float32(count))
        } else if name == "double"@ || name == "float64"@ {
            Some(StructureFieldTypes::Float64(count))
        } else {
            None
        }
    }

    /// The size in bytes of a single element: the fixed table
    /// bool=1, char=1, int8/uint8=1, int16/uint16=2,
    /// int32/uint32/float32=4, int64/uint64/float64=8.
    pub fn base_size(&self) -> (r: usize)
        ensures
            r == self.spec_base_size(),
    {
        match self {
            StructureFieldTypes::Bool(_) => 1,
            StructureFieldTypes::Char(_) => 1,
            StructureFieldTypes::Int8(_) => 1,
            StructureFieldTypes::Int16(_) => 2,
            StructureFieldTypes::Int32(_) => 4,
            StructureFieldTypes::Int64(_) => 8,
            StructureFieldTypes::UInt8(_) => 1,
            StructureFieldTypes::UInt16(_) => 2,
            StructureFieldTypes::UInt32(_) => 4,
            StructureFieldTypes::UInt64(_) => 8,
            StructureFieldTypes::Float32(_) => 4,
            StructureFieldTypes::Float64(_) => 8,
        }
    }

    /// The element count carried by the variant.
    pub fn count(&self) -> (r: usize)
        ensures
            r == self.spec_count(),
    {
        match self {
            StructureFieldTypes::Bool(c) => *c,
            StructureFieldTypes::Char(c) => *c,
            StructureFieldTypes::Int8(c) => *c,
            StructureFieldTypes::Int16(c) => *c,
            StructureFieldTypes::Int32(c) => *c,
            StructureFieldTypes::Int64(c) => *c,
            StructureFieldTypes::UInt8(c) => *c,
            StructureFieldTypes::UInt16(c) => *c,
            StructureFieldTypes::UInt32(c) => *c,
            StructureFieldTypes::UInt64(c) => *c,
            StructureFieldTypes::Float32(c) => *c,
            StructureFieldTypes::Float64(c) => *c,
        }
    }

    /// The total size in bytes of the field: always the base size times the
    /// element count.
    pub fn size(&self) -> (r: usize)
        requires
            self.spec_total_size() <= usize::MAX,
        ensures
            r == self.spec_base_size() * self.spec_count(),
    {
        self.base_size() * self.count()
    }

    /// The total size, or `None` where base size times count does not fit in
    /// a `usize`.
    pub fn checked_size(&self) -> (r: Option<usize>)
        ensures
            match r {
                Some(s) => s == self.spec_total_size() && self.spec_total_size() <= usize::MAX,
                None => self.spec_total_size() > usize::MAX,
            },
    {
        let b: usize = self.base_size();
        let c: usize = self.count();
        proof {
            assert((b as u128) * (c as u128) <= 8 * (usize::MAX as u128)) by (nonlinear_arith)
                requires
                    b as u128 <= 8,
                    c as u128 <= usize::MAX as u128,
            ;
        }
        let total: u128 = (b as u128) * (c as u128);
        if total <= usize::MAX as u128 {
            Some(total as usize)
        } else {
            None
        }
    }

    /// The kind named by a primitive type keyword, or `None` for any other
    /// word.
    pub fn from_type(name: &str, count: usize) -> (r: Option<StructureFieldTypes>)
        ensures
            r == StructureFieldTypes::spec_from_type(name@, count),
    {
        if str_eq(name, "bool") {
            Some(StructureFieldTypes::Bool(count))
        } else if str_eq(name, "char") {
            Some(StructureFieldTypes::Char(count))
        } else if str_eq(name, "int8") {
            Some(StructureFieldTypes::Int8(count))
        } else if str_eq(name, "int16") {
            Some(StructureFieldTypes::Int16(count))
        } else if str_eq(name, "int32") {
            Some(StructureFieldTypes::Int32(count))
        } else if str_eq(name, "int64") {
            Some(StructureFieldTypes::Int64(count))
        } else if str_eq(name, "uint8") {
            Some(StructureFieldTypes::UInt8(count))
        } else if str_eq(name, "uint16") {
            Some(StructureFieldTypes::UInt16(count))
        } else if str_eq(name, "uint32") {
            Some(StructureFieldTypes::UInt32(count))
        } else if str_eq(name, "uint64") {
            Some(StructureFieldTypes::UInt64(count))
        } else if str_eq(name, "float") || str_eq(name, "float32") {
            Some(StructureFieldTypes::Float32(count))
        } else if str_eq(name, "double") || str_eq(name, "float64") {
            Some(StructureFieldTypes::Float64(count))
        } else {
            None
        }
    }
}

} // verus!
