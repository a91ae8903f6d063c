//! Errors reported by schema resolution and by the buffer-carrying
//! constructors.

use vstd::prelude::*;

verus! {

/// Why a schema could not be resolved, or a buffer not be accepted.
///
/// Duplicate registration is not an error anywhere in this crate: adding a
/// descriptor under a name that is already catalogued is a silent no-op.
#[derive(Debug, Clone, Copy, PartialEq, Eq, Structural)]
pub enum SchemaError {
    /// A schema field names a structure type that the catalog does not hold.
    UnresolvedSubStructureReference,
    /// The schema text does not follow the field grammar.
    MalformedSchemaToken,
    /// Sub-structure references nest more deeply than the nesting budget
    /// allows.  Resolving a descriptor budgets the whole catalog's depth,
    /// which only a reference cycle could exhaust -- and validated
    /// registration keeps such cycles out of the catalog.
    CyclicSubStructureReference,
    /// A resolved field cursor disagrees with the declared byte size, or a
    /// buffer's length disagrees with the size the descriptor demands.
    SizeMismatch,
    /// Fewer bytes remain than one record needs.
    TruncatedInput,
}

impl SchemaError {
    /// A short, fixed description of the error kind.
    pub fn message(&self) -> (r: &'static str)
        ensures
            r@.len() > 0,
    {
        let s: &'static str = match self {
            SchemaError::UnresolvedSubStructureReference => {
                "schema references a type that is not in the catalog"
            },
            SchemaError::MalformedSchemaToken => "schema text does not follow the field grammar",
            SchemaError::CyclicSubStructureReference => "sub-structure references form a cycle",
            SchemaError::SizeMismatch => "resolved size does not match the declared size",
            SchemaError::TruncatedInput => "fewer bytes remain than one record needs",
        };
        proof {
            reveal_strlit("schema references a type that is not in the catalog");
            reveal_strlit("schema text does not follow the field grammar");
            reveal_strlit("sub-structure references form a cycle");
            reveal_strlit("resolved size does not match the declared size");
            reveal_strlit("fewer bytes remain than one record needs");
        }
        s
    }
}

} // verus!
