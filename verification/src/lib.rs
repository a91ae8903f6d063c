//! Fixed-size binary structure descriptions.
//!
//! A structure type declares a fixed byte layout through a textual schema, a
//! type name and a byte size.  Those three facts form a [`FrcStructDesc`],
//! which can be published into a [`FrcStructDescDB`] catalog, deduplicated by
//! type name.  The schema language is resolved -- including nested references
//! to other catalogued types -- into a flat, offset-addressed field map, used
//! by [`DynamicStructure`] for access to records whose concrete type is not
//! known at compile time.  [`FrcStructureBytes`] couples a descriptor with a
//! buffer holding a homogeneous array of packed records.

pub mod batch;
pub mod codec;
pub mod dynamic;
pub mod error;
pub mod prims;
pub mod registry;
pub mod schema;
pub mod strings;

pub use batch::FrcStructureBytes;
pub use codec::FrcStructure;
pub use codec::try_unpack;
pub use dynamic::DynamicStructure;
pub use error::SchemaError;
pub use schema::FieldEntry;
pub use prims::StructureFieldTypes;
pub use registry::FrcStructDesc;
pub use registry::FrcStructDescDB;
