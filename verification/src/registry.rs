//! Structure descriptors and the descriptor catalog.
//!
//! A [`FrcStructDesc`] names a structure type and fixes its schema text and
//! byte size.  A [`FrcStructDescDB`] catalogs descriptors, deduplicated by
//! type name: registration is idempotent and never replaces an entry, so at
//! most one descriptor is ever live per name.  A new name is validated as it
//! is registered -- its schema must resolve, against the catalog of that
//! moment, to a field map whose final cursor is exactly the declared byte
//! size -- so a schema/size inconsistency surfaces at registration time, not
//! at first use, and every catalogued descriptor stays consistent.

use vstd::prelude::*;
use crate::error::SchemaError;
use crate::schema::SpecFieldEntry;
use crate::schema::lemma_validated_add_consistent;
use crate::schema::resolve_descriptor;
use crate::schema::spec_catalog_consistent;
use crate::schema::spec_resolve_descriptor;
use crate::strings::str_eq;

verus! {

/// The mathematical content of a descriptor.
pub struct DescView {
    pub schema: Seq<char>,
    pub type_str: Seq<char>,
    pub size: nat,
}

/// A description of a structure type, used for serialization and
/// deserialization: its schema text, its type name, and its fixed size in
/// bytes.
#[derive(Debug, Clone)]
pub struct FrcStructDesc {
    /// The schema of the structure.
    pub schema: String,
    /// The type of the structure, typically the name of the concrete type.
    pub type_str: String,
    /// The size of the structure in bytes.
    pub size: usize,
}

impl View for FrcStructDesc {
    type V = DescView;

    open spec fn view(&self) -> DescView {
        DescView { schema: self.schema@, type_str: self.type_str@, size: self.size as nat }
    }
}

impl DeepView for FrcStructDesc {
    type V = DescView;

    open spec fn deep_view(&self) -> DescView {
        self.view()
    }
}

impl PartialEq for FrcStructDesc {
    fn eq(&self, other: &Self) -> (r: bool) {
        self.size == other.size && self.type_str == other.type_str && self.schema == other.schema
    }
}

impl vstd::std_specs::cmp::PartialEqSpecImpl for FrcStructDesc {
    open spec fn obeys_eq_spec() -> bool {
        true
    }

    open spec fn eq_spec(&self, other: &Self) -> bool {
        self@ == other@
    }
}

/// Whether the catalog holds a descriptor under the given name.
pub open spec fn spec_contains_type(catalog: Seq<DescView>, name: Seq<char>) -> bool {
    exists|i: int| 0 <= i < catalog.len() && catalog[i].type_str == name
}

/// The first descriptor catalogued under the given name, if any.
pub open spec fn spec_lookup(catalog: Seq<DescView>, name: Seq<char>) -> Option<DescView>
    decreases catalog.len(),
{
    if catalog.len() == 0 {
        None
    } else if catalog[0].type_str == name {
        Some(catalog[0])
    } else {
        spec_lookup(catalog.drop_first(), name)
    }
}

/// The catalog after registering a descriptor: unchanged where the name is
/// already present or where the descriptor does not resolve to its declared
/// size, extended by the descriptor otherwise.
pub open spec fn spec_add(catalog: Seq<DescView>, desc: DescView) -> Seq<DescView> {
    if spec_contains_type(catalog, desc.type_str) {
        catalog
    } else if spec_resolve_descriptor(desc, catalog) is Ok {
        catalog.push(desc)
    } else {
        catalog
    }
}

/// The catalog invariant: no two entries share a type name.
pub open spec fn spec_unique_names(catalog: Seq<DescView>) -> bool {
    forall|i: int, j: int|
        0 <= i < j < catalog.len() ==> catalog[i].type_str != catalog[j].type_str
}

/// A successful lookup returns a descriptor carrying the looked-up name.
pub proof fn lemma_lookup_found(catalog: Seq<DescView>, name: Seq<char>)
    ensures
        match spec_lookup(catalog, name) {
            Some(d) => d.type_str == name,
            None => true,
        },
    decreases catalog.len(),
{
    if catalog.len() > 0 && catalog[0].type_str != name {
        lemma_lookup_found(catalog.drop_first(), name);
    }
}

/// Appending an entry never changes what an earlier successful lookup
/// finds.
pub proof fn lemma_lookup_push_preserves(catalog: Seq<DescView>, added: DescView, name: Seq<char>)
    requires
        spec_lookup(catalog, name) is Some,
    ensures
        spec_lookup(catalog.push(added), name) == spec_lookup(catalog, name),
    decreases catalog.len(),
{
    if catalog.len() > 0 {
        assert(catalog.push(added)[0] == catalog[0]);
        if catalog[0].type_str != name {
            lemma_lookup_push_preserves(catalog.drop_first(), added, name);
            assert(catalog.push(added).drop_first() =~= catalog.drop_first().push(added));
        }
    }
}

/// A successful lookup returns one of the catalog's entries.
pub proof fn lemma_lookup_in_catalog(catalog: Seq<DescView>, name: Seq<char>)
    ensures
        match spec_lookup(catalog, name) {
            Some(d) => exists|i: int| 0 <= i < catalog.len() && catalog[i] == d,
            None => true,
        },
    decreases catalog.len(),
{
    if catalog.len() > 0 {
        if catalog[0].type_str == name {
            let d = catalog[0];
            assert(0 <= 0 < catalog.len() && catalog[0] == d);
        } else {
            lemma_lookup_in_catalog(catalog.drop_first(), name);
            match spec_lookup(catalog.drop_first(), name) {
                Some(d) => {
                    let i = choose|i: int|
                        0 <= i < catalog.drop_first().len() && catalog.drop_first()[i] == d;
                    assert(catalog[i + 1] == d);
                },
                None => {},
            }
        }
    }
}

/// A lookup succeeds exactly where the catalog holds the name.
pub proof fn lemma_lookup_contains(catalog: Seq<DescView>, name: Seq<char>)
    ensures
        spec_lookup(catalog, name) is Some <==> spec_contains_type(catalog, name),
    decreases catalog.len(),
{
    if catalog.len() > 0 {
        if catalog[0].type_str == name {
        } else {
            lemma_lookup_contains(catalog.drop_first(), name);
            assert forall|i: int|
                0 <= i < catalog.len() && catalog[i].type_str == name implies spec_contains_type(
                catalog.drop_first(),
                name,
            ) by {
                assert(catalog.drop_first()[i - 1] == catalog[i]);
            }
            assert(spec_contains_type(catalog.drop_first(), name) ==> spec_contains_type(
                catalog,
                name,
            )) by {
                if spec_contains_type(catalog.drop_first(), name) {
                    let i = choose|i: int|
                        0 <= i < catalog.drop_first().len() && catalog.drop_first()[i].type_str
                            == name;
                    assert(catalog[i + 1].type_str == name);
                }
            }
        }
    }
}

/// Looking a name up in a catalog that lacks it, after a descriptor of that
/// name was pushed, finds exactly that descriptor.
pub proof fn lemma_lookup_push(catalog: Seq<DescView>, desc: DescView, name: Seq<char>)
    requires
        !spec_contains_type(catalog, name),
        desc.type_str == name,
    ensures
        spec_lookup(catalog.push(desc), name) == Some(desc),
    decreases catalog.len(),
{
    if catalog.len() == 0 {
        assert(catalog.push(desc)[0] == desc);
    } else {
        assert(catalog[0].type_str != name) by {
            if catalog[0].type_str == name {
                assert(spec_contains_type(catalog, name));
            }
        }
        assert(!spec_contains_type(catalog.drop_first(), name)) by {
            if spec_contains_type(catalog.drop_first(), name) {
                let i = choose|i: int|
                    0 <= i < catalog.drop_first().len() && catalog.drop_first()[i].type_str == name;
                assert(catalog[i + 1].type_str == name);
            }
        }
        lemma_lookup_push(catalog.drop_first(), desc, name);
        assert(catalog.push(desc).drop_first() =~= catalog.drop_first().push(desc));
    }
}

/// Registration keeps the catalog invariant: names stay pairwise distinct.
pub proof fn lemma_add_preserves_unique_names(catalog: Seq<DescView>, desc: DescView)
    requires
        spec_unique_names(catalog),
    ensures
        spec_unique_names(spec_add(catalog, desc)),
{
    if !spec_contains_type(catalog, desc.type_str) && spec_resolve_descriptor(desc, catalog)
        is Ok {
        let pushed = catalog.push(desc);
        assert forall|i: int, j: int|
            0 <= i < j < pushed.len() implies pushed[i].type_str != pushed[j].type_str by {
            if j == catalog.len() {
                assert(pushed[i] == catalog[i]);
                if catalog[i].type_str == desc.type_str {
                    assert(spec_contains_type(catalog, desc.type_str));
                }
            }
        }
    }
}

/// Registering the same type name twice never yields two catalog entries:
/// the second registration is a no-op, and a lookup after both still returns
/// the descriptor that was registered first.
pub proof fn lemma_register_idempotent(catalog: Seq<DescView>, first: DescView, second: DescView)
    requires
        first.type_str == second.type_str,
        !spec_contains_type(catalog, first.type_str),
        spec_resolve_descriptor(first, catalog) is Ok,
    ensures
        spec_add(spec_add(catalog, first), second) == spec_add(catalog, first),
        spec_lookup(spec_add(spec_add(catalog, first), second), second.type_str) == Some(first),
{
    let once = spec_add(catalog, first);
    assert(once == catalog.push(first));
    assert(once[catalog.len() as int] == first);
    assert(spec_contains_type(once, second.type_str));
    lemma_lookup_push(catalog, first, first.type_str);
}

/// A catalog of structure descriptors, deduplicated by type name.
#[derive(Debug)]
pub struct FrcStructDescDB {
    entries: Vec<FrcStructDesc>,
}

impl View for FrcStructDescDB {
    type V = Seq<DescView>;

    closed spec fn view(&self) -> Seq<DescView> {
        self.entries.deep_view()
    }
}

impl FrcStructDescDB {
    /// An empty catalog.
    pub fn new() -> (r: FrcStructDescDB)
        ensures
            r@ =~= Seq::<DescView>::empty(),
            spec_catalog_consistent(r@),
    {
        FrcStructDescDB { entries: Vec::new() }
    }

    /// How many descriptors the catalog holds.
    pub fn len(&self) -> (r: usize)
        ensures
            r == self@.len(),
    {
        self.entries.len()
    }

    /// Whether the catalog holds a descriptor for the given type name.
    pub fn contains_type(&self, type_str: &str) -> (r: bool)
        ensures
            r == spec_contains_type(self@, type_str@),
    {
        let n: usize = self.entries.len();
        let mut i: usize = 0;
        while i < n
            invariant
                i <= n,
                n == self@.len(),
                self@.len() == self.entries@.len(),
                forall|k: int| 0 <= k < i ==> self@[k].type_str != type_str@,
            decreases n - i,
        {
            if str_eq(self.entries[i].type_str.as_str(), type_str) {
                proof {
                    assert(self@[i as int].type_str == type_str@);
                }
                return true;
            }
            i = i + 1;
        }
        false
    }

    /// The descriptor catalogued under the given type name, or `None` where
    /// the name is absent.
    pub fn get(&self, type_str: &str) -> (r: Option<&FrcStructDesc>)
        ensures
            match r {
                Some(d) => spec_lookup(self@, type_str@) == Some(d@),
                None => spec_lookup(self@, type_str@) is None,
            },
    {
        let n: usize = self.entries.len();
        let mut i: usize = 0;
        proof {
            assert(self@.skip(0) =~= self@);
        }
        while i < n
            invariant
                i <= n,
                n == self@.len(),
                self@.len() == self.entries@.len(),
                spec_lookup(self@.skip(i as int), type_str@) == spec_lookup(self@, type_str@),
            decreases n - i,
        {
            proof {
                assert(self@.skip(i as int)[0] == self@[i as int]);
            }
            if str_eq(self.entries[i].type_str.as_str(), type_str) {
                return Some(&self.entries[i]);
            }
            proof {
                assert(self@.skip(i as int).drop_first() =~= self@.skip(i as int + 1));
            }
            i = i + 1;
        }
        proof {
            assert(self@.skip(n as int) =~= Seq::<DescView>::empty());
        }
        None
    }

    /// Registers a descriptor.  A silent no-op -- never an error and never
    /// a replacement -- where the catalog already holds the type name.  A
    /// new name is validated first: its schema must resolve against the
    /// present catalog with a final cursor exactly equal to its declared
    /// size, and on any schema or size error nothing is registered -- the
    /// inconsistency surfaces here, at registration time, not at first use.
    pub fn add(&mut self, desc: FrcStructDesc) -> (r: Result<(), SchemaError>)
        ensures
            final(self)@ == spec_add(old(self)@, desc@),
            r is Ok <==> (spec_contains_type(old(self)@, desc@.type_str)
                || spec_resolve_descriptor(desc@, old(self)@) is Ok),
            r matches Err(e) ==> spec_resolve_descriptor(desc@, old(self)@) == Err::<
                Seq<SpecFieldEntry>,
                SchemaError,
            >(e),
            spec_catalog_consistent(old(self)@) ==> spec_catalog_consistent(final(self)@),
    {
        if self.contains_type(desc.type_str.as_str()) {
            return Ok(());
        }
        match resolve_descriptor(&desc, self) {
            Err(e) => Err(e),
            Ok(_entries) => {
                let ghost before = self@;
                self.entries.push(desc);
                proof {
                    assert(self@ =~= before.push(desc@));
                    if spec_catalog_consistent(before) {
                        lemma_validated_add_consistent(before, desc@);
                    }
                }
                Ok(())
            },
        }
    }

    /// Registers a descriptor given by reference, cloning it into the
    /// catalog.  Validates and deduplicates exactly as [`Self::add`] does.
    pub fn add_ref(&mut self, desc: &FrcStructDesc) -> (r: Result<(), SchemaError>)
        ensures
            final(self)@ == spec_add(old(self)@, desc@),
            r is Ok <==> (spec_contains_type(old(self)@, desc@.type_str)
                || spec_resolve_descriptor(desc@, old(self)@) is Ok),
            r matches Err(e) ==> spec_resolve_descriptor(desc@, old(self)@) == Err::<
                Seq<SpecFieldEntry>,
                SchemaError,
            >(e),
            spec_catalog_consistent(old(self)@) ==> spec_catalog_consistent(final(self)@),
    {
        let copy: FrcStructDesc = FrcStructDesc {
            schema: desc.schema.clone(),
            type_str: desc.type_str.clone(),
            size: desc.size,
        };
        self.add(copy)
    }

    /// All catalogued descriptors, in registration order.  Callers must not
    /// depend on the order.
    pub fn iterate(&self) -> (r: &Vec<FrcStructDesc>)
        ensures
            r.deep_view() == self@,
    {
        &self.entries
    }
}

} // verus!
