//! The codec contract: what a concrete structure type must provide.
//!
//! A type declares a schema text, a type name and a fixed byte size, and
//! packs and unpacks its values to and from raw bytes in the layout the
//! schema implies.  A descriptor is assembled mechanically from the three
//! declared facts, never written by hand, so they cannot drift apart.
//!
//! The byte order of the multi-byte primitive implementations in this module
//! is little-endian; the contract itself fixes only sizes and offsets, and
//! each implementation owns its bit layout.
//!
//! `unpack` has a checked precondition: callers must prove that at least
//! `size()` bytes remain at the cursor.  [`try_unpack`] performs that test at
//! run time instead and reports `TruncatedInput`.

use vstd::prelude::*;
use vstd::slice::slice_index_get;
use vstd::string::StringExecFns;
use crate::error::SchemaError;
use crate::registry::FrcStructDesc;

verus! {

/// Serialization and deserialization of one fixed-size structure type.
///
/// `spec_pack` is the byte image of a value; `spec_unpack` reads a value
/// back out of a byte image.  Every implementation proves that the image has
/// exactly `spec_size()` bytes and that unpacking a packed value returns the
/// value unchanged, bit for bit.
pub trait FrcStructure: Sized + Copy {
    /// The fixed size of the packed form, in bytes.
    spec fn spec_size() -> nat;

    /// The type name, the key under which the type is catalogued.
    spec fn spec_type_str() -> Seq<char>;

    /// The schema text describing the packed layout.
    spec fn spec_schema() -> Seq<char>;

    /// The byte image of a value.
    spec fn spec_pack(self) -> Seq<u8>;

    /// The value read from a byte image.
    spec fn spec_unpack(bytes: Seq<u8>) -> Self;

    /// The byte image always has exactly the declared size.
    proof fn lemma_pack_len(self)
        ensures
            self.spec_pack().len() == Self::spec_size(),
    ;

    /// Packing then unpacking reproduces the value bit for bit.
    proof fn lemma_pack_unpack(self)
        ensures
            Self::spec_unpack(self.spec_pack()) == self,
    ;

    /// The size of the structure in bytes.
    fn size() -> (r: usize)
        ensures
            r == Self::spec_size(),
    ;

    /// The type of the structure as a string, typically the name of the
    /// concrete type.
    fn type_str() -> (r: String)
        ensures
            r@ == Self::spec_type_str(),
    ;

    /// The schema of the structure.
    fn schema() -> (r: String)
        ensures
            r@ == Self::spec_schema(),
    ;

    /// Appends exactly `size()` bytes representing `self` to the buffer.
    fn pack(&self, buffer: &mut Vec<u8>)
        ensures
            final(buffer)@ == old(buffer)@ + self.spec_pack(),
    ;

    /// Reads one value from `size()` bytes at the cursor and advances the
    /// cursor past them.  Callers must leave at least `size()` bytes at the
    /// cursor; [`try_unpack`] is the checked form.
    fn unpack(buffer: &[u8], pos: &mut usize) -> (r: Self)
        requires
            *old(pos) + Self::spec_size() <= buffer@.len(),
        ensures
            *final(pos) == *old(pos) + Self::spec_size(),
            r == Self::spec_unpack(
                buffer@.subrange(*old(pos) as int, *old(pos) + Self::spec_size() as int),
            ),
    ;

    /// The descriptor of this type, assembled from the declared schema,
    /// name and size.
    fn description() -> (r: FrcStructDesc)
        ensures
            r@.schema == Self::spec_schema(),
            r@.type_str == Self::spec_type_str(),
            r@.size == Self::spec_size(),
    {
        FrcStructDesc { schema: Self::schema(), type_str: Self::type_str(), size: Self::size() }
    }

    /// The schema declaration of one field of this type: the type name, a
    /// space, and the field identifier.
    fn format_field(field: &str) -> (r: String)
        ensures
            r@ == Self::spec_type_str() + " "@ + field@,
    {
        let mut s = Self::type_str();
        s.append(" ");
        s.append(field);
        s
    }
}

/// Reads one value from the cursor where enough bytes remain, and reports
/// `TruncatedInput` -- leaving the cursor unmoved -- where fewer than
/// `size()` bytes are left.
pub fn try_unpack<T: FrcStructure>(buffer: &[u8], pos: &mut usize) -> (r: Result<T, SchemaError>)
    ensures
        match r {
            Ok(v) => *old(pos) + T::spec_size() <= buffer@.len() && *final(pos) == *old(pos)
                + T::spec_size() && v == T::spec_unpack(
                buffer@.subrange(*old(pos) as int, *old(pos) + T::spec_size() as int),
            ),
            Err(e) => e == SchemaError::TruncatedInput && *old(pos) + T::spec_size()
                > buffer@.len() && *final(pos) == *old(pos),
        },
{
    let n: usize = buffer.len();
    let sz: usize = T::size();
    if *pos > n || sz > n - *pos {
        Err(SchemaError::TruncatedInput)
    } else {
        Ok(T::unpack(buffer, pos))
    }
}

/// The bytes of a sequence of values packed back to back, in order.
pub open spec fn spec_pack_seq<T: FrcStructure>(values: Seq<T>) -> Seq<u8>
    decreases values.len(),
{
    if values.len() == 0 {
        Seq::empty()
    } else {
        values[0].spec_pack() + spec_pack_seq(values.drop_first())
    }
}

/// Packing `n` values back to back yields exactly `n * size` bytes.
pub proof fn lemma_pack_seq_len<T: FrcStructure>(values: Seq<T>)
    ensures
        spec_pack_seq(values).len() == values.len() * T::spec_size(),
    decreases values.len(),
{
    if values.len() > 0 {
        values[0].lemma_pack_len();
        lemma_pack_seq_len::<T>(values.drop_first());
        assert(values.len() * T::spec_size() == (values.len() - 1) * T::spec_size()
            + T::spec_size()) by (nonlinear_arith);
    }
}

/// The batch round-trip law: in a buffer of values packed back to back, the
/// `size`-byte slice of record `i` is exactly the i-th value's byte image,
/// and unpacking it reproduces that value bit for bit.
pub proof fn lemma_pack_seq_round_trip<T: FrcStructure>(values: Seq<T>, i: int)
    requires
        0 <= i < values.len(),
    ensures
        spec_pack_seq(values).subrange(
            i * T::spec_size() as int,
            i * T::spec_size() as int + T::spec_size(),
        ) == values[i].spec_pack(),
        T::spec_unpack(
            spec_pack_seq(values).subrange(
                i * T::spec_size() as int,
                i * T::spec_size() as int + T::spec_size(),
            ),
        ) == values[i],
    decreases i,
{
    let sz = T::spec_size() as int;
    values[0].lemma_pack_len();
    lemma_pack_seq_len::<T>(values);
    lemma_pack_seq_len::<T>(values.drop_first());
    vstd::arithmetic::mul::lemma_mul_nonnegative(i, sz);
    vstd::arithmetic::mul::lemma_mul_inequality(i + 1, values.len() as int, sz);
    assert((i + 1) * sz == i * sz + sz) by (nonlinear_arith);
    assert(values.len() as int * sz == sz * values.len() as int) by (nonlinear_arith);
    if i == 0 {
        assert(spec_pack_seq(values).subrange(0, sz) =~= values[0].spec_pack());
        values[0].lemma_pack_unpack();
    } else {
        lemma_pack_seq_round_trip::<T>(values.drop_first(), i - 1);
        vstd::arithmetic::mul::lemma_mul_inequality(1, i, sz);
        assert(i * sz == (i - 1) * sz + sz) by (nonlinear_arith);
        assert(spec_pack_seq(values).subrange(i * sz, i * sz + sz)
            =~= spec_pack_seq(values.drop_first()).subrange((i - 1) * sz, (i - 1) * sz + sz));
    }
}

impl FrcStructure for bool {
    open spec fn spec_size() -> nat {
        1
    }

    open spec fn spec_type_str() -> Seq<char> {
        "bool"@
    }

    open spec fn spec_schema() -> Seq<char> {
        "bool value;"@
    }

    open spec fn spec_pack(self) -> Seq<u8> {
        seq![if self { 1u8 } else { 0u8 }]
    }

    open spec fn spec_unpack(bytes: Seq<u8>) -> bool {
        bytes[0] != 0
    }

    proof fn lemma_pack_len(self) {
    }

    proof fn lemma_pack_unpack(self) {
    }

    fn size() -> usize {
        1
    }

    fn type_str() -> String {
        "bool".to_owned()
    }

    fn schema() -> String {
        "bool value;".to_owned()
    }

    fn pack(&self, buffer: &mut Vec<u8>) {
        let b: u8 = if *self {
            1
        } else {
            0
        };
        buffer.push(b);
        proof {
            assert(final(buffer)@ =~= old(buffer)@ + self.spec_pack());
        }
    }

    fn unpack(buffer: &[u8], pos: &mut usize) -> (r: bool) {
        let _len: usize = buffer.len();
        let b: u8 = *slice_index_get(buffer, *pos);
        *pos = *pos + 1;
        proof {
            assert(buffer@.subrange(*old(pos) as int, *old(pos) + 1) =~= seq![b]);
        }
        b != 0
    }
}

impl FrcStructure for u8 {
    open spec fn spec_size() -> nat {
        1
    }

    open spec fn spec_type_str() -> Seq<char> {
        "uint8"@
    }

    open spec fn spec_schema() -> Seq<char> {
        "uint8 value;"@
    }

    open spec fn spec_pack(self) -> Seq<u8> {
        seq![self]
    }

    open spec fn spec_unpack(bytes: Seq<u8>) -> u8 {
        bytes[0]
    }

    proof fn lemma_pack_len(self) {
    }

    proof fn lemma_pack_unpack(self) {
    }

    fn size() -> usize {
        1
    }

    fn type_str() -> String {
        "uint8".to_owned()
    }

    fn schema() -> String {
        "uint8 value;".to_owned()
    }

    fn pack(&self, buffer: &mut Vec<u8>) {
        buffer.push(*self);
        proof {
            assert(final(buffer)@ =~= old(buffer)@ + self.spec_pack());
        }
    }

    fn unpack(buffer: &[u8], pos: &mut usize) -> (r: u8) {
        let _len: usize = buffer.len();
        let b: u8 = *slice_index_get(buffer, *pos);
        *pos = *pos + 1;
        proof {
            assert(buffer@.subrange(*old(pos) as int, *old(pos) + 1) =~= seq![b]);
        }
        b
    }
}

impl FrcStructure for i8 {
    open spec fn spec_size() -> nat {
        1
    }

    open spec fn spec_type_str() -> Seq<char> {
        "int8"@
    }

    open spec fn spec_schema() -> Seq<char> {
        "int8 value;"@
    }

    open spec fn spec_pack(self) -> Seq<u8> {
        seq![self as u8]
    }

    open spec fn spec_unpack(bytes: Seq<u8>) -> i8 {
        bytes[0] as i8
    }

    proof fn lemma_pack_len(self) {
    }

    proof fn lemma_pack_unpack(self) {
        assert((self as u8) as i8 == self) by (bit_vector);
    }

    fn size() -> usize {
        1
    }

    fn type_str() -> String {
        "int8".to_owned()
    }

    fn schema() -> String {
        "int8 value;".to_owned()
    }

    fn pack(&self, buffer: &mut Vec<u8>) {
        buffer.push(#[verifier::truncate] (*self as u8));
        proof {
            assert(final(buffer)@ =~= old(buffer)@ + self.spec_pack());
        }
    }

    fn unpack(buffer: &[u8], pos: &mut usize) -> (r: i8) {
        let _len: usize = buffer.len();
        let b: u8 = *slice_index_get(buffer, *pos);
        *pos = *pos + 1;
        proof {
            assert(buffer@.subrange(*old(pos) as int, *old(pos) + 1) =~= seq![b]);
        }
        #[verifier::truncate] (b as i8)
    }
}


impl FrcStructure for u16 {
    open spec fn spec_size() -> nat {
        2
    }

    open spec fn spec_type_str() -> Seq<char> {
        "uint16"@
    }

    open spec fn spec_schema() -> Seq<char> {
        "uint16 value;"@
    }

    open spec fn spec_pack(self) -> Seq<u8> {
        seq![self as u8, (self >> 8) as u8]
    }

    open spec fn spec_unpack(bytes: Seq<u8>) -> u16 {
        (bytes[0] as u16) | ((bytes[1] as u16) << 8)
    }

    proof fn lemma_pack_len(self) {
    }

    proof fn lemma_pack_unpack(self) {
        let x: u16 = self;
        let b0: u8 = x as u8;
        let b1: u8 = (x >> 8) as u8;
        assert(((b0 as u16) | ((b1 as u16) << 8)) == x) by (bit_vector)
            requires
                b0 == x as u8,
                b1 == (x >> 8) as u8,
        ;
    }

    fn size() -> usize {
        2
    }

    fn type_str() -> String {
        "uint16".to_owned()
    }

    fn schema() -> String {
        "uint16 value;".to_owned()
    }

    fn pack(&self, buffer: &mut Vec<u8>) {
        buffer.push(#[verifier::truncate] (*self as u8));
        buffer.push(#[verifier::truncate] ((*self >> 8) as u8));
        proof {
            assert(final(buffer)@ =~= old(buffer)@ + self.spec_pack());
        }
    }

    fn unpack(buffer: &[u8], pos: &mut usize) -> (r: u16) {
        let _len: usize = buffer.len();
        let b0: u8 = *slice_index_get(buffer, *pos);
        let b1: u8 = *slice_index_get(buffer, *pos + 1);
        *pos = *pos + 2;
        proof {
            assert(buffer@.subrange(*old(pos) as int, *old(pos) + 2) =~= seq![b0, b1]);
        }
        (b0 as u16) | ((b1 as u16) << 8)
    }
}


impl FrcStructure for u32 {
    open spec fn spec_size() -> nat {
        4
    }

    open spec fn spec_type_str() -> Seq<char> {
        "uint32"@
    }

    open spec fn spec_schema() -> Seq<char> {
        "uint32 value;"@
    }

    open spec fn spec_pack(self) -> Seq<u8> {
        seq![self as u8, (self >> 8) as u8, (self >> 16) as u8, (self >> 24) as u8]
    }

    open spec fn spec_unpack(bytes: Seq<u8>) -> u32 {
        (bytes[0] as u32) | ((bytes[1] as u32) << 8) | ((bytes[2] as u32) << 16) | ((bytes[3] as u32) << 24)
    }

    proof fn lemma_pack_len(self) {
    }

    proof fn lemma_pack_unpack(self) {
        let x: u32 = self;
        let b0: u8 = x as u8;
        let b1: u8 = (x >> 8) as u8;
        let b2: u8 = (x >> 16) as u8;
        let b3: u8 = (x >> 24) as u8;
        assert(((b0 as u32) | ((b1 as u32) << 8) | ((b2 as u32) << 16) | ((b3 as u32) << 24)) == x) by (bit_vector)
            requires
                b0 == x as u8,
                b1 == (x >> 8) as u8,
                b2 == (x >> 16) as u8,
                b3 == (x >> 24) as u8,
        ;
    }

    fn size() -> usize {
        4
    }

    fn type_str() -> String {
        "uint32".to_owned()
    }

    fn schema() -> String {
        "uint32 value;".to_owned()
    }

    fn pack(&self, buffer: &mut Vec<u8>) {
        buffer.push(#[verifier::truncate] (*self as u8));
        buffer.push(#[verifier::truncate] ((*self >> 8) as u8));
        buffer.push(#[verifier::truncate] ((*self >> 16) as u8));
        buffer.push(#[verifier::truncate] ((*self >> 24) as u8));
        proof {
            assert(final(buffer)@ =~= old(buffer)@ + self.spec_pack());
        }
    }

    fn unpack(buffer: &[u8], pos: &mut usize) -> (r: u32) {
        let _len: usize = buffer.len();
        let b0: u8 = *slice_index_get(buffer, *pos);
        let b1: u8 = *slice_index_get(buffer, *pos + 1);
        let b2: u8 = *slice_index_get(buffer, *pos + 2);
        let b3: u8 = *slice_index_get(buffer, *pos + 3);
        *pos = *pos + 4;
        proof {
            assert(buffer@.subrange(*old(pos) as int, *old(pos) + 4) =~= seq![b0, b1, b2, b3]);
        }
        (b0 as u32) | ((b1 as u32) << 8) | ((b2 as u32) << 16) | ((b3 as u32) << 24)
    }
}


impl FrcStructure for u64 {
    open spec fn spec_size() -> nat {
        8
    }

    open spec fn spec_type_str() -> Seq<char> {
        "uint64"@
    }

    open spec fn spec_schema() -> Seq<char> {
        "uint64 value;"@
    }

    open spec fn spec_pack(self) -> Seq<u8> {
        seq![self as u8, (self >> 8) as u8, (self >> 16) as u8, (self >> 24) as u8, (self >> 32) as u8, (self >> 40) as u8, (self >> 48) as u8, (self >> 56) as u8]
    }

    open spec fn spec_unpack(bytes: Seq<u8>) -> u64 {
        (bytes[0] as u64) | ((bytes[1] as u64) << 8) | ((bytes[2] as u64) << 16) | ((bytes[3] as u64) << 24) | ((bytes[4] as u64) << 32) | ((bytes[5] as u64) << 40) | ((bytes[6] as u64) << 48) | ((bytes[7] as u64) << 56)
    }

    proof fn lemma_pack_len(self) {
    }

    proof fn lemma_pack_unpack(self) {
        let x: u64 = self;
        let b0: u8 = x as u8;
        let b1: u8 = (x >> 8) as u8;
        let b2: u8 = (x >> 16) as u8;
        let b3: u8 = (x >> 24) as u8;
        let b4: u8 = (x >> 32) as u8;
        let b5: u8 = (x >> 40) as u8;
        let b6: u8 = (x >> 48) as u8;
        let b7: u8 = (x >> 56) as u8;
        assert(((b0 as u64) | ((b1 as u64) << 8) | ((b2 as u64) << 16) | ((b3 as u64) << 24) | ((b4 as u64) << 32) | ((b5 as u64) << 40) | ((b6 as u64) << 48) | ((b7 as u64) << 56)) == x) by (bit_vector)
            requires
                b0 == x as u8,
                b1 == (x >> 8) as u8,
                b2 == (x >> 16) as u8,
                b3 == (x >> 24) as u8,
                b4 == (x >> 32) as u8,
                b5 == (x >> 40) as u8,
                b6 == (x >> 48) as u8,
                b7 == (x >> 56) as u8,
        ;
    }

    fn size() -> usize {
        8
    }

    fn type_str() -> String {
        "uint64".to_owned()
    }

    fn schema() -> String {
        "uint64 value;".to_owned()
    }

    fn pack(&self, buffer: &mut Vec<u8>) {
        buffer.push(#[verifier::truncate] (*self as u8));
        buffer.push(#[verifier::truncate] ((*self >> 8) as u8));
        buffer.push(#[verifier::truncate] ((*self >> 16) as u8));
        buffer.push(#[verifier::truncate] ((*self >> 24) as u8));
        buffer.push(#[verifier::truncate] ((*self >> 32) as u8));
        buffer.push(#[verifier::truncate] ((*self >> 40) as u8));
        buffer.push(#[verifier::truncate] ((*self >> 48) as u8));
        buffer.push(#[verifier::truncate] ((*self >> 56) as u8));
        proof {
            assert(final(buffer)@ =~= old(buffer)@ + self.spec_pack());
        }
    }

    fn unpack(buffer: &[u8], pos: &mut usize) -> (r: u64) {
        let _len: usize = buffer.len();
        let b0: u8 = *slice_index_get(buffer, *pos);
        let b1: u8 = *slice_index_get(buffer, *pos + 1);
        let b2: u8 = *slice_index_get(buffer, *pos + 2);
        let b3: u8 = *slice_index_get(buffer, *pos + 3);
        let b4: u8 = *slice_index_get(buffer, *pos + 4);
        let b5: u8 = *slice_index_get(buffer, *pos + 5);
        let b6: u8 = *slice_index_get(buffer, *pos + 6);
        let b7: u8 = *slice_index_get(buffer, *pos + 7);
        *pos = *pos + 8;
        proof {
            assert(buffer@.subrange(*old(pos) as int, *old(pos) + 8) =~= seq![b0, b1, b2, b3, b4, b5, b6, b7]);
        }
        (b0 as u64) | ((b1 as u64) << 8) | ((b2 as u64) << 16) | ((b3 as u64) << 24) | ((b4 as u64) << 32) | ((b5 as u64) << 40) | ((b6 as u64) << 48) | ((b7 as u64) << 56)
    }
}


impl FrcStructure for i16 {
    open spec fn spec_size() -> nat {
        2
    }

    open spec fn spec_type_str() -> Seq<char> {
        "int16"@
    }

    open spec fn spec_schema() -> Seq<char> {
        "int16 value;"@
    }

    open spec fn spec_pack(self) -> Seq<u8> {
        seq![self as u8, (self >> 8) as u8]
    }

    open spec fn spec_unpack(bytes: Seq<u8>) -> i16 {
        ((bytes[0] as u16) | ((bytes[1] as u16) << 8)) as i16
    }

    proof fn lemma_pack_len(self) {
    }

    proof fn lemma_pack_unpack(self) {
        let x: i16 = self;
        let b0: u8 = x as u8;
        let b1: u8 = (x >> 8) as u8;
        assert((((b0 as u16) | ((b1 as u16) << 8)) as i16) == x) by (bit_vector)
            requires
                b0 == x as u8,
                b1 == (x >> 8) as u8,
        ;
    }

    fn size() -> usize {
        2
    }

    fn type_str() -> String {
        "int16".to_owned()
    }

    fn schema() -> String {
        "int16 value;".to_owned()
    }

    fn pack(&self, buffer: &mut Vec<u8>) {
        buffer.push(#[verifier::truncate] (*self as u8));
        buffer.push(#[verifier::truncate] ((*self >> 8) as u8));
        proof {
            assert(final(buffer)@ =~= old(buffer)@ + self.spec_pack());
        }
    }

    fn unpack(buffer: &[u8], pos: &mut usize) -> (r: i16) {
        let _len: usize = buffer.len();
        let b0: u8 = *slice_index_get(buffer, *pos);
        let b1: u8 = *slice_index_get(buffer, *pos + 1);
        *pos = *pos + 2;
        proof {
            assert(buffer@.subrange(*old(pos) as int, *old(pos) + 2) =~= seq![b0, b1]);
        }
        #[verifier::truncate] (((b0 as u16) | ((b1 as u16) << 8)) as i16)
    }
}


impl FrcStructure for i32 {
    open spec fn spec_size() -> nat {
        4
    }

    open spec fn spec_type_str() -> Seq<char> {
        "int32"@
    }

    open spec fn spec_schema() -> Seq<char> {
        "int32 value;"@
    }

    open spec fn spec_pack(self) -> Seq<u8> {
        seq![self as u8, (self >> 8) as u8, (self >> 16) as u8, (self >> 24) as u8]
    }

    open spec fn spec_unpack(bytes: Seq<u8>) -> i32 {
        ((bytes[0] as u32) | ((bytes[1] as u32) << 8) | ((bytes[2] as u32) << 16) | ((bytes[3] as u32) << 24)) as i32
    }

    proof fn lemma_pack_len(self) {
    }

    proof fn lemma_pack_unpack(self) {
        let x: i32 = self;
        let b0: u8 = x as u8;
        let b1: u8 = (x >> 8) as u8;
        let b2: u8 = (x >> 16) as u8;
        let b3: u8 = (x >> 24) as u8;
        assert((((b0 as u32) | ((b1 as u32) << 8) | ((b2 as u32) << 16) | ((b3 as u32) << 24)) as i32) == x) by (bit_vector)
            requires
                b0 == x as u8,
                b1 == (x >> 8) as u8,
                b2 == (x >> 16) as u8,
                b3 == (x >> 24) as u8,
        ;
    }

    fn size() -> usize {
        4
    }

    fn type_str() -> String {
        "int32".to_owned()
    }

    fn schema() -> String {
        "int32 value;".to_owned()
    }

    fn pack(&self, buffer: &mut Vec<u8>) {
        buffer.push(#[verifier::truncate] (*self as u8));
        buffer.push(#[verifier::truncate] ((*self >> 8) as u8));
        buffer.push(#[verifier::truncate] ((*self >> 16) as u8));
        buffer.push(#[verifier::truncate] ((*self >> 24) as u8));
        proof {
            assert(final(buffer)@ =~= old(buffer)@ + self.spec_pack());
        }
    }

    fn unpack(buffer: &[u8], pos: &mut usize) -> (r: i32) {
        let _len: usize = buffer.len();
        let b0: u8 = *slice_index_get(buffer, *pos);
        let b1: u8 = *slice_index_get(buffer, *pos + 1);
        let b2: u8 = *slice_index_get(buffer, *pos + 2);
        let b3: u8 = *slice_index_get(buffer, *pos + 3);
        *pos = *pos + 4;
        proof {
            assert(buffer@.subrange(*old(pos) as int, *old(pos) + 4) =~= seq![b0, b1, b2, b3]);
        }
        #[verifier::truncate] (((b0 as u32) | ((b1 as u32) << 8) | ((b2 as u32) << 16) | ((b3 as u32) << 24)) as i32)
    }
}


impl FrcStructure for i64 {
    open spec fn spec_size() -> nat {
        8
    }

    open spec fn spec_type_str() -> Seq<char> {
        "int64"@
    }

    open spec fn spec_schema() -> Seq<char> {
        "int64 value;"@
    }

    open spec fn spec_pack(self) -> Seq<u8> {
        seq![self as u8, (self >> 8) as u8, (self >> 16) as u8, (self >> 24) as u8, (self >> 32) as u8, (self >> 40) as u8, (self >> 48) as u8, (self >> 56) as u8]
    }

    open spec fn spec_unpack(bytes: Seq<u8>) -> i64 {
        ((bytes[0] as u64) | ((bytes[1] as u64) << 8) | ((bytes[2] as u64) << 16) | ((bytes[3] as u64) << 24) | ((bytes[4] as u64) << 32) | ((bytes[5] as u64) << 40) | ((bytes[6] as u64) << 48) | ((bytes[7] as u64) << 56)) as i64
    }

    proof fn lemma_pack_len(self) {
    }

    proof fn lemma_pack_unpack(self) {
        let x: i64 = self;
        let b0: u8 = x as u8;
        let b1: u8 = (x >> 8) as u8;
        let b2: u8 = (x >> 16) as u8;
        let b3: u8 = (x >> 24) as u8;
        let b4: u8 = (x >> 32) as u8;
        let b5: u8 = (x >> 40) as u8;
        let b6: u8 = (x >> 48) as u8;
        let b7: u8 = (x >> 56) as u8;
        assert((((b0 as u64) | ((b1 as u64) << 8) | ((b2 as u64) << 16) | ((b3 as u64) << 24) | ((b4 as u64) << 32) | ((b5 as u64) << 40) | ((b6 as u64) << 48) | ((b7 as u64) << 56)) as i64) == x) by (bit_vector)
            requires
                b0 == x as u8,
                b1 == (x >> 8) as u8,
                b2 == (x >> 16) as u8,
                b3 == (x >> 24) as u8,
                b4 == (x >> 32) as u8,
                b5 == (x >> 40) as u8,
                b6 == (x >> 48) as u8,
                b7 == (x >> 56) as u8,
        ;
    }

    fn size() -> usize {
        8
    }

    fn type_str() -> String {
        "int64".to_owned()
    }

    fn schema() -> String {
        "int64 value;".to_owned()
    }

    fn pack(&self, buffer: &mut Vec<u8>) {
        buffer.push(#[verifier::truncate] (*self as u8));
        buffer.push(#[verifier::truncate] ((*self >> 8) as u8));
        buffer.push(#[verifier::truncate] ((*self >> 16) as u8));
        buffer.push(#[verifier::truncate] ((*self >> 24) as u8));
        buffer.push(#[verifier::truncate] ((*self >> 32) as u8));
        buffer.push(#[verifier::truncate] ((*self >> 40) as u8));
        buffer.push(#[verifier::truncate] ((*self >> 48) as u8));
        buffer.push(#[verifier::truncate] ((*self >> 56) as u8));
        proof {
            assert(final(buffer)@ =~= old(buffer)@ + self.spec_pack());
        }
    }

    fn unpack(buffer: &[u8], pos: &mut usize) -> (r: i64) {
        let _len: usize = buffer.len();
        let b0: u8 = *slice_index_get(buffer, *pos);
        let b1: u8 = *slice_index_get(buffer, *pos + 1);
        let b2: u8 = *slice_index_get(buffer, *pos + 2);
        let b3: u8 = *slice_index_get(buffer, *pos + 3);
        let b4: u8 = *slice_index_get(buffer, *pos + 4);
        let b5: u8 = *slice_index_get(buffer, *pos + 5);
        let b6: u8 = *slice_index_get(buffer, *pos + 6);
        let b7: u8 = *slice_index_get(buffer, *pos + 7);
        *pos = *pos + 8;
        proof {
            assert(buffer@.subrange(*old(pos) as int, *old(pos) + 8) =~= seq![b0, b1, b2, b3, b4, b5, b6, b7]);
        }
        #[verifier::truncate] (((b0 as u64) | ((b1 as u64) << 8) | ((b2 as u64) << 16) | ((b3 as u64) << 24) | ((b4 as u64) << 32) | ((b5 as u64) << 40) | ((b6 as u64) << 48) | ((b7 as u64) << 56)) as i64)
    }
}

/// A fixed-length string of characters.
pub type StructString<const N: usize> = [char; N];

} // verus!
