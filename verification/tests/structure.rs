use frclib_core::batch::FrcStructureBytes;
use frclib_core::codec::FrcStructure;
use frclib_core::codec::try_unpack;
use frclib_core::dynamic::DynamicStructure;
use frclib_core::error::SchemaError;
use frclib_core::prims::StructureFieldTypes;
use frclib_core::registry::FrcStructDesc;
use frclib_core::registry::FrcStructDescDB;
use frclib_core::schema::parse_schema;
use frclib_core::schema::parse_schema_toplevel;
use frclib_core::schema::resolve_descriptor;

fn desc(schema: &str, type_str: &str, size: usize) -> FrcStructDesc {
    FrcStructDesc { schema: schema.to_string(), type_str: type_str.to_string(), size }
}

#[test]
fn base_sizes_match_table() {
    assert_eq!(StructureFieldTypes::Bool(1).base_size(), 1);
    assert_eq!(StructureFieldTypes::Char(1).base_size(), 1);
    assert_eq!(StructureFieldTypes::Int8(1).base_size(), 1);
    assert_eq!(StructureFieldTypes::Int16(1).base_size(), 2);
    assert_eq!(StructureFieldTypes::Int32(1).base_size(), 4);
    assert_eq!(StructureFieldTypes::Int64(1).base_size(), 8);
    assert_eq!(StructureFieldTypes::UInt8(1).base_size(), 1);
    assert_eq!(StructureFieldTypes::UInt16(1).base_size(), 2);
    assert_eq!(StructureFieldTypes::UInt32(1).base_size(), 4);
    assert_eq!(StructureFieldTypes::UInt64(1).base_size(), 8);
    assert_eq!(StructureFieldTypes::Float32(1).base_size(), 4);
    assert_eq!(StructureFieldTypes::Float64(1).base_size(), 8);
}

#[test]
fn total_size_is_base_times_count() {
    assert_eq!(StructureFieldTypes::Int32(3).size(), 12);
    assert_eq!(StructureFieldTypes::Bool(7).size(), 7);
    assert_eq!(StructureFieldTypes::Float64(2).size(), 16);
    assert_eq!(StructureFieldTypes::UInt16(0).size(), 0);
    assert_eq!(StructureFieldTypes::Int64(5).checked_size(), Some(40));
}

#[test]
fn from_type_keywords() {
    assert_eq!(StructureFieldTypes::from_type("bool", 2), Some(StructureFieldTypes::Bool(2)));
    assert_eq!(StructureFieldTypes::from_type("float", 1), Some(StructureFieldTypes::Float32(1)));
    assert_eq!(
        StructureFieldTypes::from_type("float32", 1),
        Some(StructureFieldTypes::Float32(1))
    );
    assert_eq!(StructureFieldTypes::from_type("double", 1), Some(StructureFieldTypes::Float64(1)));
    assert_eq!(
        StructureFieldTypes::from_type("float64", 1),
        Some(StructureFieldTypes::Float64(1))
    );
    assert_eq!(StructureFieldTypes::from_type("uint32", 4), Some(StructureFieldTypes::UInt32(4)));
    assert_eq!(StructureFieldTypes::from_type("word", 1), None);
    assert_eq!(StructureFieldTypes::from_type("Int32", 1), None);
}

#[test]
fn registry_add_is_idempotent() {
    let mut db = FrcStructDescDB::new();
    let first = desc("int32 x;int32 y;", "vec2", 8);
    let second = desc("int64 z;", "vec2", 8);
    db.add(first.clone()).expect("a consistent descriptor must register");
    assert_eq!(db.add(second), Ok(()));
    assert_eq!(db.len(), 1);
    assert!(db.contains_type("vec2"));
    let found = db.get("vec2").expect("vec2 must be catalogued");
    assert_eq!(*found, first);
    assert_eq!(db.iterate().len(), 1);
}

#[test]
fn registry_lookup_absent() {
    let mut db = FrcStructDescDB::new();
    assert!(!db.contains_type("vec2"));
    assert!(db.get("vec2").is_none());
    db.add_ref(&desc("int32 x;", "vec1", 4)).expect("vec1 must register");
    assert!(db.contains_type("vec1"));
    assert!(db.get("vec2").is_none());
    assert_eq!(db.get("vec1").unwrap().size, 4);
}

#[test]
fn resolve_two_int32_fields() {
    let db = FrcStructDescDB::new();
    let d = desc("int32 x;int32 y;", "vec2", 8);
    let entries = resolve_descriptor(&d, &db).expect("schema must resolve");
    assert_eq!(entries.len(), 2);
    assert_eq!(entries[0].path, "x");
    assert_eq!(entries[0].offset, 0);
    assert_eq!(entries[0].ty, StructureFieldTypes::Int32(1));
    assert_eq!(entries[1].path, "y");
    assert_eq!(entries[1].offset, 4);
    assert_eq!(entries[1].ty, StructureFieldTypes::Int32(1));
}

#[test]
fn resolve_nested_substructure() {
    let mut db = FrcStructDescDB::new();
    db.add(desc("float32 x;float32 y;float32 z;", "point3", 12)).expect("point3 must register");
    let outer = desc("point3 p;int8 flag;", "tagged", 13);
    let entries = resolve_descriptor(&outer, &db).expect("nested schema must resolve");
    assert_eq!(entries.len(), 4);
    assert_eq!(entries[0].path, "p.x");
    assert_eq!(entries[0].offset, 0);
    assert_eq!(entries[0].ty, StructureFieldTypes::Float32(1));
    assert_eq!(entries[1].path, "p.y");
    assert_eq!(entries[1].offset, 4);
    assert_eq!(entries[2].path, "p.z");
    assert_eq!(entries[2].offset, 8);
    assert_eq!(entries[3].path, "flag");
    assert_eq!(entries[3].offset, 12);
    assert_eq!(entries[3].ty, StructureFieldTypes::Int8(1));
}

#[test]
fn resolve_doubly_nested_prefixes() {
    let mut db = FrcStructDescDB::new();
    db.add(desc("int16 a;int16 b;", "inner", 4)).expect("inner must register");
    db.add(desc("inner q;int8 t;", "middle", 5)).expect("middle must register");
    let outer = desc("middle m;uint8 u;", "outer", 6);
    let entries = resolve_descriptor(&outer, &db).expect("doubly nested schema must resolve");
    assert_eq!(entries.len(), 4);
    assert_eq!(entries[0].path, "m.q.a");
    assert_eq!(entries[0].offset, 0);
    assert_eq!(entries[1].path, "m.q.b");
    assert_eq!(entries[1].offset, 2);
    assert_eq!(entries[2].path, "m.t");
    assert_eq!(entries[2].offset, 4);
    assert_eq!(entries[3].path, "u");
    assert_eq!(entries[3].offset, 5);
}

#[test]
fn resolve_array_counts() {
    let db = FrcStructDescDB::new();
    let bare = desc("int8 xs 3;uint16 y;", "packet", 5);
    let entries = resolve_descriptor(&bare, &db).expect("bare count must resolve");
    assert_eq!(entries[0].ty, StructureFieldTypes::Int8(3));
    assert_eq!(entries[1].offset, 3);

    let bracketed = desc("int8 xs[3];uint16 y;", "packet2", 5);
    let entries2 = resolve_descriptor(&bracketed, &db).expect("bracketed count must resolve");
    assert_eq!(entries2[0].ty, StructureFieldTypes::Int8(3));
    assert_eq!(entries2[1].offset, 3);
}

#[test]
fn resolve_unknown_type_is_an_error() {
    let db = FrcStructDescDB::new();
    let d = desc("vector2 v;", "holder", 8);
    assert_eq!(
        resolve_descriptor(&d, &db),
        Err(SchemaError::UnresolvedSubStructureReference)
    );
}

#[test]
fn resolve_malformed_schemas() {
    let db = FrcStructDescDB::new();
    assert_eq!(
        resolve_descriptor(&desc("int32 x", "t1", 4), &db),
        Err(SchemaError::MalformedSchemaToken)
    );
    assert_eq!(
        resolve_descriptor(&desc("int32;", "t2", 4), &db),
        Err(SchemaError::MalformedSchemaToken)
    );
    assert_eq!(
        resolve_descriptor(&desc("int32 x 4 5;", "t3", 16), &db),
        Err(SchemaError::MalformedSchemaToken)
    );
    assert_eq!(
        resolve_descriptor(&desc("int32 x @;", "t4", 4), &db),
        Err(SchemaError::MalformedSchemaToken)
    );
    assert_eq!(
        resolve_descriptor(&desc("int32 x 5000000000;", "t5", 4), &db),
        Err(SchemaError::MalformedSchemaToken)
    );
}

#[test]
fn resolve_size_mismatch() {
    let db = FrcStructDescDB::new();
    let d = desc("int32 x;", "narrow", 5);
    assert_eq!(resolve_descriptor(&d, &db), Err(SchemaError::SizeMismatch));
}

#[test]
fn add_validates_at_registration() {
    let mut db = FrcStructDescDB::new();
    assert_eq!(
        db.add(desc("int32 x;", "narrow", 5)),
        Err(SchemaError::SizeMismatch)
    );
    assert!(!db.contains_type("narrow"));
    assert_eq!(
        db.add(desc("ghost g;", "holder", 4)),
        Err(SchemaError::UnresolvedSubStructureReference)
    );
    assert_eq!(
        db.add(desc("int32 x", "unterminated", 4)),
        Err(SchemaError::MalformedSchemaToken)
    );
    assert_eq!(
        db.add(desc("knot k;", "knot", 4)),
        Err(SchemaError::UnresolvedSubStructureReference)
    );
    assert_eq!(db.len(), 0);
    assert_eq!(db.add(desc("int32 x;", "vec1", 4)), Ok(()));
    assert_eq!(db.len(), 1);
}

#[test]
fn nesting_deeper_than_the_budget_is_an_error() {
    let mut db = FrcStructDescDB::new();
    db.add(desc("int16 a;", "leaf", 2)).expect("leaf must register");
    db.add(desc("leaf l;", "branch", 2)).expect("branch must register");
    assert_eq!(
        parse_schema("branch b;", &db, "", 0, 1),
        Err(SchemaError::CyclicSubStructureReference)
    );
    let (entries, end) = parse_schema("branch b;", &db, "", 0, 2).expect("enough budget");
    assert_eq!(end, 2);
    assert_eq!(entries[0].path, "b.l.a");
}

#[test]
fn toplevel_parse_keeps_declaration_order() {
    let mut db = FrcStructDescDB::new();
    db.add(desc("uint8 r;uint8 g;uint8 b;", "rgb", 3)).expect("rgb must register");
    let entries = parse_schema_toplevel("bool on;rgb c;int16 w;", &db).expect("must resolve");
    let paths: Vec<&str> = entries.iter().map(|e| e.path.as_str()).collect();
    assert_eq!(paths, vec!["on", "c.r", "c.g", "c.b", "w"]);
    let offsets: Vec<usize> = entries.iter().map(|e| e.offset).collect();
    assert_eq!(offsets, vec![0, 1, 2, 3, 4]);
}

#[test]
fn pack_unpack_round_trips() {
    fn round_trip<T: FrcStructure + PartialEq + std::fmt::Debug>(v: T) {
        let mut buffer: Vec<u8> = Vec::new();
        v.pack(&mut buffer);
        assert_eq!(buffer.len(), T::size());
        let mut pos: usize = 0;
        let back = T::unpack(&buffer, &mut pos);
        assert_eq!(pos, T::size());
        assert_eq!(back, v);
    }
    round_trip(true);
    round_trip(false);
    round_trip(0xabu8);
    round_trip(-128i8);
    round_trip(0xbeefu16);
    round_trip(-2i16);
    round_trip(0xdeadbeefu32);
    round_trip(-123456i32);
    round_trip(u64::MAX);
    round_trip(i64::MIN);
}

#[test]
fn packed_bytes_are_little_endian() {
    let mut buffer: Vec<u8> = Vec::new();
    0x0102030405060708u64.pack(&mut buffer);
    assert_eq!(buffer, vec![8, 7, 6, 5, 4, 3, 2, 1]);
    let mut buffer16: Vec<u8> = Vec::new();
    0x1234u16.pack(&mut buffer16);
    assert_eq!(buffer16, vec![0x34, 0x12]);
}

#[test]
fn try_unpack_reports_truncation() {
    let bytes: Vec<u8> = vec![1, 2];
    let mut pos: usize = 0;
    let r: Result<u32, SchemaError> = try_unpack(&bytes, &mut pos);
    assert_eq!(r, Err(SchemaError::TruncatedInput));
    assert_eq!(pos, 0);
    let ok: Result<u16, SchemaError> = try_unpack(&bytes, &mut pos);
    assert_eq!(ok, Ok(0x0201));
    assert_eq!(pos, 2);
    let empty: Result<u16, SchemaError> = try_unpack(&bytes, &mut pos);
    assert_eq!(empty, Err(SchemaError::TruncatedInput));
}

#[test]
fn description_assembles_the_three_facts() {
    let d = <i16 as FrcStructure>::description();
    assert_eq!(d.type_str, "int16");
    assert_eq!(d.schema, "int16 value;");
    assert_eq!(d.size, 2);
    let db = FrcStructDescDB::new();
    let entries = resolve_descriptor(&d, &db).expect("primitive descriptor must resolve");
    assert_eq!(entries.len(), 1);
    assert_eq!(entries[0].path, "value");
}

#[test]
fn format_field_prepends_the_type() {
    assert_eq!(<u32 as FrcStructure>::format_field("x"), "uint32 x");
    assert_eq!(<bool as FrcStructure>::format_field("enabled"), "bool enabled");
}

#[test]
fn batch_rejects_wrong_length() {
    let d = desc("uint32 value;", "uint32", 4);
    assert!(matches!(
        FrcStructureBytes::from_parts(&d, 2, vec![0; 7]),
        Err(SchemaError::SizeMismatch)
    ));
    assert!(matches!(
        FrcStructureBytes::from_parts(&d, 0, vec![0; 1]),
        Err(SchemaError::SizeMismatch)
    ));
    assert!(FrcStructureBytes::from_parts(&d, 0, Vec::new()).is_ok());
}

#[test]
fn batch_elements_unpack_independently() {
    let d = <u32 as FrcStructure>::description();
    let mut data: Vec<u8> = Vec::new();
    10u32.pack(&mut data);
    0xdeadbeefu32.pack(&mut data);
    30u32.pack(&mut data);
    let batch = FrcStructureBytes::from_parts(&d, 3, data).expect("exact length must be accepted");
    assert_eq!(batch.count(), 3);
    assert_eq!(batch.data().len(), 12);
    assert_eq!(batch.desc().size, 4);
    let expected: Vec<u32> = vec![10, 0xdeadbeef, 30];
    for (i, want) in expected.iter().enumerate() {
        let slice = batch.element(i);
        let mut pos: usize = 0;
        let got = u32::unpack(slice, &mut pos);
        assert_eq!(got, *want);
    }
}

#[test]
fn dynamic_view_rejects_wrong_length() {
    let db = FrcStructDescDB::new();
    let d = desc("int32 x;int32 y;", "vec2", 8);
    assert!(matches!(
        DynamicStructure::try_new(&d, &db, vec![0; 7]),
        Err(SchemaError::SizeMismatch)
    ));
}

#[test]
fn dynamic_view_resolves_once_and_updates() {
    let db = FrcStructDescDB::new();
    let d = desc("uint16 a;uint8 b;", "mix", 3);
    let mut view = DynamicStructure::try_new(&d, &db, vec![0x34, 0x12, 9]).expect("must build");
    assert_eq!(view.description().type_str, "mix");
    assert_eq!(view.fields().len(), 2);
    assert_eq!(view.fields()[0].path, "a");
    assert_eq!(view.fields()[0].offset, 0);
    assert_eq!(view.fields()[1].path, "b");
    assert_eq!(view.fields()[1].offset, 2);
    assert_eq!(view.buffer().as_slice(), &[0x34, 0x12, 9]);

    assert_eq!(view.update(&[1, 2, 3, 4]), Err(SchemaError::SizeMismatch));
    assert_eq!(view.buffer().as_slice(), &[0x34, 0x12, 9]);
    assert_eq!(view.update(&[5, 6, 7]), Ok(()));
    assert_eq!(view.buffer().as_slice(), &[5, 6, 7]);
}

#[test]
fn dynamic_view_propagates_schema_errors() {
    let db = FrcStructDescDB::new();
    let d = desc("ghost g;", "holder", 4);
    assert_eq!(
        DynamicStructure::try_new(&d, &db, vec![0; 4]).err(),
        Some(SchemaError::UnresolvedSubStructureReference)
    );
    let bad = desc("int32 x;", "narrow", 6);
    assert_eq!(
        DynamicStructure::try_new(&bad, &db, vec![0; 6]).err(),
        Some(SchemaError::SizeMismatch)
    );
}

#[test]
fn error_messages_are_nonempty() {
    let kinds = [
        SchemaError::UnresolvedSubStructureReference,
        SchemaError::MalformedSchemaToken,
        SchemaError::CyclicSubStructureReference,
        SchemaError::SizeMismatch,
        SchemaError::TruncatedInput,
    ];
    for k in kinds {
        assert!(!k.message().is_empty());
    }
}

#[test]
fn struct_string_is_a_char_array() {
    let s: frclib_core::codec::StructString<3> = ['a', 'b', 'c'];
    assert_eq!(s.len(), 3);
    assert_eq!(s[1], 'b');
}

#[test]
fn empty_schema_resolves_to_no_fields() {
    let db = FrcStructDescDB::new();
    let entries = resolve_descriptor(&desc("", "unit0", 0), &db).expect("empty schema, size 0");
    assert!(entries.is_empty());
    let spaced = resolve_descriptor(&desc(" \t\n", "unit1", 0), &db).expect("whitespace only");
    assert!(spaced.is_empty());
    assert_eq!(
        resolve_descriptor(&desc("", "unit2", 1), &db),
        Err(SchemaError::SizeMismatch)
    );
}

#[test]
fn zero_count_field_occupies_no_bytes() {
    let db = FrcStructDescDB::new();
    let entries = resolve_descriptor(&desc("int8 xs 0;uint8 y;", "thin", 1), &db)
        .expect("zero-count field must resolve");
    assert_eq!(entries[0].ty, StructureFieldTypes::Int8(0));
    assert_eq!(entries[0].offset, 0);
    assert_eq!(entries[1].offset, 0);
}

#[test]
fn substructure_count_is_ignored() {
    let mut db = FrcStructDescDB::new();
    db.add(desc("uint8 r;uint8 g;", "pair", 2)).expect("pair must register");
    let entries = resolve_descriptor(&desc("pair p 4;uint8 t;", "holder", 3), &db)
        .expect("sub-structure count is ignored");
    assert_eq!(entries.len(), 3);
    assert_eq!(entries[2].path, "t");
    assert_eq!(entries[2].offset, 2);
}

#[test]
fn identifiers_allow_dash_underscore_digits() {
    let db = FrcStructDescDB::new();
    let entries = resolve_descriptor(&desc("int8 x-y_2;uint8 _z;", "odd", 2), &db)
        .expect("dashed identifiers must lex");
    assert_eq!(entries[0].path, "x-y_2");
    assert_eq!(entries[1].path, "_z");
}
