use postcard_core::schema::fmt::is_prim;
use postcard_core::schema::owned::OwnedDataModelType;
use postcard_core::schema::varint_size_discriminant;
use postcard_core::schema::{Data, DataModelType, NamedField, Variant};
use postcard_core::ser::{self, AllocVec, Flavor as _};
use postcard_core::Schema;
use postcard_core::schema::view::TypeView;

// The schemas `#[derive(Schema)]` gives these types, written out.

#[allow(unused)]
enum Inner {
    Alpha,
    Beta,
    Gamma,
    Delta(i32, i16),
    Epsilon { zeta: u32, eta: bool },
}

impl Schema for Inner {
    fn schema_view() -> TypeView {
        unreachable!("the shape of a schema is for proofs only")
    }

    fn schema() -> DataModelType {
        DataModelType::Enum {
            name: "Inner",
            variants: vec![
                Variant { name: "Alpha", data: Data::Unit },
                Variant { name: "Beta", data: Data::Unit },
                Variant { name: "Gamma", data: Data::Unit },
                Variant { name: "Delta", data: Data::Tuple(vec![i32::schema(), i16::schema()]) },
                Variant {
                    name: "Epsilon",
                    data: Data::Struct(vec![
                        NamedField { name: "zeta", ty: u32::schema() },
                        NamedField { name: "eta", ty: bool::schema() },
                    ]),
                },
            ],
        }
    }
}

#[allow(unused)]
struct Outer<'a> {
    a: u32,
    b: u64,
    c: u8,
    d: Inner,
    e: [u8; 10],
    f: &'a [u8],
}

impl<'a> Schema for Outer<'a> {
    fn schema_view() -> TypeView {
        unreachable!("the shape of a schema is for proofs only")
    }

    fn schema() -> DataModelType {
        DataModelType::Struct {
            name: "Outer",
            data: Data::Struct(vec![
                NamedField { name: "a", ty: u32::schema() },
                NamedField { name: "b", ty: u64::schema() },
                NamedField { name: "c", ty: u8::schema() },
                NamedField { name: "d", ty: Inner::schema() },
                NamedField { name: "e", ty: <[u8; 10]>::schema() },
                NamedField { name: "f", ty: <&'a [u8]>::schema() },
            ]),
        }
    }
}

#[allow(unused)]
struct Slice<'a> {
    x: &'a [u8],
}

impl<'a> Schema for Slice<'a> {
    fn schema_view() -> TypeView {
        unreachable!("the shape of a schema is for proofs only")
    }

    fn schema() -> DataModelType {
        DataModelType::Struct {
            name: "Slice",
            data: Data::Struct(vec![NamedField { name: "x", ty: <&'a [u8]>::schema() }]),
        }
    }
}

#[test]
fn test_enum_serialize() {
    assert_eq!(
        DataModelType::Enum {
            name: "Inner",
            variants: vec![
                Variant { name: "Alpha", data: Data::Unit },
                Variant { name: "Beta", data: Data::Unit },
                Variant { name: "Gamma", data: Data::Unit },
                Variant {
                    name: "Delta",
                    data: Data::Tuple(vec![DataModelType::I32, DataModelType::I16])
                },
                Variant {
                    name: "Epsilon",
                    data: Data::Struct(vec![
                        NamedField { name: "zeta", ty: DataModelType::U32 },
                        NamedField { name: "eta", ty: DataModelType::Bool },
                    ]),
                }
            ],
        },
        Inner::schema()
    );
}

#[test]
fn test_struct_serialize() {
    assert_eq!(
        Outer::schema(),
        DataModelType::Struct {
            name: "Outer",
            data: Data::Struct(vec![
                NamedField { name: "a", ty: DataModelType::U32 },
                NamedField { name: "b", ty: DataModelType::U64 },
                NamedField { name: "c", ty: DataModelType::U8 },
                NamedField { name: "d", ty: Inner::schema() },
                NamedField {
                    name: "e",
                    ty: DataModelType::Array { item: Box::new(DataModelType::U8), count: 10 },
                },
                NamedField {
                    name: "f",
                    ty: DataModelType::SeqOf { element: Box::new(DataModelType::U8), max_len: None },
                },
            ]),
        }
    );
}

#[test]
fn test_slice_serialize() {
    assert_eq!(
        DataModelType::Struct {
            name: "Slice",
            data: Data::Struct(vec![NamedField {
                name: "x",
                ty: DataModelType::SeqOf { element: Box::new(DataModelType::U8), max_len: None },
            }]),
        },
        Slice::schema()
    );
}

#[allow(unused)]
struct Bound<F: Fun> {
    x: F::Out<u8>,
}

trait Fun {
    type Out<In: Schema>: Schema;
}

enum Id {}

impl Fun for Id {
    type Out<In: Schema> = In;
}

impl<F: Fun> Schema for Bound<F> {
    fn schema_view() -> TypeView {
        unreachable!("the shape of a schema is for proofs only")
    }

    fn schema() -> DataModelType {
        DataModelType::Struct {
            name: "Bound",
            data: Data::Struct(vec![NamedField { name: "x", ty: <F::Out<u8>>::schema() }]),
        }
    }
}

#[test]
fn test_bound_serialize() {
    assert_eq!(
        DataModelType::Struct {
            name: "Bound",
            data: Data::Struct(vec![NamedField { name: "x", ty: u8::schema() }]),
        },
        Bound::<Id>::schema(),
    );
}

#[allow(unused)]
struct TestStruct3(u64);

impl Schema for TestStruct3 {
    fn schema_view() -> TypeView {
        unreachable!("the shape of a schema is for proofs only")
    }

    fn schema() -> DataModelType {
        DataModelType::Struct { name: "TestStruct3", data: Data::Newtype(Box::new(u64::schema())) }
    }
}

#[allow(unused)]
struct TestStruct4(u64, bool);

impl Schema for TestStruct4 {
    fn schema_view() -> TypeView {
        unreachable!("the shape of a schema is for proofs only")
    }

    fn schema() -> DataModelType {
        DataModelType::Struct {
            name: "TestStruct4",
            data: Data::Tuple(vec![u64::schema(), bool::schema()]),
        }
    }
}

#[allow(unused)]
enum TestEnum2 {
    Nt(u64),
    Tup(u64, bool),
}

impl Schema for TestEnum2 {
    fn schema_view() -> TypeView {
        unreachable!("the shape of a schema is for proofs only")
    }

    fn schema() -> DataModelType {
        DataModelType::Enum {
            name: "TestEnum2",
            variants: vec![
                Variant { name: "Nt", data: Data::Newtype(Box::new(u64::schema())) },
                Variant { name: "Tup", data: Data::Tuple(vec![u64::schema(), bool::schema()]) },
            ],
        }
    }
}

#[test]
fn newtype_vs_tuple() {
    assert_eq!(
        TestStruct3::schema(),
        DataModelType::Struct {
            name: "TestStruct3",
            data: Data::Newtype(Box::new(DataModelType::U64))
        }
    );

    assert_eq!(
        TestStruct4::schema(),
        DataModelType::Struct {
            name: "TestStruct4",
            data: Data::Tuple(vec![DataModelType::U64, DataModelType::Bool]),
        }
    );

    assert_eq!(
        TestEnum2::schema(),
        DataModelType::Enum {
            name: "TestEnum2",
            variants: vec![
                Variant { name: "Nt", data: Data::Newtype(Box::new(DataModelType::U64)) },
                Variant {
                    name: "Tup",
                    data: Data::Tuple(vec![DataModelType::U64, DataModelType::Bool])
                },
            ],
        }
    );
}

// Formatting

fn dewit<T: Schema + ?Sized>() -> String {
    let schema = OwnedDataModelType::from(&T::schema());
    schema.to_pseudocode()
}

#[allow(unused)]
struct UnitStruct;

impl Schema for UnitStruct {
    fn schema_view() -> TypeView {
        unreachable!("the shape of a schema is for proofs only")
    }

    fn schema() -> DataModelType {
        DataModelType::Struct { name: "UnitStruct", data: Data::Unit }
    }
}

#[allow(unused)]
struct NewTypeStruct(String);

impl Schema for NewTypeStruct {
    fn schema_view() -> TypeView {
        unreachable!("the shape of a schema is for proofs only")
    }

    fn schema() -> DataModelType {
        DataModelType::Struct {
            name: "NewTypeStruct",
            data: Data::Newtype(Box::new(String::schema())),
        }
    }
}

#[allow(unused)]
struct TupStruct(u64, String);

impl Schema for TupStruct {
    fn schema_view() -> TypeView {
        unreachable!("the shape of a schema is for proofs only")
    }

    fn schema() -> DataModelType {
        DataModelType::Struct {
            name: "TupStruct",
            data: Data::Tuple(vec![u64::schema(), String::schema()]),
        }
    }
}

#[allow(unused)]
enum Enums {
    Unit,
    Nt(u64),
    Tup(u32, bool),
}

impl Schema for Enums {
    fn schema_view() -> TypeView {
        unreachable!("the shape of a schema is for proofs only")
    }

    fn schema() -> DataModelType {
        DataModelType::Enum {
            name: "Enums",
            variants: vec![
                Variant { name: "Unit", data: Data::Unit },
                Variant { name: "Nt", data: Data::Newtype(Box::new(u64::schema())) },
                Variant { name: "Tup", data: Data::Tuple(vec![u32::schema(), bool::schema()]) },
            ],
        }
    }
}

#[allow(unused)]
struct Classic {
    a: u32,
    b: u16,
    c: bool,
}

impl Schema for Classic {
    fn schema_view() -> TypeView {
        unreachable!("the shape of a schema is for proofs only")
    }

    fn schema() -> DataModelType {
        DataModelType::Struct {
            name: "Classic",
            data: Data::Struct(vec![
                NamedField { name: "a", ty: u32::schema() },
                NamedField { name: "b", ty: u16::schema() },
                NamedField { name: "c", ty: bool::schema() },
            ]),
        }
    }
}

#[allow(unused)]
struct ClassicGen<T: Schema> {
    a: u32,
    b: T,
}

impl<T: Schema> Schema for ClassicGen<T> {
    fn schema_view() -> TypeView {
        unreachable!("the shape of a schema is for proofs only")
    }

    fn schema() -> DataModelType {
        DataModelType::Struct {
            name: "ClassicGen",
            data: Data::Struct(vec![
                NamedField { name: "a", ty: u32::schema() },
                NamedField { name: "b", ty: T::schema() },
            ]),
        }
    }
}

#[test]
fn schema_smoke() {
    let tests: &[(fn() -> String, &str)] = &[
        (dewit::<u8>, "u8"),
        (dewit::<u16>, "u16"),
        (dewit::<u32>, "u32"),
        (dewit::<u64>, "u64"),
        (dewit::<u128>, "u128"),
        (dewit::<i8>, "i8"),
        (dewit::<i16>, "i16"),
        (dewit::<i32>, "i32"),
        (dewit::<i64>, "i64"),
        (dewit::<i128>, "i128"),
        (dewit::<()>, "()"),
        (dewit::<char>, "char"),
        (dewit::<bool>, "bool"),
        (dewit::<String>, "String"),
        (dewit::<Option<u16>>, "Option<u16>"),
        (dewit::<UnitStruct>, "struct UnitStruct"),
        (dewit::<Option<UnitStruct>>, "Option<UnitStruct>"),
        (dewit::<NewTypeStruct>, "struct NewTypeStruct(String)"),
        (dewit::<Option<NewTypeStruct>>, "Option<NewTypeStruct>"),
        (dewit::<Enums>, "enum Enums { Unit, Nt(u64), Tup(u32, bool) }"),
        (dewit::<Option<Enums>>, "Option<Enums>"),
        (dewit::<&[u8]>, "[u8]"),
        (dewit::<Vec<u16>>, "[u16]"),
        (dewit::<[u8; 16]>, "[u8; 16]"),
        (dewit::<(u8, u16, u32)>, "(u8, u16, u32)"),
        (dewit::<TupStruct>, "struct TupStruct(u64, String)"),
        (dewit::<Option<TupStruct>>, "Option<TupStruct>"),
        (dewit::<Classic>, "struct Classic { a: u32, b: u16, c: bool }"),
        (dewit::<ClassicGen<i32>>, "struct ClassicGen { a: u32, b: i32 }"),
        (dewit::<Option<Classic>>, "Option<Classic>"),
        (dewit::<Option<ClassicGen<i32>>>, "Option<ClassicGen>"),
    ];
    for (f, s) in tests {
        assert_eq!(f().as_str(), *s);
    }
}

#[test]
fn pseudocode_of_same_typed_tuple_reads_as_array() {
    assert_eq!(dewit::<(u8, u8, u8)>(), "[u8; 3]");
    assert_eq!(dewit::<(u8,)>(), "[u8; 1]");
    let empty = OwnedDataModelType::Tuple(vec![]);
    assert_eq!(empty.to_pseudocode(), "()");
}

#[test]
fn pseudocode_of_map_and_bytes() {
    let map = OwnedDataModelType::MapOf {
        key: Box::new(OwnedDataModelType::U32),
        val: Box::new(OwnedDataModelType::String { max_len: None }),
        max_len: None,
    };
    assert_eq!(map.to_pseudocode(), "Map<u32, String>");
    let bytes = OwnedDataModelType::ByteArray { max_len: None };
    assert_eq!(bytes.to_pseudocode(), "[u8]");
    assert_eq!(OwnedDataModelType::Schema.to_pseudocode(), "Schema");
    let big = OwnedDataModelType::Array { item: Box::new(OwnedDataModelType::U8), count: 1234567 };
    assert_eq!(big.to_pseudocode(), "[u8; 1234567]");
}

#[test]
fn nested_types_are_named_not_written_out() {
    let mut buf = String::new();
    let classic = OwnedDataModelType::from(&Classic::schema());
    postcard_core::schema::fmt::fmt_owned_dmt_to_buf(&classic, &mut buf, false);
    assert_eq!(buf, "Classic");
    buf.push_str(" / ");
    postcard_core::schema::fmt::fmt_owned_dmt_to_buf(&classic, &mut buf, true);
    assert_eq!(buf, "Classic / struct Classic { a: u32, b: u16, c: bool }");
}

#[test]
fn is_prim_cases() {
    assert!(is_prim(&OwnedDataModelType::U8));
    assert!(is_prim(&OwnedDataModelType::String { max_len: None }));
    assert!(is_prim(&OwnedDataModelType::Option(Box::new(OwnedDataModelType::Bool))));
    assert!(!is_prim(&OwnedDataModelType::SeqOf {
        element: Box::new(OwnedDataModelType::U8),
        max_len: None
    }));
    assert!(!is_prim(&OwnedDataModelType::from(&Classic::schema())));
    assert!(is_prim(&OwnedDataModelType::Array { item: Box::new(OwnedDataModelType::U8), count: 2 }));
    assert!(!is_prim(&OwnedDataModelType::MapOf {
        key: Box::new(OwnedDataModelType::U8),
        val: Box::new(OwnedDataModelType::Tuple(vec![])),
        max_len: None
    }));
}

#[test]
fn all_used_types_lists_each_once() {
    let ty = OwnedDataModelType::from(&<(Classic, Option<Classic>, u32)>::schema());
    let used = ty.all_used_types();
    // The tuple, Classic, Option<Classic>, u32, u16 and bool
    assert_eq!(used.len(), 6);
    let names: Vec<String> = used.iter().map(|t| t.to_pseudocode()).collect();
    assert!(names.contains(&"struct Classic { a: u32, b: u16, c: bool }".to_string()));
    assert!(names.contains(&"Option<Classic>".to_string()));
    assert!(names.contains(&"u16".to_string()));
    assert!(names.contains(&"bool".to_string()));
    assert!(names.contains(&"u32".to_string()));
    assert!(names.contains(&"(Classic, Option<Classic>, u32)".to_string()));
}

#[test]
fn owned_copy_keeps_shape_and_names() {
    let borrowed = Enums::schema();
    let owned = OwnedDataModelType::from(&borrowed);
    match owned {
        OwnedDataModelType::Enum { ref name, ref variants } => {
            assert_eq!(name, "Enums");
            assert_eq!(variants.len(), 3);
            assert_eq!(variants[1].name, "Nt");
        }
        _ => panic!("not an enum"),
    }
    assert_eq!(owned.to_pseudocode(), "enum Enums { Unit, Nt(u64), Tup(u32, bool) }");
}

#[test]
fn max_size_of_schemas() {
    assert_eq!(u8::schema().max_size(), Some(1));
    assert_eq!(u16::schema().max_size(), Some(3));
    assert_eq!(u32::schema().max_size(), Some(5));
    assert_eq!(u64::schema().max_size(), Some(10));
    assert_eq!(u128::schema().max_size(), Some(19));
    assert_eq!(Option::<u32>::schema().max_size(), Some(6));
    assert_eq!(<[u16; 4]>::schema().max_size(), Some(12));
    assert_eq!(Classic::schema().max_size(), Some(9));
    assert_eq!(String::schema().max_size(), None);
    assert_eq!(Vec::<u8>::schema().max_size(), None);
    // A discriminant, then the largest variant
    assert_eq!(Enums::schema().max_size(), Some(11));
    let owned = OwnedDataModelType::from(&Enums::schema());
    assert_eq!(owned.max_size(), Some(11));
}

#[test]
fn varint_size_of_discriminants() {
    assert_eq!(varint_size_discriminant(0), 0);
    assert_eq!(varint_size_discriminant(1), 1);
    assert_eq!(varint_size_discriminant(127), 1);
    assert_eq!(varint_size_discriminant(128), 2);
    assert_eq!(varint_size_discriminant(16383), 2);
    assert_eq!(varint_size_discriminant(16384), 3);
    assert_eq!(varint_size_discriminant(u32::MAX), 5);
}

#[test]
fn discriminant_size_is_its_encoded_length() {
    for n in [1u32, 2, 127, 128, 300, 16383, 16384, 2_097_151, 2_097_152, u32::MAX] {
        let mut f = AllocVec::new();
        ser::try_push_discriminant(&mut f, n).unwrap();
        let len = f.finalize().unwrap().len();
        assert_eq!(varint_size_discriminant(n) as usize, len);
    }
}
