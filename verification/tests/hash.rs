use postcard_core::key::hash::fnv1a64::{hash_ty_path, hasher};
use postcard_core::key::hash::fnv1a64_owned;
use postcard_core::key::hash::{Fnv1a64Hasher, HashItem, HashOptions};
use postcard_core::max_len::MaxLenString;
use postcard_core::schema::owned::OwnedDataModelType;
use postcard_core::schema::{Data, DataModelType, NamedField, Variant};
use postcard_core::Schema;
use postcard_core::schema::view::TypeView;

// The schemas `#[derive(Schema)]` gives these types, written out.

#[allow(dead_code)]
struct Foo {
    a: u32,
    b: String,
}

impl Schema for Foo {
    fn schema_view() -> TypeView {
        unreachable!("the shape of a schema is for proofs only")
    }

    fn schema() -> DataModelType {
        DataModelType::Struct {
            name: "Foo",
            data: Data::Struct(vec![
                NamedField { name: "a", ty: u32::schema() },
                NamedField { name: "b", ty: String::schema() },
            ]),
        }
    }
}

#[allow(dead_code)]
enum Bar {
    A,
    B(Foo),
}

impl Schema for Bar {
    fn schema_view() -> TypeView {
        unreachable!("the shape of a schema is for proofs only")
    }

    fn schema() -> DataModelType {
        DataModelType::Enum {
            name: "Bar",
            variants: vec![
                Variant { name: "A", data: Data::Unit },
                Variant { name: "B", data: Data::Newtype(Box::new(Foo::schema())) },
            ],
        }
    }
}

#[allow(dead_code)]
struct Foo2<const N: usize> {
    a: u32,
    b: MaxLenString<N>,
}

impl<const N: usize> Schema for Foo2<N> {
    fn schema_view() -> TypeView {
        unreachable!("the shape of a schema is for proofs only")
    }

    fn schema() -> DataModelType {
        DataModelType::Struct {
            name: "Foo2",
            data: Data::Struct(vec![
                NamedField { name: "a", ty: u32::schema() },
                NamedField { name: "b", ty: MaxLenString::<N>::schema() },
            ]),
        }
    }
}

#[allow(dead_code)]
enum Bar2<const N: usize> {
    A,
    B(Foo2<N>),
}

impl<const N: usize> Schema for Bar2<N> {
    fn schema_view() -> TypeView {
        unreachable!("the shape of a schema is for proofs only")
    }

    fn schema() -> DataModelType {
        DataModelType::Enum {
            name: "Bar2",
            variants: vec![
                Variant { name: "A", data: Data::Unit },
                Variant { name: "B", data: Data::Newtype(Box::new(Foo2::<N>::schema())) },
            ],
        }
    }
}

#[test]
fn hash_stability() {
    let default_opts = HashOptions::default();
    let mut max_opts = HashOptions::default();
    max_opts.hash_max_size = true;

    let bar = Bar::schema();
    assert_eq!(hash_ty_path::<Bar>("test_path"), [139, 128, 52, 27, 107, 8, 218, 98]);
    assert_eq!(
        hasher(&default_opts, &[HashItem::String("test_path"), HashItem::Schema(&bar)]),
        [139, 128, 52, 27, 107, 8, 218, 98]
    );
    assert_eq!(
        hasher(&max_opts, &[HashItem::String("test_path"), HashItem::Schema(&bar)]),
        [224, 143, 54, 58, 255, 237, 252, 44]
    );

    let bar2_32 = Bar2::<32>::schema();
    assert_eq!(hash_ty_path::<Bar2<32>>("test_path"), [139, 128, 52, 27, 107, 8, 218, 98]);
    assert_eq!(
        hasher(&default_opts, &[HashItem::String("test_path"), HashItem::Schema(&bar2_32)]),
        [139, 128, 52, 27, 107, 8, 218, 98]
    );
    assert_eq!(
        hasher(&max_opts, &[HashItem::String("test_path"), HashItem::Schema(&bar2_32)]),
        [64, 67, 182, 234, 175, 40, 88, 168]
    );

    let bar2_64 = Bar2::<64>::schema();
    assert_eq!(hash_ty_path::<Bar2<64>>("test_path"), [139, 128, 52, 27, 107, 8, 218, 98]);
    assert_eq!(
        hasher(&default_opts, &[HashItem::String("test_path"), HashItem::Schema(&bar2_64)]),
        [139, 128, 52, 27, 107, 8, 218, 98]
    );
    assert_eq!(
        hasher(&max_opts, &[HashItem::String("test_path"), HashItem::Schema(&bar2_64)]),
        [224, 12, 182, 234, 175, 8, 88, 168]
    );
}

#[test]
fn type_punning_good() {
    let hash_1 = hash_ty_path::<Vec<u8>>("test_path");
    let hash_2 = hash_ty_path::<&[u8]>("test_path");
    let hash_3 = hash_ty_path::<Vec<u16>>("test_path");
    let hash_4 = hash_ty_path::<&[u16]>("test_path");
    let hash_5 = hash_ty_path::<Vec<u8>>("test_patt");
    let hash_6 = hash_ty_path::<&[u8]>("test_patt");
    assert_eq!(hash_1, hash_2);
    assert_eq!(hash_3, hash_4);
    assert_ne!(hash_1, hash_3);
    assert_ne!(hash_2, hash_4);
    assert_ne!(hash_1, hash_5);
    assert_ne!(hash_2, hash_6);
}

#[test]
fn fnv1a_known_digests() {
    // FNV-1a 64 of the empty input is the offset basis; of "a" it is a published value.
    let h = Fnv1a64Hasher::new();
    assert_eq!(h.digest(), 0xcbf2_9ce4_8422_2325);
    let mut h = Fnv1a64Hasher::new();
    h.update(b"a");
    assert_eq!(h.digest(), 0xaf63_dc4c_8601_ec8c);
    let mut h = Fnv1a64Hasher::default();
    h.update(b"foobar");
    assert_eq!(h.digest(), 0x8594_4171_f739_67e8);
}

#[test]
fn fnv1a_update_in_pieces() {
    let mut whole = Fnv1a64Hasher::new();
    whole.update(b"test_path");
    let mut parts = Fnv1a64Hasher::new();
    parts.update(b"test");
    parts.update(b"_");
    parts.update(b"path");
    assert_eq!(whole.digest(), parts.digest());
}

#[test]
fn digest_bytes_are_little_endian() {
    let mut h = Fnv1a64Hasher::new();
    h.update(b"a");
    assert_eq!(h.digest_bytes(), 0xaf63_dc4c_8601_ec8cu64.to_le_bytes());
}

#[test]
fn hasher_of_a_string_is_fnv1a() {
    let mut h = Fnv1a64Hasher::new();
    h.update(b"test_path");
    assert_eq!(
        hasher(&HashOptions::default(), &[HashItem::String("test_path")]),
        h.digest_bytes()
    );
}

#[test]
fn struct_names_are_not_hashed() {
    let a = DataModelType::Struct { name: "A", data: Data::Newtype(Box::new(DataModelType::U8)) };
    let b = DataModelType::Struct { name: "B", data: Data::Newtype(Box::new(DataModelType::U8)) };
    let opts = HashOptions::default();
    assert_eq!(
        hasher(&opts, &[HashItem::Schema(&a)]),
        hasher(&opts, &[HashItem::Schema(&b)])
    );
}

#[test]
fn field_names_are_hashed() {
    let a = DataModelType::Struct {
        name: "S",
        data: Data::Struct(vec![NamedField { name: "x", ty: DataModelType::U8 }]),
    };
    let b = DataModelType::Struct {
        name: "S",
        data: Data::Struct(vec![NamedField { name: "y", ty: DataModelType::U8 }]),
    };
    let opts = HashOptions::default();
    assert_ne!(
        hasher(&opts, &[HashItem::Schema(&a)]),
        hasher(&opts, &[HashItem::Schema(&b)])
    );
}

#[test]
fn byte_array_hashes_as_seq_of_u8() {
    let mut opts = HashOptions::default();
    opts.hash_max_size = true;
    let a = DataModelType::ByteArray { max_len: Some(300) };
    let b = DataModelType::SeqOf { element: Box::new(DataModelType::U8), max_len: Some(300) };
    assert_eq!(
        hasher(&opts, &[HashItem::Schema(&a)]),
        hasher(&opts, &[HashItem::Schema(&b)])
    );
    let c = DataModelType::SeqOf { element: Box::new(DataModelType::U8), max_len: Some(301) };
    assert_ne!(
        hasher(&opts, &[HashItem::Schema(&a)]),
        hasher(&opts, &[HashItem::Schema(&c)])
    );
}

#[test]
fn bounds_hashed_only_when_asked() {
    let a = DataModelType::String { max_len: Some(5) };
    let b = DataModelType::String { max_len: None };
    let default_opts = HashOptions::default();
    let mut max_opts = HashOptions::default();
    max_opts.hash_max_size = true;
    assert_eq!(
        hasher(&default_opts, &[HashItem::Schema(&a)]),
        hasher(&default_opts, &[HashItem::Schema(&b)])
    );
    assert_ne!(
        hasher(&max_opts, &[HashItem::Schema(&a)]),
        hasher(&max_opts, &[HashItem::Schema(&b)])
    );
}

#[test]
fn owned_copy_hashes_alike() {
    let bar = Bar::schema();
    let owned = OwnedDataModelType::from(&bar);
    let borrowed_key = hash_ty_path::<Bar>("test_path");
    assert_eq!(fnv1a64_owned::hash_ty_path("test_path", &owned), borrowed_key);
    assert_eq!(fnv1a64_owned::hash_ty_path_owned("test_path", &owned), borrowed_key);
    let mut max_opts = HashOptions::default();
    max_opts.hash_max_size = true;
    assert_eq!(
        fnv1a64_owned::hasher(
            &max_opts,
            &[
                fnv1a64_owned::OwnedHashItem::String("test_path"),
                fnv1a64_owned::OwnedHashItem::Schema(&owned)
            ]
        ),
        [224, 143, 54, 58, 255, 237, 252, 44]
    );
}

#[test]
fn array_hashes_as_tuple_of_its_items() {
    let a = <[u8; 3]>::schema();
    let t = <(u8, u8, u8)>::schema();
    let opts = HashOptions::default();
    assert_eq!(
        hasher(&opts, &[HashItem::Schema(&a)]),
        hasher(&opts, &[HashItem::Schema(&t)])
    );
}

#[test]
fn nested_bounds_are_ignored_unless_hashed() {
    let bounded = DataModelType::Struct {
        name: "Msg",
        data: Data::Struct(vec![
            NamedField {
                name: "items",
                ty: DataModelType::SeqOf {
                    element: Box::new(DataModelType::ByteArray { max_len: Some(16) }),
                    max_len: Some(4),
                },
            },
            NamedField {
                name: "lookup",
                ty: DataModelType::MapOf {
                    key: Box::new(DataModelType::String { max_len: Some(8) }),
                    val: Box::new(DataModelType::U32),
                    max_len: Some(2),
                },
            },
        ]),
    };
    let unbounded = DataModelType::Struct {
        name: "Msg",
        data: Data::Struct(vec![
            NamedField {
                name: "items",
                ty: DataModelType::SeqOf {
                    element: Box::new(DataModelType::ByteArray { max_len: None }),
                    max_len: None,
                },
            },
            NamedField {
                name: "lookup",
                ty: DataModelType::MapOf {
                    key: Box::new(DataModelType::String { max_len: None }),
                    val: Box::new(DataModelType::U32),
                    max_len: None,
                },
            },
        ]),
    };
    let default_opts = HashOptions::default();
    assert_eq!(
        hasher(&default_opts, &[HashItem::Schema(&bounded)]),
        hasher(&default_opts, &[HashItem::Schema(&unbounded)])
    );
    let mut max_opts = HashOptions::default();
    max_opts.hash_max_size = true;
    assert_ne!(
        hasher(&max_opts, &[HashItem::Schema(&bounded)]),
        hasher(&max_opts, &[HashItem::Schema(&unbounded)])
    );
}
