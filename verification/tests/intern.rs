use postcard_core::schema::intern::str_intern::{
    collect_all_strings, count_strings, dedupe_strings, merge_strs, pack_down_str, sort_arr,
    str_contains, streq, ttl_str_len,
};
use postcard_core::schema::intern::ty_intern::{
    count_dmt, count_named_fields, count_run_dmts, count_variants, str_subslice,
};
use postcard_core::schema::intern::{
    InternData, InternDataModelType, InternDataModelTypeRef, InternNamedFieldGroupRef,
    InternStrRef, IntermediateSchema,
};
use postcard_core::schema::{Data, DataModelType, NamedField, Variant};

fn classic() -> DataModelType {
    DataModelType::Struct {
        name: "Classic",
        data: Data::Struct(vec![
            NamedField { name: "a", ty: DataModelType::U32 },
            NamedField { name: "b", ty: DataModelType::U16 },
        ]),
    }
}

fn enums() -> DataModelType {
    DataModelType::Enum {
        name: "Enums",
        variants: vec![
            Variant { name: "Unit", data: Data::Unit },
            Variant { name: "Nt", data: Data::Newtype(Box::new(DataModelType::U64)) },
            Variant {
                name: "Tup",
                data: Data::Tuple(vec![DataModelType::U32, DataModelType::Bool]),
            },
        ],
    }
}

#[test]
fn counts() {
    let e = enums();
    assert_eq!(count_strings(&e), 4);
    assert_eq!(count_variants(&e), 3);
    assert_eq!(count_named_fields(&e), 0);
    assert_eq!(count_run_dmts(&e), 2);
    // The enum, each variant's contents, the newtype's u64, and the tuple's two types
    assert_eq!(count_dmt(&e), 1 + 1 + 2 + 5);
    let c = classic();
    assert_eq!(count_strings(&c), 3);
    assert_eq!(count_named_fields(&c), 2);
    assert_eq!(count_dmt(&c), 1 + 1 + 2);
    let opt = DataModelType::Option(Box::new(c));
    assert_eq!(count_dmt(&opt), 5);
}

#[test]
fn collect_names() {
    let (names, count) = collect_all_strings::<6>(&enums());
    assert_eq!(count, 4);
    assert_eq!(names, ["Enums", "Unit", "Nt", "Tup", "", ""]);
    let (names, count) = collect_all_strings::<3>(&classic());
    assert_eq!(count, 3);
    assert_eq!(names, ["Classic", "a", "b"]);
}

#[test]
fn string_comparisons() {
    assert!(streq("abc", "abc"));
    assert!(!streq("abc", "abd"));
    assert!(!streq("abc", "ab"));
    assert!(str_contains("hello", "ell"));
    assert!(str_contains("hello", "hello"));
    assert!(str_contains("hello", ""));
    assert!(str_contains("hello", "he"));
    assert!(!str_contains("hello", "xyz"));
    assert!(!str_contains("he", "hello"));
    // An occurrence that ends the base is not looked for
    assert!(!str_contains("hello", "lo"));
}

#[test]
fn sorting_and_deduplicating() {
    assert_eq!(sort_arr(["b", "ccc", "a", "dd"]), ["ccc", "dd", "a", "b"]);
    assert_eq!(sort_arr(["x"]), ["x"]);
    // Sorted, then each kept unless found in one kept before it
    let (out, count) = dedupe_strings(["ell", "hello", "x", "hello", "he"]);
    assert_eq!(count, 2);
    assert_eq!(&out[..count], &["hello", "x"]);
    assert_eq!(&out[count..], &["", "", ""]);
    let (out, count) = dedupe_strings(["lo", "hello"]);
    assert_eq!(count, 2);
    assert_eq!(&out[..count], &["hello", "lo"]);
}

#[test]
fn packing_and_merging() {
    let strs = ["hello", "ab", "c"];
    assert_eq!(pack_down_str::<2>(&strs), ["hello", "ab"]);
    assert_eq!(ttl_str_len(&strs), 8);
    assert_eq!(&merge_strs::<8>(&strs), b"helloabc");
    assert_eq!(str_subslice("helloabc", 5, 2), "ab");
}

#[test]
fn intern_a_struct() {
    let schema = classic();
    let me = IntermediateSchema::<'_, 4, 4, 4, 4>::blammo("Classicab", &schema);
    assert_eq!(me.get_interned_str("Classic"), InternStrRef { offset: 0, len: 7 });
    assert_eq!(me.get_interned_str("ab"), InternStrRef { offset: 7, len: 2 });
    assert_eq!(me.get_interned_str("b"), InternStrRef { offset: 8, len: 1 });
    let entry = me.dmt_from_ref(&InternDataModelTypeRef::Ref(0));
    assert_eq!(
        entry,
        InternDataModelType::Struct {
            name: InternStrRef { offset: 0, len: 7 },
            data: InternData::Struct(InternNamedFieldGroupRef { offset: 0, len: 2 }),
        }
    );
    assert!(me.is_dmt_match(&schema, &entry));
    assert!(!me.is_dmt_match(&DataModelType::U8, &entry));
    assert_eq!(me.dmt_from_ref(&InternDataModelTypeRef::U16), InternDataModelType::U16);
}

#[test]
fn interning_twice_finds_the_entry() {
    let schema = classic();
    let mut me = IntermediateSchema::<'_, 4, 4, 4, 4>::blammo("Classicab", &schema);
    assert_eq!(me.get_or_insert_interned_dmt(&schema), InternDataModelTypeRef::Ref(0));
    assert_eq!(me.get_or_insert_interned_dmt(&DataModelType::U8), InternDataModelTypeRef::U8);
}

#[test]
fn interning_more_keeps_earlier_entries() {
    let schema = classic();
    let mut me = IntermediateSchema::<'_, 4, 4, 4, 4>::blammo("Classicab", &schema);
    let first = me.dmt_from_ref(&InternDataModelTypeRef::Ref(0));
    // A new type goes after the entry already there, which stays as it was
    let opt = DataModelType::Option(Box::new(DataModelType::U8));
    assert_eq!(me.get_or_insert_interned_dmt(&opt), InternDataModelTypeRef::Ref(1));
    assert_eq!(me.dmt_from_ref(&InternDataModelTypeRef::Ref(0)), first);
    assert_eq!(
        me.dmt_from_ref(&InternDataModelTypeRef::Ref(1)),
        InternDataModelType::Option(InternDataModelTypeRef::U8)
    );
}
