//! Hashing of owned schemas, for use where schemas are built at run time.
use super::{
    bound_bytes, default_options, fnv1a, lemma_fnv1a_append, max_len_bytes, repeat_bytes,
    schema_bytes, struct_bytes, to_le_bytes, types_bytes, u64_le_bytes, field_bytes, fields_bytes,
    variant_bytes, variants_bytes, HashOptions, BASIS,
};
use super::fnv1a64::{hash_bound, hash_byte, hash_update_str, lemma_tag_then};
use crate::schema::owned::{
    copies_of, copy_of, data_copy_of, fields_copy_of, variants_copy_of, OwnedData,
    OwnedDataModelType, OwnedNamedField, OwnedVariant,
};
use crate::schema::{Data, DataModelType};
use vstd::prelude::*;
use vstd::string::StringSliceAdditionalSpecFns;
use vstd::utf8::encode_utf8;

verus! {

/// A hashable item, used for hashing a series of items together at once
#[non_exhaustive]
pub enum OwnedHashItem<'a> {
    /// A type's schema
    Schema(&'a OwnedDataModelType),
    /// A string
    String(&'a str),
}

/// The bytes a schema is hashed as.
///
/// Each kind of type has its own tag byte. The names of structs and enums are not hashed, so
/// that types with the same wire format hash alike; the names of fields and variants are.
/// A byte array hashes as a sequence of `u8`, and a fixed size array as a tuple of its items,
/// as both are the same on the wire.
pub open spec fn owned_schema_bytes(opt: HashOptions, d: OwnedDataModelType) -> Seq<u8>
    decreases d,
{
    match d {
        OwnedDataModelType::Bool => seq![0x11u8],
        OwnedDataModelType::I8 => seq![0xC5u8],
        OwnedDataModelType::U8 => seq![0x3Du8],
        OwnedDataModelType::I16 => seq![0x1Du8],
        OwnedDataModelType::I32 => seq![0x0Du8],
        OwnedDataModelType::I64 => seq![0x0Bu8],
        OwnedDataModelType::I128 => seq![0x02u8],
        OwnedDataModelType::U16 => seq![0x83u8],
        OwnedDataModelType::U32 => seq![0xD3u8],
        OwnedDataModelType::U64 => seq![0x13u8],
        OwnedDataModelType::U128 => seq![0x8Bu8],
        OwnedDataModelType::Usize => seq![0x6Bu8],
        OwnedDataModelType::Isize => seq![0xADu8],
        OwnedDataModelType::F32 => seq![0xEFu8],
        OwnedDataModelType::F64 => seq![0x71u8],
        OwnedDataModelType::Char => seq![0xC1u8],
        OwnedDataModelType::String { max_len } => seq![0x25u8] + bound_bytes(opt, max_len),
        OwnedDataModelType::ByteArray { max_len } => seq![0x03u8, 0x3Du8] + bound_bytes(opt, max_len),
        OwnedDataModelType::Option(t) => seq![0x6Du8] + owned_schema_bytes(opt, *t),
        OwnedDataModelType::Unit => seq![0x47u8],
        OwnedDataModelType::SeqOf { element, max_len } => seq![0x03u8] + owned_schema_bytes(opt, *element)
            + bound_bytes(opt, max_len),
        OwnedDataModelType::Tuple(ts) => seq![0xA7u8] + owned_types_bytes(opt, ts@),
        OwnedDataModelType::Array { item, count } => seq![0xA7u8] + repeat_bytes(
            owned_schema_bytes(opt, *item),
            count as nat,
        ),
        OwnedDataModelType::MapOf { key, val, max_len } => seq![0x4Fu8] + owned_schema_bytes(opt, *key)
            + owned_schema_bytes(opt, *val) + bound_bytes(opt, max_len),
        OwnedDataModelType::Struct { name, data } => owned_struct_bytes(opt, data),
        OwnedDataModelType::Enum { name, variants } => seq![0xE9u8] + owned_variants_bytes(opt, variants@),
        OwnedDataModelType::Schema => seq![0xE5u8],
    }
}

/// The bytes the contents of a struct are hashed as.
pub open spec fn owned_struct_bytes(opt: HashOptions, d: OwnedData) -> Seq<u8>
    decreases d,
{
    match d {
        OwnedData::Unit => seq![0xBFu8],
        OwnedData::Newtype(t) => seq![0x9Du8] + owned_schema_bytes(opt, *t),
        OwnedData::Tuple(ts) => seq![0x05u8] + owned_types_bytes(opt, ts@),
        OwnedData::Struct(fs) => seq![0x7Fu8] + owned_fields_bytes(opt, fs@),
    }
}

/// The bytes of each type of `ts`, in order.
pub open spec fn owned_types_bytes(opt: HashOptions, ts: Seq<OwnedDataModelType>) -> Seq<u8>
    decreases ts,
{
    if ts.len() == 0 {
        Seq::empty()
    } else {
        owned_types_bytes(opt, ts.drop_last()) + owned_schema_bytes(opt, ts.last())
    }
}

/// The bytes a named field is hashed as: its name, then its type.
pub open spec fn owned_field_bytes(opt: HashOptions, f: OwnedNamedField) -> Seq<u8>
    decreases f,
{
    encode_utf8(f.name@) + owned_schema_bytes(opt, f.ty)
}

/// The bytes of each field of `fs`, in order.
pub open spec fn owned_fields_bytes(opt: HashOptions, fs: Seq<OwnedNamedField>) -> Seq<u8>
    decreases fs,
{
    if fs.len() == 0 {
        Seq::empty()
    } else {
        owned_fields_bytes(opt, fs.drop_last()) + owned_field_bytes(opt, fs.last())
    }
}

/// The bytes an enum variant is hashed as: its name, a tag for its kind, then its contents.
pub open spec fn owned_variant_bytes(opt: HashOptions, v: OwnedVariant) -> Seq<u8>
    decreases v,
{
    encode_utf8(v.name@) + match v.data {
        OwnedData::Unit => seq![0xB5u8],
        OwnedData::Newtype(t) => seq![0xDFu8] + owned_schema_bytes(opt, *t),
        OwnedData::Tuple(ts) => seq![0xC7u8] + owned_types_bytes(opt, ts@),
        OwnedData::Struct(fs) => seq![0x67u8] + owned_fields_bytes(opt, fs@),
    }
}

/// The bytes of each variant of `vs`, in order.
pub open spec fn owned_variants_bytes(opt: HashOptions, vs: Seq<OwnedVariant>) -> Seq<u8>
    decreases vs,
{
    if vs.len() == 0 {
        Seq::empty()
    } else {
        owned_variants_bytes(opt, vs.drop_last()) + owned_variant_bytes(opt, vs.last())
    }
}

/// The bytes a hash item is hashed as: a string's UTF-8 bytes, or a schema's [`owned_schema_bytes`].
pub open spec fn owned_item_bytes(opt: HashOptions, item: OwnedHashItem) -> Seq<u8> {
    match item {
        OwnedHashItem::Schema(d) => owned_schema_bytes(opt, *d),
        OwnedHashItem::String(s) => s.spec_bytes(),
    }
}

/// The bytes of each item of `items`, in order.
pub open spec fn owned_items_bytes(opt: HashOptions, items: Seq<OwnedHashItem>) -> Seq<u8>
    decreases items.len(),
{
    if items.len() == 0 {
        Seq::empty()
    } else {
        owned_items_bytes(opt, items.drop_last()) + owned_item_bytes(opt, items.last())
    }
}



/// Hash an arbitrary sequence of items in the order provided
pub fn hasher(opt: &HashOptions, items: &[OwnedHashItem<'_>]) -> (r: [u8; 8])
    ensures
        r@ == u64_le_bytes(fnv1a(BASIS, owned_items_bytes(*opt, items@))),
{
    let mut state = BASIS;
    let mut idx: usize = 0;
    while idx < items.len()
        invariant
            idx <= items@.len(),
            state == fnv1a(BASIS, owned_items_bytes(*opt, items@.take(idx as int))),
        decreases items@.len() - idx,
    {
        let ghost before = state;
        state = match items[idx] {
            OwnedHashItem::Schema(sdmty) => hash_sdm_type_owned(opt, state, sdmty),
            OwnedHashItem::String(s) => hash_update_str(state, s),
        };
        proof {
            let prev = items@.take(idx as int);
            assert(items@.take(idx + 1).drop_last() =~= prev);
            lemma_fnv1a_append(BASIS, owned_items_bytes(*opt, prev), owned_item_bytes(*opt, items@[idx as int]));
        }
        idx += 1;
    }
    assert(items@.take(idx as int) =~= items@);
    to_le_bytes(state)
}

/// Calculate the Key hash for the given path and type schema
pub fn hash_ty_path(path: &str, schema: &OwnedDataModelType) -> (r: [u8; 8])
    ensures
        r@ == u64_le_bytes(fnv1a(BASIS, path.spec_bytes() + owned_schema_bytes(default_options(), *schema))),
{
    let items = [OwnedHashItem::String(path), OwnedHashItem::Schema(schema)];
    let r = hasher(&HashOptions::default(), items.as_slice());
    proof {
        let s = items@;
        assert(s.len() == 2);
        assert(s[0] == OwnedHashItem::String(path));
        assert(s[1] == OwnedHashItem::Schema(schema));
        assert(s.drop_last().drop_last() =~= Seq::<OwnedHashItem>::empty());
        assert(s.drop_last().last() == s[0]);
        assert(owned_items_bytes(default_options(), s.drop_last().drop_last()) =~= Seq::<u8>::empty());
        assert(owned_items_bytes(default_options(), s.drop_last()) =~= path.spec_bytes());
    }
    r
}

/// Calculate the Key hash for the given path and [`OwnedDataModelType`]
pub fn hash_ty_path_owned(path: &str, ty: &OwnedDataModelType) -> (r: [u8; 8])
    ensures
        r@ == u64_le_bytes(fnv1a(BASIS, path.spec_bytes() + owned_schema_bytes(default_options(), *ty))),
{
    let state = hash_update_str(BASIS, path);
    let s = hash_sdm_type_owned(&HashOptions::default(), state, ty);
    proof {
        lemma_fnv1a_append(BASIS, path.spec_bytes(), owned_schema_bytes(default_options(), *ty));
    }
    to_le_bytes(s)
}





/// The state after feeding each type of `ts`.
fn hash_types_owned(opt: &HashOptions, state: u64, ts: &[OwnedDataModelType]) -> (r: u64)
    ensures
        r == fnv1a(state, owned_types_bytes(*opt, ts@)),
    decreases ts@,
{
    let ghost all = ts@;
    let mut s = state;
    let mut idx: usize = 0;
    while idx < ts.len()
        invariant
            all == ts@,
            idx <= all.len(),
            s == fnv1a(state, owned_types_bytes(*opt, all.take(idx as int))),
        decreases all.len() - idx,
    {
        proof {
            assert(decreases_to!(all => all[idx as int]));
        }
        let ghost before = s;
        s = hash_sdm_type_owned(opt, s, &ts[idx]);
        proof {
            assert(all.take(idx + 1).drop_last() =~= all.take(idx as int));
            lemma_fnv1a_append(state, owned_types_bytes(*opt, all.take(idx as int)), owned_schema_bytes(*opt, all[idx as int]));
        }
        idx += 1;
    }
    assert(all.take(idx as int) =~= all);
    s
}

/// The state after feeding each field of `fs`.
fn hash_fields_owned(opt: &HashOptions, state: u64, fs: &[OwnedNamedField]) -> (r: u64)
    ensures
        r == fnv1a(state, owned_fields_bytes(*opt, fs@)),
    decreases fs@,
{
    let ghost all = fs@;
    let mut s = state;
    let mut idx: usize = 0;
    while idx < fs.len()
        invariant
            all == fs@,
            idx <= all.len(),
            s == fnv1a(state, owned_fields_bytes(*opt, all.take(idx as int))),
        decreases all.len() - idx,
    {
        proof {
            assert(decreases_to!(all => all[idx as int]));
        }
        s = hash_named_field_owned(opt, s, &fs[idx]);
        proof {
            assert(all.take(idx + 1).drop_last() =~= all.take(idx as int));
            lemma_fnv1a_append(state, owned_fields_bytes(*opt, all.take(idx as int)), owned_field_bytes(*opt, all[idx as int]));
        }
        idx += 1;
    }
    assert(all.take(idx as int) =~= all);
    s
}

/// The state after feeding each variant of `vs`.
fn hash_variants_owned(opt: &HashOptions, state: u64, vs: &[OwnedVariant]) -> (r: u64)
    ensures
        r == fnv1a(state, owned_variants_bytes(*opt, vs@)),
    decreases vs@,
{
    let ghost all = vs@;
    let mut s = state;
    let mut idx: usize = 0;
    while idx < vs.len()
        invariant
            all == vs@,
            idx <= all.len(),
            s == fnv1a(state, owned_variants_bytes(*opt, all.take(idx as int))),
        decreases all.len() - idx,
    {
        proof {
            assert(decreases_to!(all => all[idx as int]));
        }
        s = hash_variant_owned(opt, s, &vs[idx]);
        proof {
            assert(all.take(idx + 1).drop_last() =~= all.take(idx as int));
            lemma_fnv1a_append(state, owned_variants_bytes(*opt, all.take(idx as int)), owned_variant_bytes(*opt, all[idx as int]));
        }
        idx += 1;
    }
    assert(all.take(idx as int) =~= all);
    s
}


/// The state after feeding the bytes of the schema `sdmty`.
fn hash_sdm_type_owned(opt: &HashOptions, state: u64, sdmty: &OwnedDataModelType) -> (r: u64)
    ensures
        r == fnv1a(state, owned_schema_bytes(*opt, *sdmty)),
    decreases *sdmty,
{
    match sdmty {
        OwnedDataModelType::Bool => hash_byte(state, 0x11),
        OwnedDataModelType::I8 => hash_byte(state, 0xC5),
        OwnedDataModelType::U8 => hash_byte(state, 0x3D),
        OwnedDataModelType::I16 => hash_byte(state, 0x1D),
        OwnedDataModelType::I32 => hash_byte(state, 0x0D),
        OwnedDataModelType::I64 => hash_byte(state, 0x0B),
        OwnedDataModelType::I128 => hash_byte(state, 0x02),
        OwnedDataModelType::U16 => hash_byte(state, 0x83),
        OwnedDataModelType::U32 => hash_byte(state, 0xD3),
        OwnedDataModelType::U64 => hash_byte(state, 0x13),
        OwnedDataModelType::U128 => hash_byte(state, 0x8B),
        OwnedDataModelType::Usize => hash_byte(state, 0x6B),
        OwnedDataModelType::Isize => hash_byte(state, 0xAD),
        OwnedDataModelType::F32 => hash_byte(state, 0xEF),
        OwnedDataModelType::F64 => hash_byte(state, 0x71),
        OwnedDataModelType::Char => hash_byte(state, 0xC1),
        OwnedDataModelType::String { max_len } => {
            let s = hash_byte(state, 0x25);
            let r = hash_bound(opt, s, *max_len);
            proof {
                lemma_tag_then(state, 0x25, bound_bytes(*opt, *max_len));
            }
            r
        },
        OwnedDataModelType::ByteArray { max_len } => {
            // Hashed as a sequence of `u8`: on the wire the two are the same.
            let s = hash_byte(state, 0x03);
            let s2 = hash_byte(s, 0x3D);
            let r = hash_bound(opt, s2, *max_len);
            proof {
                lemma_tag_then(s, 0x3D, bound_bytes(*opt, *max_len));
                lemma_tag_then(state, 0x03, seq![0x3Du8] + bound_bytes(*opt, *max_len));
                assert(owned_schema_bytes(*opt, *sdmty) =~= seq![0x03u8] + (seq![0x3Du8] + bound_bytes(
                    *opt,
                    *max_len,
                )));
            }
            r
        },
        OwnedDataModelType::Option(t) => {
            let s = hash_byte(state, 0x6D);
            let r = hash_sdm_type_owned(opt, s, &**t);
            proof {
                lemma_tag_then(state, 0x6D, owned_schema_bytes(*opt, **t));
            }
            r
        },
        OwnedDataModelType::Unit => hash_byte(state, 0x47),
        OwnedDataModelType::SeqOf { element, max_len } => {
            let s = hash_byte(state, 0x03);
            let s2 = hash_sdm_type_owned(opt, s, &**element);
            let r = hash_bound(opt, s2, *max_len);
            proof {
                let e = owned_schema_bytes(*opt, **element);
                let b = bound_bytes(*opt, *max_len);
                lemma_fnv1a_append(s, e, b);
                lemma_tag_then(state, 0x03, e + b);
                assert(owned_schema_bytes(*opt, *sdmty) =~= seq![0x03u8] + (e + b));
            }
            r
        },
        OwnedDataModelType::Tuple(ts) => {
            let s = hash_byte(state, 0xA7);
            let r = hash_types_owned(opt, s, ts.as_slice());
            proof {
                lemma_tag_then(state, 0xA7, owned_types_bytes(*opt, ts@));
            }
            r
        },
        OwnedDataModelType::Array { item, count } => {
            // Hashed as a tuple of `count` items: on the wire the two are the same.
            let s = hash_byte(state, 0xA7);
            let ghost b = owned_schema_bytes(*opt, **item);
            let mut st = s;
            let mut i: usize = 0;
            while i < *count
                invariant
                    i <= *count,
                    st == fnv1a(s, repeat_bytes(b, i as nat)),
                    b == owned_schema_bytes(*opt, **item),
                    decreases_to!(*sdmty => **item),
                decreases *count - i,
            {
                let ghost before = st;
                st = hash_sdm_type_owned(opt, st, &**item);
                proof {
                    lemma_fnv1a_append(s, repeat_bytes(b, i as nat), b);
                    assert(repeat_bytes(b, (i + 1) as nat) == repeat_bytes(b, i as nat) + b);
                }
                i += 1;
            }
            proof {
                lemma_tag_then(state, 0xA7, repeat_bytes(b, *count as nat));
            }
            st
        },
        OwnedDataModelType::MapOf { key, val, max_len } => {
            let s = hash_byte(state, 0x4F);
            let s2 = hash_sdm_type_owned(opt, s, &**key);
            let s3 = hash_sdm_type_owned(opt, s2, &**val);
            let r = hash_bound(opt, s3, *max_len);
            proof {
                let k = owned_schema_bytes(*opt, **key);
                let v = owned_schema_bytes(*opt, **val);
                let b = bound_bytes(*opt, *max_len);
                lemma_fnv1a_append(s2, v, b);
                lemma_fnv1a_append(s, k, v + b);
                lemma_tag_then(state, 0x4F, k + (v + b));
                assert(owned_schema_bytes(*opt, *sdmty) =~= seq![0x4Fu8] + (k + (v + b)));
            }
            r
        },
        OwnedDataModelType::Struct { name: _, data } => hash_struct_owned(opt, state, data),
        OwnedDataModelType::Enum { name: _, variants } => {
            let s = hash_byte(state, 0xE9);
            let r = hash_variants_owned(opt, s, variants.as_slice());
            proof {
                lemma_tag_then(state, 0xE9, owned_variants_bytes(*opt, variants@));
            }
            r
        },
        OwnedDataModelType::Schema => hash_byte(state, 0xE5),
    }
}


/// The state after feeding the contents of a struct.
fn hash_struct_owned(opt: &HashOptions, state: u64, data: &OwnedData) -> (r: u64)
    ensures
        r == fnv1a(state, owned_struct_bytes(*opt, *data)),
    decreases *data,
{
    // The name of the type is not hashed. This allows "safe" type punning, e.g. treating
    // `Vec<u8>` and `&[u8]` as compatible types, when talking between std and no-std targets.
    match data {
        OwnedData::Unit => hash_byte(state, 0xBF),
        OwnedData::Newtype(dmt) => {
            let s = hash_byte(state, 0x9D);
            let r = hash_sdm_type_owned(opt, s, &**dmt);
            proof {
                lemma_tag_then(state, 0x9D, owned_schema_bytes(*opt, **dmt));
            }
            r
        },
        OwnedData::Tuple(dmts) => {
            let s = hash_byte(state, 0x05);
            let r = hash_types_owned(opt, s, dmts.as_slice());
            proof {
                lemma_tag_then(state, 0x05, owned_types_bytes(*opt, dmts@));
            }
            r
        },
        OwnedData::Struct(nfs) => {
            let s = hash_byte(state, 0x7F);
            let r = hash_fields_owned(opt, s, nfs.as_slice());
            proof {
                lemma_tag_then(state, 0x7F, owned_fields_bytes(*opt, nfs@));
            }
            r
        },
    }
}

/// The state after feeding an enum variant: its name, a tag for its kind, then its contents.
fn hash_variant_owned(opt: &HashOptions, state: u64, nt: &OwnedVariant) -> (r: u64)
    ensures
        r == fnv1a(state, owned_variant_bytes(*opt, *nt)),
    decreases *nt,
{
    let s = hash_update_str(state, nt.name.as_str());
    let ghost rest: Seq<u8>;
    let r = match &nt.data {
        OwnedData::Unit => {
            proof { rest = seq![0xB5u8]; }
            hash_byte(s, 0xB5)
        },
        OwnedData::Newtype(t) => {
            let s2 = hash_byte(s, 0xDF);
            let r = hash_sdm_type_owned(opt, s2, &**t);
            proof {
                lemma_tag_then(s, 0xDF, owned_schema_bytes(*opt, **t));
                rest = seq![0xDFu8] + owned_schema_bytes(*opt, **t);
            }
            r
        },
        OwnedData::Tuple(ts) => {
            let s2 = hash_byte(s, 0xC7);
            let r = hash_types_owned(opt, s2, ts.as_slice());
            proof {
                lemma_tag_then(s, 0xC7, owned_types_bytes(*opt, ts@));
                rest = seq![0xC7u8] + owned_types_bytes(*opt, ts@);
            }
            r
        },
        OwnedData::Struct(fields) => {
            let s2 = hash_byte(s, 0x67);
            let r = hash_fields_owned(opt, s2, fields.as_slice());
            proof {
                lemma_tag_then(s, 0x67, owned_fields_bytes(*opt, fields@));
                rest = seq![0x67u8] + owned_fields_bytes(*opt, fields@);
            }
            r
        },
    };
    proof {
        lemma_fnv1a_append(state, encode_utf8(nt.name@), rest);
    }
    r
}

/// The state after feeding a named field: its name, then its type.
fn hash_named_field_owned(opt: &HashOptions, state: u64, nt: &OwnedNamedField) -> (r: u64)
    ensures
        r == fnv1a(state, owned_field_bytes(*opt, *nt)),
    decreases *nt,
{
    let s = hash_update_str(state, nt.name.as_str());
    let r = hash_sdm_type_owned(opt, s, &nt.ty);
    proof {
        lemma_fnv1a_append(state, encode_utf8(nt.name@), owned_schema_bytes(*opt, nt.ty));
    }
    r
}


/// Law: an owned copy of a schema is hashed as the same bytes as the borrowed schema it was
/// copied from, so both give the same key.
pub proof fn law_copy_hashes_alike(opt: HashOptions, o: OwnedDataModelType, d: DataModelType)
    requires
        copy_of(o, d),
    ensures
        owned_schema_bytes(opt, o) == schema_bytes(opt, d),
    decreases d,
{
    match d {
        DataModelType::Option(t) => {
            if let OwnedDataModelType::Option(u) = o {
                law_copy_hashes_alike(opt, *u, *t);
            }
        },
        DataModelType::SeqOf { element, max_len } => {
            if let OwnedDataModelType::SeqOf { element: e, .. } = o {
                law_copy_hashes_alike(opt, *e, *element);
            }
        },
        DataModelType::Tuple(ts) => {
            if let OwnedDataModelType::Tuple(us) = o {
                lemma_copies_hash_alike(opt, us@, ts@);
            }
        },
        DataModelType::Array { item, count } => {
            if let OwnedDataModelType::Array { item: i, .. } = o {
                law_copy_hashes_alike(opt, *i, *item);
            }
        },
        DataModelType::MapOf { key, val, max_len } => {
            if let OwnedDataModelType::MapOf { key: k, val: v, .. } = o {
                law_copy_hashes_alike(opt, *k, *key);
                law_copy_hashes_alike(opt, *v, *val);
            }
        },
        DataModelType::Struct { name, data } => {
            if let OwnedDataModelType::Struct { data: e, .. } = o {
                lemma_data_copy_hashes_alike(opt, e, data);
            }
        },
        DataModelType::Enum { name, variants } => {
            if let OwnedDataModelType::Enum { variants: vs, .. } = o {
                assert(variants_copy_of(vs@, variants@));
                lemma_variant_copies_hash_alike(opt, vs@, variants@);
            }
        },
        _ => {},
    }
}

/// [`law_copy_hashes_alike`] for the contents of a struct.
proof fn lemma_data_copy_hashes_alike(opt: HashOptions, o: OwnedData, d: Data)
    requires
        data_copy_of(o, d),
    ensures
        owned_struct_bytes(opt, o) == struct_bytes(opt, d),
    decreases d,
{
    match d {
        Data::Unit => {},
        Data::Newtype(t) => {
            if let OwnedData::Newtype(u) = o {
                law_copy_hashes_alike(opt, *u, *t);
            }
        },
        Data::Tuple(ts) => {
            if let OwnedData::Tuple(us) = o {
                lemma_copies_hash_alike(opt, us@, ts@);
            }
        },
        Data::Struct(fs) => {
            if let OwnedData::Struct(gs) = o {
                lemma_field_copies_hash_alike(opt, gs@, fs@);
            }
        },
    }
}

/// [`law_copy_hashes_alike`] element by element.
proof fn lemma_copies_hash_alike(opt: HashOptions, os: Seq<OwnedDataModelType>, ds: Seq<DataModelType>)
    requires
        copies_of(os, ds),
    ensures
        owned_types_bytes(opt, os) == types_bytes(opt, ds),
    decreases ds,
{
    if ds.len() > 0 {
        lemma_copies_hash_alike(opt, os.drop_last(), ds.drop_last());
        law_copy_hashes_alike(opt, os.last(), ds.last());
    }
}

/// [`law_copy_hashes_alike`] for fields.
proof fn lemma_field_copies_hash_alike(opt: HashOptions, os: Seq<OwnedNamedField>, ds: Seq<crate::schema::NamedField>)
    requires
        fields_copy_of(os, ds),
    ensures
        owned_fields_bytes(opt, os) == fields_bytes(opt, ds),
    decreases ds,
{
    if ds.len() > 0 {
        lemma_field_copies_hash_alike(opt, os.drop_last(), ds.drop_last());
        law_copy_hashes_alike(opt, os.last().ty, ds.last().ty);
        assert(os.last().name@ == ds.last().name@);
        assert(owned_field_bytes(opt, os.last()) == field_bytes(opt, ds.last()));
    }
}

/// [`law_copy_hashes_alike`] for variants.
proof fn lemma_variant_copies_hash_alike(opt: HashOptions, os: Seq<OwnedVariant>, ds: Seq<crate::schema::Variant>)
    requires
        variants_copy_of(os, ds),
    ensures
        owned_variants_bytes(opt, os) == variants_bytes(opt, ds),
    decreases ds,
{
    if ds.len() > 0 {
        lemma_variant_copies_hash_alike(opt, os.drop_last(), ds.drop_last());
        let (ov, dv) = (os.last(), ds.last());
        assert(data_copy_of(ov.data, dv.data));
        assert(ov.name@ == dv.name@);
        match dv.data {
            Data::Unit => {},
            Data::Newtype(t) => {
                if let OwnedData::Newtype(u) = ov.data {
                    law_copy_hashes_alike(opt, *u, *t);
                }
            },
            Data::Tuple(ts) => {
                if let OwnedData::Tuple(us) = ov.data {
                    lemma_copies_hash_alike(opt, us@, ts@);
                }
            },
            Data::Struct(fs) => {
                if let OwnedData::Struct(gs) = ov.data {
                    lemma_field_copies_hash_alike(opt, gs@, fs@);
                }
            },
        }
        assert(owned_variant_bytes(opt, ov) == variant_bytes(opt, dv));
    }
}

/// Law: the key of a path and an owned schema is what [`hasher`] gives, with the default
/// options, for the path followed by the schema.
pub proof fn law_owned_key_hashes_path_then_schema(path: &str, d: &OwnedDataModelType)
    ensures
        fnv1a(BASIS, path.spec_bytes() + owned_schema_bytes(default_options(), *d)) == fnv1a(
            BASIS,
            owned_items_bytes(
                default_options(),
                seq![OwnedHashItem::String(path), OwnedHashItem::Schema(d)],
            ),
        ),
{
    let s = seq![OwnedHashItem::String(path), OwnedHashItem::Schema(d)];
    assert(s.drop_last().drop_last() =~= Seq::<OwnedHashItem>::empty());
    assert(s.drop_last().last() == OwnedHashItem::String(path));
    assert(owned_items_bytes(default_options(), s.drop_last().drop_last()) =~= Seq::<u8>::empty());
    assert(owned_items_bytes(default_options(), s.drop_last()) =~= path.spec_bytes());
}

} // verus!
