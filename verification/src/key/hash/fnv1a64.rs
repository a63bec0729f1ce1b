//! Helper methods for performing hash calculation over borrowed schemas.
use super::{
    bound_bytes, default_options, field_bytes, fields_bytes, fnv1a, items_bytes, lemma_fnv1a_append,
    max_len_bytes, repeat_bytes, schema_bytes, struct_bytes, to_le_bytes, types_bytes,
    u64_le_bytes, variant_bytes, variants_bytes, HashItem, HashOptions, BASIS, PRIME,
};
use super::fnv1a64_owned::{law_copy_hashes_alike, owned_schema_bytes};
use crate::schema::owned::OwnedDataModelType;
use crate::schema::shape::{dmt_view, lemma_copy_iff_same_view};
use crate::schema::view::type_view;
use crate::schema::{Data, DataModelType, NamedField, Variant};
use crate::Schema;
use crate::varint::varint_encode;
use vstd::prelude::*;
use vstd::string::StringSliceAdditionalSpecFns;

verus! {

/// Hash an arbitrary sequence of items in the order provided
pub fn hasher(opt: &HashOptions, items: &[HashItem<'_>]) -> (r: [u8; 8])
    ensures
        r@ == u64_le_bytes(fnv1a(BASIS, items_bytes(*opt, items@))),
{
    let mut state = BASIS;
    let mut idx: usize = 0;
    while idx < items.len()
        invariant
            idx <= items@.len(),
            state == fnv1a(BASIS, items_bytes(*opt, items@.take(idx as int))),
        decreases items@.len() - idx,
    {
        let ghost before = state;
        state = match items[idx] {
            HashItem::Schema(sdmty) => hash_sdm_type(opt, state, sdmty),
            HashItem::String(s) => hash_update_str(state, s),
        };
        proof {
            let prev = items@.take(idx as int);
            assert(items@.take(idx + 1).drop_last() =~= prev);
            lemma_fnv1a_append(BASIS, items_bytes(*opt, prev), super::item_bytes(*opt, items@[idx as int]));
        }
        idx += 1;
    }
    assert(items@.take(idx as int) =~= items@);
    to_le_bytes(state)
}

/// Calculate the Key hash for the given path and type T
pub fn hash_ty_path<T: Schema + ?Sized>(path: &str) -> (r: [u8; 8])
    ensures
        exists|d: DataModelType|
            dmt_view(d) == T::schema_view() && r@ == u64_le_bytes(
                fnv1a(BASIS, path.spec_bytes() + schema_bytes(default_options(), d)),
            ),
        forall|o: OwnedDataModelType|
            #![trigger type_view(o)]
            type_view(o) == T::schema_view() ==> r@ == u64_le_bytes(
                fnv1a(BASIS, path.spec_bytes() + owned_schema_bytes(default_options(), o)),
            ),
{
    let schema = T::schema();
    let items = [HashItem::String(path), HashItem::Schema(&schema)];
    let r = hasher(&HashOptions::default(), items.as_slice());
    proof {
        let s = items@;
        assert(s.len() == 2);
        assert(s[0] == HashItem::String(path));
        assert(s[1] == HashItem::Schema(&schema));
        assert(s.drop_last().drop_last() =~= Seq::<HashItem>::empty());
        assert(s.drop_last().last() == s[0]);
        assert(items_bytes(default_options(), s.drop_last().drop_last()) =~= Seq::<u8>::empty());
        assert(items_bytes(default_options(), s.drop_last()) =~= path.spec_bytes());
        assert forall|o: OwnedDataModelType|
            #![trigger type_view(o)]
            type_view(o) == T::schema_view() implies owned_schema_bytes(default_options(), o)
                == schema_bytes(default_options(), schema) by {
            lemma_copy_iff_same_view(o, schema);
            law_copy_hashes_alike(default_options(), o, schema);
        }
    }
    r
}

/// The state after feeding one byte.
pub(crate) fn hash_byte(state: u64, b: u8) -> (r: u64)
    ensures
        r == fnv1a(state, seq![b]),
{
    assert(seq![b].drop_last() =~= Seq::<u8>::empty());
    assert(fnv1a(state, Seq::<u8>::empty()) == state);
    let ext = u64::from(b);
    (state ^ ext).wrapping_mul(PRIME)
}

/// The state after feeding `bytes`.
pub(crate) fn hash_update(state: u64, bytes: &[u8]) -> (r: u64)
    ensures
        r == fnv1a(state, bytes@),
{
    let mut s = state;
    let mut idx: usize = 0;
    while idx < bytes.len()
        invariant
            idx <= bytes@.len(),
            s == fnv1a(state, bytes@.take(idx as int)),
        decreases bytes@.len() - idx,
    {
        let ext = u64::from(bytes[idx]);
        s = s ^ ext;
        s = s.wrapping_mul(PRIME);
        assert(bytes@.take(idx + 1).drop_last() =~= bytes@.take(idx as int));
        idx += 1;
    }
    assert(bytes@.take(idx as int) =~= bytes@);
    s
}

/// The state after feeding the UTF-8 bytes of `s`.
pub(crate) fn hash_update_str(state: u64, s: &str) -> (r: u64)
    ensures
        r == fnv1a(state, s.spec_bytes()),
{
    hash_update(state, s.as_bytes())
}

/// The state after feeding a length bound: a marker, then the bound as a varint.
pub(crate) fn hash_max_len(state: u64, max_len: Option<usize>) -> (r: u64)
    ensures
        r == fnv1a(state, max_len_bytes(max_len)),
{
    let mut s = hash_byte(state, 0x2B);
    let bound = match max_len {
        Some(bound) => bound,
        None => {
            assert(max_len_bytes(max_len) =~= seq![0x2Bu8]);
            return s;
        },
    };
    let mut value = bound;
    proof {
        lemma_fnv1a_append(state, seq![0x2Bu8], varint_encode(bound as nat));
    }
    loop
        invariant
            fnv1a(state, max_len_bytes(max_len)) == fnv1a(s, varint_encode(value as nat)),
        decreases value,
    {
        let byte = (value & 0xFF) as u8;
        assert(value & 0xFF < 256) by (bit_vector);
        if value < 128 {
            assert(byte == value) by (bit_vector)
                requires
                    byte == (value & 0xFF) as u8,
                    value < 128,
            ;
            return hash_byte(s, byte);
        }
        let next = byte | 0x80;
        assert(next == (value % 128 + 128) as u8 && value >> 7 == value / 128) by (bit_vector)
            requires
                byte == (value & 0xFF) as u8,
                next == byte | 0x80,
                value >= 128,
        ;
        proof {
            let rest = varint_encode((value / 128) as nat);
            assert(varint_encode(value as nat) =~= seq![next] + rest);
            lemma_fnv1a_append(s, seq![next], rest);
        }
        s = hash_byte(s, next);
        value = value >> 7;
    }
}

/// The state after feeding each type of `ts`.
fn hash_types(opt: &HashOptions, state: u64, ts: &[DataModelType]) -> (r: u64)
    ensures
        r == fnv1a(state, types_bytes(*opt, ts@)),
    decreases ts@,
{
    let ghost all = ts@;
    let mut s = state;
    let mut idx: usize = 0;
    while idx < ts.len()
        invariant
            all == ts@,
            idx <= all.len(),
            s == fnv1a(state, types_bytes(*opt, all.take(idx as int))),
        decreases all.len() - idx,
    {
        proof {
            assert(decreases_to!(all => all[idx as int]));
        }
        let ghost before = s;
        s = hash_sdm_type(opt, s, &ts[idx]);
        proof {
            assert(all.take(idx + 1).drop_last() =~= all.take(idx as int));
            lemma_fnv1a_append(state, types_bytes(*opt, all.take(idx as int)), schema_bytes(*opt, all[idx as int]));
        }
        idx += 1;
    }
    assert(all.take(idx as int) =~= all);
    s
}

/// The state after feeding each field of `fs`.
fn hash_fields(opt: &HashOptions, state: u64, fs: &[NamedField]) -> (r: u64)
    ensures
        r == fnv1a(state, fields_bytes(*opt, fs@)),
    decreases fs@,
{
    let ghost all = fs@;
    let mut s = state;
    let mut idx: usize = 0;
    while idx < fs.len()
        invariant
            all == fs@,
            idx <= all.len(),
            s == fnv1a(state, fields_bytes(*opt, all.take(idx as int))),
        decreases all.len() - idx,
    {
        proof {
            assert(decreases_to!(all => all[idx as int]));
        }
        s = hash_named_field(opt, s, &fs[idx]);
        proof {
            assert(all.take(idx + 1).drop_last() =~= all.take(idx as int));
            lemma_fnv1a_append(state, fields_bytes(*opt, all.take(idx as int)), field_bytes(*opt, all[idx as int]));
        }
        idx += 1;
    }
    assert(all.take(idx as int) =~= all);
    s
}

/// The state after feeding each variant of `vs`.
fn hash_variants(opt: &HashOptions, state: u64, vs: &[Variant]) -> (r: u64)
    ensures
        r == fnv1a(state, variants_bytes(*opt, vs@)),
    decreases vs@,
{
    let ghost all = vs@;
    let mut s = state;
    let mut idx: usize = 0;
    while idx < vs.len()
        invariant
            all == vs@,
            idx <= all.len(),
            s == fnv1a(state, variants_bytes(*opt, all.take(idx as int))),
        decreases all.len() - idx,
    {
        proof {
            assert(decreases_to!(all => all[idx as int]));
        }
        s = hash_variant(opt, s, &vs[idx]);
        proof {
            assert(all.take(idx + 1).drop_last() =~= all.take(idx as int));
            lemma_fnv1a_append(state, variants_bytes(*opt, all.take(idx as int)), variant_bytes(*opt, all[idx as int]));
        }
        idx += 1;
    }
    assert(all.take(idx as int) =~= all);
    s
}

/// The state after feeding a tag byte, then `rest`.
pub(crate) proof fn lemma_tag_then(state: u64, tag: u8, rest: Seq<u8>)
    ensures
        fnv1a(fnv1a(state, seq![tag]), rest) == fnv1a(state, seq![tag] + rest),
{
    lemma_fnv1a_append(state, seq![tag], rest);
}

/// The state after feeding the bytes of the schema `sdmty`.
fn hash_sdm_type(opt: &HashOptions, state: u64, sdmty: &DataModelType) -> (r: u64)
    ensures
        r == fnv1a(state, schema_bytes(*opt, *sdmty)),
    decreases *sdmty,
{
    match sdmty {
        DataModelType::Bool => hash_byte(state, 0x11),
        DataModelType::I8 => hash_byte(state, 0xC5),
        DataModelType::U8 => hash_byte(state, 0x3D),
        DataModelType::I16 => hash_byte(state, 0x1D),
        DataModelType::I32 => hash_byte(state, 0x0D),
        DataModelType::I64 => hash_byte(state, 0x0B),
        DataModelType::I128 => hash_byte(state, 0x02),
        DataModelType::U16 => hash_byte(state, 0x83),
        DataModelType::U32 => hash_byte(state, 0xD3),
        DataModelType::U64 => hash_byte(state, 0x13),
        DataModelType::U128 => hash_byte(state, 0x8B),
        DataModelType::Usize => hash_byte(state, 0x6B),
        DataModelType::Isize => hash_byte(state, 0xAD),
        DataModelType::F32 => hash_byte(state, 0xEF),
        DataModelType::F64 => hash_byte(state, 0x71),
        DataModelType::Char => hash_byte(state, 0xC1),
        DataModelType::String { max_len } => {
            let s = hash_byte(state, 0x25);
            let r = hash_bound(opt, s, *max_len);
            proof {
                lemma_tag_then(state, 0x25, bound_bytes(*opt, *max_len));
            }
            r
        },
        DataModelType::ByteArray { max_len } => {
            // Hashed as a sequence of `u8`: on the wire the two are the same.
            let s = hash_byte(state, 0x03);
            let s2 = hash_byte(s, 0x3D);
            let r = hash_bound(opt, s2, *max_len);
            proof {
                lemma_tag_then(s, 0x3D, bound_bytes(*opt, *max_len));
                lemma_tag_then(state, 0x03, seq![0x3Du8] + bound_bytes(*opt, *max_len));
                assert(schema_bytes(*opt, *sdmty) =~= seq![0x03u8] + (seq![0x3Du8] + bound_bytes(
                    *opt,
                    *max_len,
                )));
            }
            r
        },
        DataModelType::Option(t) => {
            let s = hash_byte(state, 0x6D);
            let r = hash_sdm_type(opt, s, &**t);
            proof {
                lemma_tag_then(state, 0x6D, schema_bytes(*opt, **t));
            }
            r
        },
        DataModelType::Unit => hash_byte(state, 0x47),
        DataModelType::SeqOf { element, max_len } => {
            let s = hash_byte(state, 0x03);
            let s2 = hash_sdm_type(opt, s, &**element);
            let r = hash_bound(opt, s2, *max_len);
            proof {
                let e = schema_bytes(*opt, **element);
                let b = bound_bytes(*opt, *max_len);
                lemma_fnv1a_append(s, e, b);
                lemma_tag_then(state, 0x03, e + b);
                assert(schema_bytes(*opt, *sdmty) =~= seq![0x03u8] + (e + b));
            }
            r
        },
        DataModelType::Tuple(ts) => {
            let s = hash_byte(state, 0xA7);
            let r = hash_types(opt, s, ts.as_slice());
            proof {
                lemma_tag_then(state, 0xA7, types_bytes(*opt, ts@));
            }
            r
        },
        DataModelType::Array { item, count } => {
            // Hashed as a tuple of `count` items: on the wire the two are the same.
            let s = hash_byte(state, 0xA7);
            let ghost b = schema_bytes(*opt, **item);
            let mut st = s;
            let mut i: usize = 0;
            while i < *count
                invariant
                    i <= *count,
                    st == fnv1a(s, repeat_bytes(b, i as nat)),
                    b == schema_bytes(*opt, **item),
                    decreases_to!(*sdmty => **item),
                decreases *count - i,
            {
                let ghost before = st;
                st = hash_sdm_type(opt, st, &**item);
                proof {
                    lemma_fnv1a_append(s, repeat_bytes(b, i as nat), b);
                    assert(repeat_bytes(b, (i + 1) as nat) == repeat_bytes(b, i as nat) + b);
                }
                i += 1;
            }
            proof {
                lemma_tag_then(state, 0xA7, repeat_bytes(b, *count as nat));
            }
            st
        },
        DataModelType::MapOf { key, val, max_len } => {
            let s = hash_byte(state, 0x4F);
            let s2 = hash_sdm_type(opt, s, &**key);
            let s3 = hash_sdm_type(opt, s2, &**val);
            let r = hash_bound(opt, s3, *max_len);
            proof {
                let k = schema_bytes(*opt, **key);
                let v = schema_bytes(*opt, **val);
                let b = bound_bytes(*opt, *max_len);
                lemma_fnv1a_append(s2, v, b);
                lemma_fnv1a_append(s, k, v + b);
                lemma_tag_then(state, 0x4F, k + (v + b));
                assert(schema_bytes(*opt, *sdmty) =~= seq![0x4Fu8] + (k + (v + b)));
            }
            r
        },
        DataModelType::Struct { name: _, data } => hash_struct(opt, state, data),
        DataModelType::Enum { name: _, variants } => {
            let s = hash_byte(state, 0xE9);
            let r = hash_variants(opt, s, variants.as_slice());
            proof {
                lemma_tag_then(state, 0xE9, variants_bytes(*opt, variants@));
            }
            r
        },
        DataModelType::Schema => hash_byte(state, 0xE5),
    }
}

/// The state after feeding a length bound, when `opt` hashes bounds.
pub(crate) fn hash_bound(opt: &HashOptions, state: u64, max_len: Option<usize>) -> (r: u64)
    ensures
        r == fnv1a(state, bound_bytes(*opt, max_len)),
{
    if opt.hash_max_size {
        hash_max_len(state, max_len)
    } else {
        state
    }
}

/// The state after feeding the contents of a struct.
fn hash_struct(opt: &HashOptions, state: u64, data: &Data) -> (r: u64)
    ensures
        r == fnv1a(state, struct_bytes(*opt, *data)),
    decreases *data,
{
    // The name of the type is not hashed. This allows "safe" type punning, e.g. treating
    // `Vec<u8>` and `&[u8]` as compatible types, when talking between std and no-std targets.
    match data {
        Data::Unit => hash_byte(state, 0xBF),
        Data::Newtype(dmt) => {
            let s = hash_byte(state, 0x9D);
            let r = hash_sdm_type(opt, s, &**dmt);
            proof {
                lemma_tag_then(state, 0x9D, schema_bytes(*opt, **dmt));
            }
            r
        },
        Data::Tuple(dmts) => {
            let s = hash_byte(state, 0x05);
            let r = hash_types(opt, s, dmts.as_slice());
            proof {
                lemma_tag_then(state, 0x05, types_bytes(*opt, dmts@));
            }
            r
        },
        Data::Struct(nfs) => {
            let s = hash_byte(state, 0x7F);
            let r = hash_fields(opt, s, nfs.as_slice());
            proof {
                lemma_tag_then(state, 0x7F, fields_bytes(*opt, nfs@));
            }
            r
        },
    }
}

/// The state after feeding an enum variant: its name, a tag for its kind, then its contents.
fn hash_variant(opt: &HashOptions, state: u64, nt: &Variant) -> (r: u64)
    ensures
        r == fnv1a(state, variant_bytes(*opt, *nt)),
    decreases *nt,
{
    let s = hash_update_str(state, nt.name);
    let ghost rest: Seq<u8>;
    let r = match &nt.data {
        Data::Unit => {
            proof { rest = seq![0xB5u8]; }
            hash_byte(s, 0xB5)
        },
        Data::Newtype(t) => {
            let s2 = hash_byte(s, 0xDF);
            let r = hash_sdm_type(opt, s2, &**t);
            proof {
                lemma_tag_then(s, 0xDF, schema_bytes(*opt, **t));
                rest = seq![0xDFu8] + schema_bytes(*opt, **t);
            }
            r
        },
        Data::Tuple(ts) => {
            let s2 = hash_byte(s, 0xC7);
            let r = hash_types(opt, s2, ts.as_slice());
            proof {
                lemma_tag_then(s, 0xC7, types_bytes(*opt, ts@));
                rest = seq![0xC7u8] + types_bytes(*opt, ts@);
            }
            r
        },
        Data::Struct(fields) => {
            let s2 = hash_byte(s, 0x67);
            let r = hash_fields(opt, s2, fields.as_slice());
            proof {
                lemma_tag_then(s, 0x67, fields_bytes(*opt, fields@));
                rest = seq![0x67u8] + fields_bytes(*opt, fields@);
            }
            r
        },
    };
    proof {
        lemma_fnv1a_append(state, nt.name.spec_bytes(), rest);
    }
    r
}

/// The state after feeding a named field: its name, then its type.
fn hash_named_field(opt: &HashOptions, state: u64, nt: &NamedField) -> (r: u64)
    ensures
        r == fnv1a(state, field_bytes(*opt, *nt)),
    decreases *nt,
{
    let s = hash_update_str(state, nt.name);
    let r = hash_sdm_type(opt, s, &nt.ty);
    proof {
        lemma_fnv1a_append(state, nt.name.spec_bytes(), schema_bytes(*opt, nt.ty));
    }
    r
}

/// Law: the key of a path and a schema is what [`hasher`] gives, with the default options,
/// for the path followed by the schema.
pub proof fn law_key_hashes_path_then_schema(path: &str, d: &DataModelType)
    ensures
        fnv1a(BASIS, path.spec_bytes() + schema_bytes(default_options(), *d)) == fnv1a(
            BASIS,
            items_bytes(default_options(), seq![HashItem::String(path), HashItem::Schema(d)]),
        ),
{
    let s = seq![HashItem::String(path), HashItem::Schema(d)];
    assert(s.drop_last().drop_last() =~= Seq::<HashItem>::empty());
    assert(s.drop_last().last() == HashItem::String(path));
    assert(items_bytes(default_options(), s.drop_last().drop_last()) =~= Seq::<u8>::empty());
    assert(items_bytes(default_options(), s.drop_last()) =~= path.spec_bytes());
}

} // verus!
