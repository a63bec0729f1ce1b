//! The hashed bytes of a schema start with a byte that tells its kind of wire format apart
//! from every other kind.
use super::{
    field_bytes, fields_bytes, repeat_bytes, schema_bytes, struct_bytes, types_bytes, variant_bytes,
    variants_bytes, HashOptions,
};
use crate::schema::{Data, DataModelType, NamedField, Variant};
use vstd::prelude::*;
use vstd::string::StringSliceAdditionalSpecFns;

verus! {

/// The kind of wire format of a schema. Kinds that postcard writes alike share a number: a
/// byte array is a sequence of `u8`, and a fixed size array is a tuple of its items. The
/// name of a struct or enum is no part of its kind, but the shape of a struct's contents is.
pub open spec fn wire_kind(d: DataModelType) -> int {
    match d {
        DataModelType::Bool => 0,
        DataModelType::I8 => 1,
        DataModelType::U8 => 2,
        DataModelType::I16 => 3,
        DataModelType::I32 => 4,
        DataModelType::I64 => 5,
        DataModelType::I128 => 6,
        DataModelType::U16 => 7,
        DataModelType::U32 => 8,
        DataModelType::U64 => 9,
        DataModelType::U128 => 10,
        DataModelType::Usize => 11,
        DataModelType::Isize => 12,
        DataModelType::F32 => 13,
        DataModelType::F64 => 14,
        DataModelType::Char => 15,
        DataModelType::String { .. } => 16,
        DataModelType::ByteArray { .. } => 17,
        DataModelType::SeqOf { .. } => 17,
        DataModelType::Option(_) => 18,
        DataModelType::Unit => 19,
        DataModelType::Tuple(_) => 20,
        DataModelType::Array { .. } => 20,
        DataModelType::MapOf { .. } => 21,
        DataModelType::Struct { data, .. } => match data {
            Data::Unit => 22,
            Data::Newtype(_) => 23,
            Data::Tuple(_) => 24,
            Data::Struct(_) => 25,
        },
        DataModelType::Enum { .. } => 26,
        DataModelType::Schema => 27,
    }
}

/// The kind a leading hashed byte stands for.
spec fn kind_of_lead(b: u8) -> int {
    if b == 0x11 { 0 }
    else if b == 0xC5 { 1 }
    else if b == 0x3D { 2 }
    else if b == 0x1D { 3 }
    else if b == 0x0D { 4 }
    else if b == 0x0B { 5 }
    else if b == 0x02 { 6 }
    else if b == 0x83 { 7 }
    else if b == 0xD3 { 8 }
    else if b == 0x13 { 9 }
    else if b == 0x8B { 10 }
    else if b == 0x6B { 11 }
    else if b == 0xAD { 12 }
    else if b == 0xEF { 13 }
    else if b == 0x71 { 14 }
    else if b == 0xC1 { 15 }
    else if b == 0x25 { 16 }
    else if b == 0x03 { 17 }
    else if b == 0x6D { 18 }
    else if b == 0x47 { 19 }
    else if b == 0xA7 { 20 }
    else if b == 0x4F { 21 }
    else if b == 0xBF { 22 }
    else if b == 0x9D { 23 }
    else if b == 0x05 { 24 }
    else if b == 0x7F { 25 }
    else if b == 0xE9 { 26 }
    else if b == 0xE5 { 27 }
    else { -1 }
}

proof fn lemma_lead(opt: HashOptions, d: DataModelType)
    ensures
        schema_bytes(opt, d).len() > 0,
        kind_of_lead(schema_bytes(opt, d)[0]) == wire_kind(d),
{
    match d {
        DataModelType::Struct { data, .. } => {
            assert(schema_bytes(opt, d) == struct_bytes(opt, data));
        },
        _ => {},
    }
}

/// Law: the hashed bytes of a schema are never empty, and two schemas whose hashed bytes
/// start alike have the same kind of wire format. So wrapping a type (in an option, a
/// sequence, a map, a struct, ...) always changes the bytes it is hashed as.
pub proof fn law_lead_byte_tells_kind(opt: HashOptions, a: DataModelType, b: DataModelType)
    ensures
        schema_bytes(opt, a).len() > 0,
        schema_bytes(opt, a)[0] == schema_bytes(opt, b)[0] ==> wire_kind(a) == wire_kind(b),
{
    lemma_lead(opt, a);
    lemma_lead(opt, b);
}

/// The types of the fields `fs`, in order.
pub open spec fn field_types(fs: Seq<NamedField>) -> Seq<DataModelType>
    decreases fs,
{
    if fs.len() == 0 {
        Seq::empty()
    } else {
        field_types(fs.drop_last()).push(fs.last().ty)
    }
}

/// The types held by the contents of a struct or variant.
pub open spec fn data_parts(d: Data) -> Seq<DataModelType> {
    match d {
        Data::Unit => Seq::empty(),
        Data::Newtype(t) => seq![*t],
        Data::Tuple(ts) => ts@,
        Data::Struct(fs) => field_types(fs@),
    }
}

/// The types held by the variants `vs`, variant after variant.
pub open spec fn variants_parts(vs: Seq<Variant>) -> Seq<DataModelType>
    decreases vs,
{
    if vs.len() == 0 {
        Seq::empty()
    } else {
        variants_parts(vs.drop_last()) + data_parts(vs.last().data)
    }
}

/// The types a value of `d` holds directly on the wire: the inner type of an option, the
/// element of a sequence, the items of a tuple, the item of a non-empty array, the key and
/// value of a map, and the types held by a struct or by the variants of an enum.
pub open spec fn wire_parts(d: DataModelType) -> Seq<DataModelType> {
    match d {
        DataModelType::Option(t) => seq![*t],
        DataModelType::SeqOf { element, .. } => seq![*element],
        DataModelType::Tuple(ts) => ts@,
        DataModelType::Array { item, count } => if count > 0 {
            seq![*item]
        } else {
            Seq::empty()
        },
        DataModelType::MapOf { key, val, .. } => seq![*key, *val],
        DataModelType::Struct { data, .. } => data_parts(data),
        DataModelType::Enum { variants, .. } => variants_parts(variants@),
        _ => Seq::empty(),
    }
}

/// Whether `needle` sits somewhere in `hay`, as a run of consecutive bytes.
pub open spec fn occurs_in(hay: Seq<u8>, needle: Seq<u8>) -> bool {
    exists|i: int|
        0 <= i && i + needle.len() <= hay.len() && #[trigger] hay.subrange(i, i + needle.len())
            == needle
}

proof fn lemma_occ_self(n: Seq<u8>)
    ensures
        occurs_in(n, n),
{
    assert(n.subrange(0int, 0int + n.len()) == n);
}

proof fn lemma_occ_left(a: Seq<u8>, b: Seq<u8>, n: Seq<u8>)
    requires
        occurs_in(a, n),
    ensures
        occurs_in(a + b, n),
{
    let i = choose|i: int|
        0 <= i && i + n.len() <= a.len() && #[trigger] a.subrange(i, i + n.len()) == n;
    assert((a + b).subrange(i, i + n.len()) == a.subrange(i, i + n.len()));
}

proof fn lemma_occ_right(a: Seq<u8>, b: Seq<u8>, n: Seq<u8>)
    requires
        occurs_in(b, n),
    ensures
        occurs_in(a + b, n),
{
    let i = choose|i: int|
        0 <= i && i + n.len() <= b.len() && #[trigger] b.subrange(i, i + n.len()) == n;
    assert((a + b).subrange(a.len() + i, a.len() + i + n.len()) == b.subrange(i, i + n.len()));
}

proof fn lemma_types_hold(opt: HashOptions, ts: Seq<DataModelType>, i: int)
    requires
        0 <= i < ts.len(),
    ensures
        occurs_in(types_bytes(opt, ts), schema_bytes(opt, ts[i])),
    decreases ts,
{
    let a = types_bytes(opt, ts.drop_last());
    let b = schema_bytes(opt, ts.last());
    if i == ts.len() - 1 {
        lemma_occ_self(b);
        lemma_occ_right(a, b, b);
    } else {
        lemma_types_hold(opt, ts.drop_last(), i);
        lemma_occ_left(a, b, schema_bytes(opt, ts[i]));
    }
}

proof fn lemma_field_types(fs: Seq<NamedField>)
    ensures
        field_types(fs).len() == fs.len(),
        forall|i: int| 0 <= i < fs.len() ==> #[trigger] field_types(fs)[i] == fs[i].ty,
    decreases fs,
{
    if fs.len() > 0 {
        lemma_field_types(fs.drop_last());
    }
}

proof fn lemma_fields_hold(opt: HashOptions, fs: Seq<NamedField>, i: int)
    requires
        0 <= i < fs.len(),
    ensures
        occurs_in(fields_bytes(opt, fs), schema_bytes(opt, fs[i].ty)),
    decreases fs,
{
    let a = fields_bytes(opt, fs.drop_last());
    let b = field_bytes(opt, fs.last());
    if i == fs.len() - 1 {
        let t = schema_bytes(opt, fs.last().ty);
        lemma_occ_self(t);
        lemma_occ_right(fs.last().name.spec_bytes(), t, t);
        lemma_occ_right(a, b, t);
    } else {
        lemma_fields_hold(opt, fs.drop_last(), i);
        lemma_occ_left(a, b, schema_bytes(opt, fs[i].ty));
    }
}

/// The bytes of each type held by contents `d` sit in `bytes`, which hold the contents'
/// hashed bytes after one leading byte.
proof fn lemma_data_hold(opt: HashOptions, d: Data, i: int)
    requires
        0 <= i < data_parts(d).len(),
    ensures
        occurs_in(struct_bytes(opt, d).drop_first(), schema_bytes(opt, data_parts(d)[i])),
{
    match d {
        Data::Newtype(t) => {
            assert(struct_bytes(opt, d).drop_first() == schema_bytes(opt, *t));
            lemma_occ_self(schema_bytes(opt, *t));
        },
        Data::Tuple(ts) => {
            assert(struct_bytes(opt, d).drop_first() == types_bytes(opt, ts@));
            lemma_types_hold(opt, ts@, i);
        },
        Data::Struct(fs) => {
            assert(struct_bytes(opt, d).drop_first() == fields_bytes(opt, fs@));
            lemma_field_types(fs@);
            lemma_fields_hold(opt, fs@, i);
        },
        Data::Unit => {},
    }
}

proof fn lemma_variant_hold(opt: HashOptions, v: Variant, i: int)
    requires
        0 <= i < data_parts(v.data).len(),
    ensures
        occurs_in(variant_bytes(opt, v), schema_bytes(opt, data_parts(v.data)[i])),
{
    let n = v.name.spec_bytes();
    let p = schema_bytes(opt, data_parts(v.data)[i]);
    match v.data {
        Data::Newtype(t) => {
            lemma_occ_self(p);
            lemma_occ_right(seq![0xDFu8], p, p);
            lemma_occ_right(n, seq![0xDFu8] + p, p);
        },
        Data::Tuple(ts) => {
            lemma_types_hold(opt, ts@, i);
            lemma_occ_right(seq![0xC7u8], types_bytes(opt, ts@), p);
            lemma_occ_right(n, seq![0xC7u8] + types_bytes(opt, ts@), p);
        },
        Data::Struct(fs) => {
            lemma_field_types(fs@);
            lemma_fields_hold(opt, fs@, i);
            lemma_occ_right(seq![0x67u8], fields_bytes(opt, fs@), p);
            lemma_occ_right(n, seq![0x67u8] + fields_bytes(opt, fs@), p);
        },
        Data::Unit => {},
    }
}

proof fn lemma_variants_hold(opt: HashOptions, vs: Seq<Variant>, i: int)
    requires
        0 <= i < variants_parts(vs).len(),
    ensures
        occurs_in(variants_bytes(opt, vs), schema_bytes(opt, variants_parts(vs)[i])),
    decreases vs,
{
    let pre = variants_parts(vs.drop_last());
    let last = data_parts(vs.last().data);
    let a = variants_bytes(opt, vs.drop_last());
    let b = variant_bytes(opt, vs.last());
    if i < pre.len() {
        lemma_variants_hold(opt, vs.drop_last(), i);
        assert((pre + last)[i] == pre[i]);
        lemma_occ_left(a, b, schema_bytes(opt, pre[i]));
    } else {
        assert((pre + last)[i] == last[i - pre.len()]);
        lemma_variant_hold(opt, vs.last(), i - pre.len());
        lemma_occ_right(a, b, schema_bytes(opt, last[i - pre.len()]));
    }
}

proof fn lemma_repeat_holds(s: Seq<u8>, n: nat)
    requires
        n > 0,
    ensures
        occurs_in(repeat_bytes(s, n), s),
{
    lemma_occ_self(s);
    lemma_occ_right(repeat_bytes(s, (n - 1) as nat), s, s);
}

/// Law: the hashed bytes of a schema hold, after its leading byte, the hashed bytes of every
/// type a value of it holds directly on the wire. So no part of a type is left out of its
/// hash, and each part's bytes are shorter than the whole's.
pub proof fn law_parts_are_hashed(opt: HashOptions, d: DataModelType, i: int)
    requires
        0 <= i < wire_parts(d).len(),
    ensures
        occurs_in(schema_bytes(opt, d).drop_first(), schema_bytes(opt, wire_parts(d)[i])),
{
    let p = schema_bytes(opt, wire_parts(d)[i]);
    match d {
        DataModelType::Option(t) => {
            assert(schema_bytes(opt, d).drop_first() == p);
            lemma_occ_self(p);
        },
        DataModelType::SeqOf { element, max_len } => {
            let rest = super::bound_bytes(opt, max_len);
            assert(schema_bytes(opt, d).drop_first() == p + rest);
            lemma_occ_self(p);
            lemma_occ_left(p, rest, p);
        },
        DataModelType::Tuple(ts) => {
            assert(schema_bytes(opt, d).drop_first() == types_bytes(opt, ts@));
            lemma_types_hold(opt, ts@, i);
        },
        DataModelType::Array { item, count } => {
            assert(schema_bytes(opt, d).drop_first() == repeat_bytes(schema_bytes(opt, *item), count as nat));
            lemma_repeat_holds(schema_bytes(opt, *item), count as nat);
        },
        DataModelType::MapOf { key, val, max_len } => {
            let k = schema_bytes(opt, *key);
            let v = schema_bytes(opt, *val);
            let rest = super::bound_bytes(opt, max_len);
            assert(schema_bytes(opt, d).drop_first() == k + v + rest);
            lemma_occ_self(p);
            if i == 0 {
                lemma_occ_left(k, v, k);
            } else {
                lemma_occ_right(k, v, v);
            }
            lemma_occ_left(k + v, rest, p);
        },
        DataModelType::Struct { data, .. } => {
            lemma_data_hold(opt, data, i);
        },
        DataModelType::Enum { variants, .. } => {
            assert(schema_bytes(opt, d).drop_first() == variants_bytes(opt, variants@));
            lemma_variants_hold(opt, variants@, i);
        },
        _ => {},
    }
}

} // verus!
