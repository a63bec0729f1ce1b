//! Length bounds enter a hash only when [`HashOptions::hash_max_size`] asks for them.
use super::{
    fields_bytes, schema_bytes, struct_bytes, types_bytes, variant_bytes, variants_bytes,
    HashOptions,
};
use crate::schema::{Data, DataModelType, NamedField, Variant};
use vstd::prelude::*;
use vstd::string::StringSliceAdditionalSpecFns;

verus! {

/// `a` and `b` are the same schema but for the length bounds of their strings, byte arrays,
/// sequences and maps.
pub open spec fn same_but_bounds(a: DataModelType, b: DataModelType) -> bool
    decreases a,
{
    match (a, b) {
        (DataModelType::String { .. }, DataModelType::String { .. }) => true,
        (DataModelType::ByteArray { .. }, DataModelType::ByteArray { .. }) => true,
        (DataModelType::Option(t), DataModelType::Option(u)) => same_but_bounds(*t, *u),
        (
            DataModelType::SeqOf { element: t, .. },
            DataModelType::SeqOf { element: u, .. },
        ) => same_but_bounds(*t, *u),
        (DataModelType::Tuple(ts), DataModelType::Tuple(us)) => types_same_but_bounds(ts@, us@),
        (DataModelType::Array { item: t, count: m }, DataModelType::Array { item: u, count: n }) => {
            m == n && same_but_bounds(*t, *u)
        },
        (
            DataModelType::MapOf { key: k1, val: v1, .. },
            DataModelType::MapOf { key: k2, val: v2, .. },
        ) => same_but_bounds(*k1, *k2) && same_but_bounds(*v1, *v2),
        (DataModelType::Struct { name: n1, data: d1 }, DataModelType::Struct { name: n2, data: d2 }) => {
            n1@ == n2@ && data_same_but_bounds(d1, d2)
        },
        (
            DataModelType::Enum { name: n1, variants: v1 },
            DataModelType::Enum { name: n2, variants: v2 },
        ) => n1@ == n2@ && variants_same_but_bounds(v1@, v2@),
        (DataModelType::Option(_), _) => false,
        (DataModelType::SeqOf { .. }, _) => false,
        (DataModelType::Tuple(_), _) => false,
        (DataModelType::Array { .. }, _) => false,
        (DataModelType::MapOf { .. }, _) => false,
        (DataModelType::Struct { .. }, _) => false,
        (DataModelType::Enum { .. }, _) => false,
        (DataModelType::String { .. }, _) => false,
        (DataModelType::ByteArray { .. }, _) => false,
        _ => a == b,
    }
}

/// The contents `a` and `b` are the same but for length bounds.
pub open spec fn data_same_but_bounds(a: Data, b: Data) -> bool
    decreases a,
{
    match (a, b) {
        (Data::Unit, Data::Unit) => true,
        (Data::Newtype(t), Data::Newtype(u)) => same_but_bounds(*t, *u),
        (Data::Tuple(ts), Data::Tuple(us)) => types_same_but_bounds(ts@, us@),
        (Data::Struct(fs), Data::Struct(gs)) => fields_same_but_bounds(fs@, gs@),
        _ => false,
    }
}

/// The types `ts` and `us` are pairwise the same but for length bounds.
pub open spec fn types_same_but_bounds(ts: Seq<DataModelType>, us: Seq<DataModelType>) -> bool
    decreases ts,
{
    if ts.len() == 0 {
        us.len() == 0
    } else {
        us.len() == ts.len() && types_same_but_bounds(ts.drop_last(), us.drop_last())
            && same_but_bounds(ts.last(), us.last())
    }
}

/// The fields `fs` and `gs` pairwise have the same names, and types the same but for length
/// bounds.
pub open spec fn fields_same_but_bounds(fs: Seq<NamedField>, gs: Seq<NamedField>) -> bool
    decreases fs,
{
    if fs.len() == 0 {
        gs.len() == 0
    } else {
        gs.len() == fs.len() && fields_same_but_bounds(fs.drop_last(), gs.drop_last())
            && fs.last().name@ == gs.last().name@ && same_but_bounds(fs.last().ty, gs.last().ty)
    }
}

/// The variants `vs` and `ws` pairwise have the same names, and contents the same but for
/// length bounds.
pub open spec fn variants_same_but_bounds(vs: Seq<Variant>, ws: Seq<Variant>) -> bool
    decreases vs,
{
    if vs.len() == 0 {
        ws.len() == 0
    } else {
        ws.len() == vs.len() && variants_same_but_bounds(vs.drop_last(), ws.drop_last())
            && vs.last().name@ == ws.last().name@ && data_same_but_bounds(
            vs.last().data,
            ws.last().data,
        )
    }
}

proof fn lemma_schema(opt: HashOptions, a: DataModelType, b: DataModelType)
    requires
        !opt.hash_max_size,
        same_but_bounds(a, b),
    ensures
        schema_bytes(opt, a) == schema_bytes(opt, b),
    decreases a,
{
    match (a, b) {
        (DataModelType::Option(t), DataModelType::Option(u)) => lemma_schema(opt, *t, *u),
        (
            DataModelType::SeqOf { element: t, .. },
            DataModelType::SeqOf { element: u, .. },
        ) => lemma_schema(opt, *t, *u),
        (DataModelType::Tuple(ts), DataModelType::Tuple(us)) => lemma_types(opt, ts@, us@),
        (DataModelType::Array { item: t, .. }, DataModelType::Array { item: u, .. }) => {
            lemma_schema(opt, *t, *u)
        },
        (
            DataModelType::MapOf { key: k1, val: v1, .. },
            DataModelType::MapOf { key: k2, val: v2, .. },
        ) => {
            lemma_schema(opt, *k1, *k2);
            lemma_schema(opt, *v1, *v2);
        },
        (DataModelType::Struct { data: d1, .. }, DataModelType::Struct { data: d2, .. }) => {
            lemma_struct(opt, d1, d2)
        },
        (DataModelType::Enum { variants: v1, .. }, DataModelType::Enum { variants: v2, .. }) => {
            lemma_variants(opt, v1@, v2@)
        },
        _ => {},
    }
}

proof fn lemma_struct(opt: HashOptions, a: Data, b: Data)
    requires
        !opt.hash_max_size,
        data_same_but_bounds(a, b),
    ensures
        struct_bytes(opt, a) == struct_bytes(opt, b),
    decreases a,
{
    match (a, b) {
        (Data::Newtype(t), Data::Newtype(u)) => lemma_schema(opt, *t, *u),
        (Data::Tuple(ts), Data::Tuple(us)) => lemma_types(opt, ts@, us@),
        (Data::Struct(fs), Data::Struct(gs)) => lemma_fields(opt, fs@, gs@),
        _ => {},
    }
}

proof fn lemma_types(opt: HashOptions, ts: Seq<DataModelType>, us: Seq<DataModelType>)
    requires
        !opt.hash_max_size,
        types_same_but_bounds(ts, us),
    ensures
        types_bytes(opt, ts) == types_bytes(opt, us),
    decreases ts,
{
    if ts.len() > 0 {
        lemma_types(opt, ts.drop_last(), us.drop_last());
        lemma_schema(opt, ts.last(), us.last());
    }
}

proof fn lemma_fields(opt: HashOptions, fs: Seq<NamedField>, gs: Seq<NamedField>)
    requires
        !opt.hash_max_size,
        fields_same_but_bounds(fs, gs),
    ensures
        fields_bytes(opt, fs) == fields_bytes(opt, gs),
    decreases fs,
{
    if fs.len() > 0 {
        lemma_fields(opt, fs.drop_last(), gs.drop_last());
        lemma_schema(opt, fs.last().ty, gs.last().ty);
        assert(fs.last().name.spec_bytes() == gs.last().name.spec_bytes());
        assert(super::field_bytes(opt, fs.last()) == super::field_bytes(opt, gs.last()));
    }
}

proof fn lemma_variants(opt: HashOptions, vs: Seq<Variant>, ws: Seq<Variant>)
    requires
        !opt.hash_max_size,
        variants_same_but_bounds(vs, ws),
    ensures
        variants_bytes(opt, vs) == variants_bytes(opt, ws),
    decreases vs,
{
    if vs.len() > 0 {
        lemma_variants(opt, vs.drop_last(), ws.drop_last());
        let v = vs.last();
        let w = ws.last();
        assert(data_same_but_bounds(v.data, w.data));
        match (v.data, w.data) {
            (Data::Newtype(t), Data::Newtype(u)) => lemma_schema(opt, *t, *u),
            (Data::Tuple(ts), Data::Tuple(us)) => lemma_types(opt, ts@, us@),
            (Data::Struct(fs), Data::Struct(gs)) => lemma_fields(opt, fs@, gs@),
            _ => {},
        }
        assert(v.name.spec_bytes() == w.name.spec_bytes());
        assert(variant_bytes(opt, v) == variant_bytes(opt, w));
    }
}

/// Law: unless bounds are hashed, two schemas that differ only in their length bounds hash
/// alike.
pub proof fn law_bounds_ignored_unless_hashed(opt: HashOptions, a: DataModelType, b: DataModelType)
    requires
        !opt.hash_max_size,
        same_but_bounds(a, b),
    ensures
        schema_bytes(opt, a) == schema_bytes(opt, b),
{
    lemma_schema(opt, a, b);
}

} // verus!
