//! Counting the entries a schema needs in each table of an interned schema.
use super::{schema_free, schema_free_data};
use crate::schema::{Data, DataModelType, NamedField, Variant};
use crate::de::utf8_str;
use vstd::prelude::*;
use vstd::string::StringSliceAdditionalSpecFns;

verus! {

/// The number of run entries needed for the tuples in the schema `d`.
pub open spec fn run_dmt_total(d: DataModelType) -> nat
    decreases d,
{
    match d {
        DataModelType::Option(t) => run_dmt_total(*t),
        DataModelType::SeqOf { element, .. } => run_dmt_total(*element),
        DataModelType::Tuple(ts) => ts@.len() + run_dmt_total_types(ts@),
        DataModelType::Array { item, .. } => run_dmt_total(*item),
        DataModelType::MapOf { key, val, .. } => run_dmt_total(*key) + run_dmt_total(*val),
        DataModelType::Struct { data, .. } => run_dmt_total_data(data),
        DataModelType::Enum { variants, .. } => run_dmt_total_variants(variants@),
        DataModelType::Schema => 0,
        _ => 0,
    }
}

/// [`run_dmt_total`] for the contents of a struct or variant.
pub open spec fn run_dmt_total_data(d: Data) -> nat
    decreases d,
{
    match d {
        Data::Unit => 0,
        Data::Newtype(t) => run_dmt_total(*t),
        Data::Tuple(ts) => ts@.len() + run_dmt_total_types(ts@),
        Data::Struct(fs) => run_dmt_total_fields(fs@),
    }
}

/// The sum of [`run_dmt_total`] over `ts`.
pub open spec fn run_dmt_total_types(ts: Seq<DataModelType>) -> nat
    decreases ts,
{
    if ts.len() == 0 {
        0
    } else {
        run_dmt_total_types(ts.drop_last()) + run_dmt_total(ts.last())
    }
}

/// The sum of [`run_dmt_total`] over the types of `fs`.
pub open spec fn run_dmt_total_fields(fs: Seq<NamedField>) -> nat
    decreases fs,
{
    if fs.len() == 0 {
        0
    } else {
        run_dmt_total_fields(fs.drop_last()) + run_dmt_total(fs.last().ty)
    }
}

/// The sum of [`run_dmt_total_data`] over the contents of `vs`.
pub open spec fn run_dmt_total_variants(vs: Seq<Variant>) -> nat
    decreases vs,
{
    if vs.len() == 0 {
        0
    } else {
        run_dmt_total_variants(vs.drop_last()) + run_dmt_total_data(vs.last().data)
    }
}

/// A prefix sum of [`run_dmt_total_types`] is no more than the whole, and grows by one element.
proof fn lemma_run_dmt_total_types_prefix(ts: Seq<DataModelType>, i: int)
    requires
        0 <= i < ts.len(),
    ensures
        run_dmt_total_types(ts.take(i + 1)) == run_dmt_total_types(ts.take(i)) + run_dmt_total(ts[i]),
        run_dmt_total_types(ts.take(i + 1)) <= run_dmt_total_types(ts),
    decreases ts.len(),
{
    assert(ts.take(i + 1).drop_last() =~= ts.take(i));
    if i + 1 < ts.len() {
        assert(ts.drop_last().take(i + 1) =~= ts.take(i + 1));
        assert(ts.drop_last().take(i) =~= ts.take(i));
        lemma_run_dmt_total_types_prefix(ts.drop_last(), i);
    } else {
        assert(ts.take(i + 1) =~= ts);
    }
}

/// [`lemma_run_dmt_total_types_prefix`] for fields.
proof fn lemma_run_dmt_total_fields_prefix(fs: Seq<NamedField>, i: int)
    requires
        0 <= i < fs.len(),
    ensures
        run_dmt_total_fields(fs.take(i + 1)) == run_dmt_total_fields(fs.take(i)) + run_dmt_total(fs[i].ty),
        run_dmt_total_fields(fs.take(i + 1)) <= run_dmt_total_fields(fs),
    decreases fs.len(),
{
    assert(fs.take(i + 1).drop_last() =~= fs.take(i));
    if i + 1 < fs.len() {
        assert(fs.drop_last().take(i + 1) =~= fs.take(i + 1));
        assert(fs.drop_last().take(i) =~= fs.take(i));
        lemma_run_dmt_total_fields_prefix(fs.drop_last(), i);
    } else {
        assert(fs.take(i + 1) =~= fs);
    }
}

/// [`lemma_run_dmt_total_types_prefix`] for variants.
proof fn lemma_run_dmt_total_variants_prefix(vs: Seq<Variant>, i: int)
    requires
        0 <= i < vs.len(),
    ensures
        run_dmt_total_variants(vs.take(i + 1)) == run_dmt_total_variants(vs.take(i)) + run_dmt_total_data(vs[i].data),
        run_dmt_total_variants(vs.take(i + 1)) <= run_dmt_total_variants(vs),
    decreases vs.len(),
{
    assert(vs.take(i + 1).drop_last() =~= vs.take(i));
    if i + 1 < vs.len() {
        assert(vs.drop_last().take(i + 1) =~= vs.take(i + 1));
        assert(vs.drop_last().take(i) =~= vs.take(i));
        lemma_run_dmt_total_variants_prefix(vs.drop_last(), i);
    } else {
        assert(vs.take(i + 1) =~= vs);
    }
}

/// The number of run entries needed for the tuples in the schema `dmt`.
pub fn count_run_dmts(dmt: &DataModelType) -> (r: usize)
    requires
        schema_free(*dmt),
        run_dmt_total(*dmt) <= usize::MAX,
    ensures
        r == run_dmt_total(*dmt),
    decreases *dmt,
{
    match dmt {
        DataModelType::Bool => 0,
        DataModelType::I8 => 0,
        DataModelType::U8 => 0,
        DataModelType::I16 => 0,
        DataModelType::I32 => 0,
        DataModelType::I64 => 0,
        DataModelType::I128 => 0,
        DataModelType::U16 => 0,
        DataModelType::U32 => 0,
        DataModelType::U64 => 0,
        DataModelType::U128 => 0,
        DataModelType::Usize => 0,
        DataModelType::Isize => 0,
        DataModelType::F32 => 0,
        DataModelType::F64 => 0,
        DataModelType::Char => 0,
        DataModelType::Unit => 0,
        DataModelType::String { .. } => 0,
        DataModelType::ByteArray { .. } => 0,
        DataModelType::Option(t) => count_run_dmts(&**t),
        DataModelType::SeqOf { element, .. } => count_run_dmts(&**element),
        DataModelType::Tuple(data_model_types) => {
            let ghost ts = data_model_types@;
            let mut count: usize = data_model_types.len();
            let mut idx: usize = 0;
            while idx < data_model_types.len()
                invariant
                    ts == data_model_types@,
                    idx <= ts.len(),
                    count == data_model_types@.len() + run_dmt_total_types(ts.take(idx as int)),
                    data_model_types@.len() + run_dmt_total_types(ts) <= usize::MAX,
                    forall|i: int| 0 <= i < ts.len() ==> #[trigger] schema_free(ts[i]),
                    forall|i: int| 0 <= i < ts.len() ==> #[trigger] decreases_to!(*dmt => ts[i]),
                decreases ts.len() - idx,
            {
                proof {
                    lemma_run_dmt_total_types_prefix(ts, idx as int);
                    assert(schema_free(ts[idx as int]));
                    assert(decreases_to!(*dmt => ts[idx as int]));
                }
                count += count_run_dmts(&data_model_types[idx]);
                idx += 1;
            }
            assert(ts.take(idx as int) =~= ts);
            count
        },
        DataModelType::Array { item, .. } => count_run_dmts(&**item),
        DataModelType::MapOf { key, val, .. } => count_run_dmts(&**key) + count_run_dmts(&**val),
        DataModelType::Struct { name: _, data } => count_run_dmts_data(data),
        DataModelType::Enum { name: _, variants } => {
            let ghost vs = variants@;
            let mut count: usize = 0;
            let mut idx: usize = 0;
            while idx < variants.len()
                invariant
                    vs == variants@,
                    idx <= vs.len(),
                    count == run_dmt_total_variants(vs.take(idx as int)),
                    run_dmt_total_variants(vs) <= usize::MAX,
                    forall|i: int| 0 <= i < vs.len() ==> #[trigger] schema_free_data(vs[i].data),
                    forall|i: int| 0 <= i < vs.len() ==> #[trigger] decreases_to!(*dmt => vs[i].data),
                decreases vs.len() - idx,
            {
                proof {
                    lemma_run_dmt_total_variants_prefix(vs, idx as int);
                    assert(schema_free_data(vs[idx as int].data));
                    assert(decreases_to!(*dmt => vs[idx as int].data));
                }
                count += count_run_dmts_data(&variants[idx].data);
                idx += 1;
            }
            assert(vs.take(idx as int) =~= vs);
            count
        },
        DataModelType::Schema => 0,
    }
}

/// The number of run entries needed for the tuples in the contents of a struct or variant.
pub fn count_run_dmts_data(data: &Data) -> (r: usize)
    requires
        schema_free_data(*data),
        run_dmt_total_data(*data) <= usize::MAX,
    ensures
        r == run_dmt_total_data(*data),
    decreases *data,
{
    match data {
        Data::Unit => 0,
        Data::Newtype(data_model_type) => count_run_dmts(&**data_model_type),
        Data::Tuple(data_model_types) => {
            let ghost ts = data_model_types@;
            let mut count: usize = data_model_types.len();
            let mut idx: usize = 0;
            while idx < data_model_types.len()
                invariant
                    ts == data_model_types@,
                    idx <= ts.len(),
                    count == data_model_types@.len() + run_dmt_total_types(ts.take(idx as int)),
                    data_model_types@.len() + run_dmt_total_types(ts) <= usize::MAX,
                    forall|i: int| 0 <= i < ts.len() ==> #[trigger] schema_free(ts[i]),
                    forall|i: int| 0 <= i < ts.len() ==> #[trigger] decreases_to!(*data => ts[i]),
                decreases ts.len() - idx,
            {
                proof {
                    lemma_run_dmt_total_types_prefix(ts, idx as int);
                    assert(schema_free(ts[idx as int]));
                    assert(decreases_to!(*data => ts[idx as int]));
                }
                count += count_run_dmts(&data_model_types[idx]);
                idx += 1;
            }
            assert(ts.take(idx as int) =~= ts);
            count
        },
        Data::Struct(named_fields) => {
            let ghost fs = named_fields@;
            let mut count: usize = 0;
            let mut idx: usize = 0;
            while idx < named_fields.len()
                invariant
                    fs == named_fields@,
                    idx <= fs.len(),
                    count == run_dmt_total_fields(fs.take(idx as int)),
                    run_dmt_total_fields(fs) <= usize::MAX,
                    forall|i: int| 0 <= i < fs.len() ==> #[trigger] schema_free(fs[i].ty),
                    forall|i: int| 0 <= i < fs.len() ==> #[trigger] decreases_to!(*data => fs[i].ty),
                decreases fs.len() - idx,
            {
                proof {
                    lemma_run_dmt_total_fields_prefix(fs, idx as int);
                    assert(schema_free(fs[idx as int].ty));
                    assert(decreases_to!(*data => fs[idx as int].ty));
                }
                count += count_run_dmts(&named_fields[idx].ty);
                idx += 1;
            }
            assert(fs.take(idx as int) =~= fs);
            count
        },
    }
}

/// The number of named fields in the schema `d`.
pub open spec fn named_field_total(d: DataModelType) -> nat
    decreases d,
{
    match d {
        DataModelType::Option(t) => named_field_total(*t),
        DataModelType::SeqOf { element, .. } => named_field_total(*element),
        DataModelType::Tuple(ts) => named_field_total_types(ts@),
        DataModelType::Array { item, .. } => named_field_total(*item),
        DataModelType::MapOf { key, val, .. } => named_field_total(*key) + named_field_total(*val),
        DataModelType::Struct { data, .. } => named_field_total_data(data),
        DataModelType::Enum { variants, .. } => named_field_total_variants(variants@),
        DataModelType::Schema => 0,
        _ => 0,
    }
}

/// [`named_field_total`] for the contents of a struct or variant.
pub open spec fn named_field_total_data(d: Data) -> nat
    decreases d,
{
    match d {
        Data::Unit => 0,
        Data::Newtype(t) => named_field_total(*t),
        Data::Tuple(ts) => named_field_total_types(ts@),
        Data::Struct(fs) => fs@.len() + named_field_total_fields(fs@),
    }
}

/// The sum of [`named_field_total`] over `ts`.
pub open spec fn named_field_total_types(ts: Seq<DataModelType>) -> nat
    decreases ts,
{
    if ts.len() == 0 {
        0
    } else {
        named_field_total_types(ts.drop_last()) + named_field_total(ts.last())
    }
}

/// The sum of [`named_field_total`] over the types of `fs`.
pub open spec fn named_field_total_fields(fs: Seq<NamedField>) -> nat
    decreases fs,
{
    if fs.len() == 0 {
        0
    } else {
        named_field_total_fields(fs.drop_last()) + named_field_total(fs.last().ty)
    }
}

/// The sum of [`named_field_total_data`] over the contents of `vs`.
pub open spec fn named_field_total_variants(vs: Seq<Variant>) -> nat
    decreases vs,
{
    if vs.len() == 0 {
        0
    } else {
        named_field_total_variants(vs.drop_last()) + named_field_total_data(vs.last().data)
    }
}

/// A prefix sum of [`named_field_total_types`] is no more than the whole, and grows by one element.
proof fn lemma_named_field_total_types_prefix(ts: Seq<DataModelType>, i: int)
    requires
        0 <= i < ts.len(),
    ensures
        named_field_total_types(ts.take(i + 1)) == named_field_total_types(ts.take(i)) + named_field_total(ts[i]),
        named_field_total_types(ts.take(i + 1)) <= named_field_total_types(ts),
    decreases ts.len(),
{
    assert(ts.take(i + 1).drop_last() =~= ts.take(i));
    if i + 1 < ts.len() {
        assert(ts.drop_last().take(i + 1) =~= ts.take(i + 1));
        assert(ts.drop_last().take(i) =~= ts.take(i));
        lemma_named_field_total_types_prefix(ts.drop_last(), i);
    } else {
        assert(ts.take(i + 1) =~= ts);
    }
}

/// [`lemma_named_field_total_types_prefix`] for fields.
proof fn lemma_named_field_total_fields_prefix(fs: Seq<NamedField>, i: int)
    requires
        0 <= i < fs.len(),
    ensures
        named_field_total_fields(fs.take(i + 1)) == named_field_total_fields(fs.take(i)) + named_field_total(fs[i].ty),
        named_field_total_fields(fs.take(i + 1)) <= named_field_total_fields(fs),
    decreases fs.len(),
{
    assert(fs.take(i + 1).drop_last() =~= fs.take(i));
    if i + 1 < fs.len() {
        assert(fs.drop_last().take(i + 1) =~= fs.take(i + 1));
        assert(fs.drop_last().take(i) =~= fs.take(i));
        lemma_named_field_total_fields_prefix(fs.drop_last(), i);
    } else {
        assert(fs.take(i + 1) =~= fs);
    }
}

/// [`lemma_named_field_total_types_prefix`] for variants.
proof fn lemma_named_field_total_variants_prefix(vs: Seq<Variant>, i: int)
    requires
        0 <= i < vs.len(),
    ensures
        named_field_total_variants(vs.take(i + 1)) == named_field_total_variants(vs.take(i)) + named_field_total_data(vs[i].data),
        named_field_total_variants(vs.take(i + 1)) <= named_field_total_variants(vs),
    decreases vs.len(),
{
    assert(vs.take(i + 1).drop_last() =~= vs.take(i));
    if i + 1 < vs.len() {
        assert(vs.drop_last().take(i + 1) =~= vs.take(i + 1));
        assert(vs.drop_last().take(i) =~= vs.take(i));
        lemma_named_field_total_variants_prefix(vs.drop_last(), i);
    } else {
        assert(vs.take(i + 1) =~= vs);
    }
}

/// The number of named fields in the schema `dmt`.
pub fn count_named_fields(dmt: &DataModelType) -> (r: usize)
    requires
        schema_free(*dmt),
        named_field_total(*dmt) <= usize::MAX,
    ensures
        r == named_field_total(*dmt),
    decreases *dmt,
{
    match dmt {
        DataModelType::Bool => 0,
        DataModelType::I8 => 0,
        DataModelType::U8 => 0,
        DataModelType::I16 => 0,
        DataModelType::I32 => 0,
        DataModelType::I64 => 0,
        DataModelType::I128 => 0,
        DataModelType::U16 => 0,
        DataModelType::U32 => 0,
        DataModelType::U64 => 0,
        DataModelType::U128 => 0,
        DataModelType::Usize => 0,
        DataModelType::Isize => 0,
        DataModelType::F32 => 0,
        DataModelType::F64 => 0,
        DataModelType::Char => 0,
        DataModelType::Unit => 0,
        DataModelType::String { .. } => 0,
        DataModelType::ByteArray { .. } => 0,
        DataModelType::Option(t) => count_named_fields(&**t),
        DataModelType::SeqOf { element, .. } => count_named_fields(&**element),
        DataModelType::Tuple(data_model_types) => {
            let ghost ts = data_model_types@;
            let mut count: usize = 0;
            let mut idx: usize = 0;
            while idx < data_model_types.len()
                invariant
                    ts == data_model_types@,
                    idx <= ts.len(),
                    count == named_field_total_types(ts.take(idx as int)),
                    named_field_total_types(ts) <= usize::MAX,
                    forall|i: int| 0 <= i < ts.len() ==> #[trigger] schema_free(ts[i]),
                    forall|i: int| 0 <= i < ts.len() ==> #[trigger] decreases_to!(*dmt => ts[i]),
                decreases ts.len() - idx,
            {
                proof {
                    lemma_named_field_total_types_prefix(ts, idx as int);
                    assert(schema_free(ts[idx as int]));
                    assert(decreases_to!(*dmt => ts[idx as int]));
                }
                count += count_named_fields(&data_model_types[idx]);
                idx += 1;
            }
            assert(ts.take(idx as int) =~= ts);
            count
        },
        DataModelType::Array { item, .. } => count_named_fields(&**item),
        DataModelType::MapOf { key, val, .. } => count_named_fields(&**key) + count_named_fields(&**val),
        DataModelType::Struct { name: _, data } => count_named_fields_data(data),
        DataModelType::Enum { name: _, variants } => {
            let ghost vs = variants@;
            let mut count: usize = 0;
            let mut idx: usize = 0;
            while idx < variants.len()
                invariant
                    vs == variants@,
                    idx <= vs.len(),
                    count == named_field_total_variants(vs.take(idx as int)),
                    named_field_total_variants(vs) <= usize::MAX,
                    forall|i: int| 0 <= i < vs.len() ==> #[trigger] schema_free_data(vs[i].data),
                    forall|i: int| 0 <= i < vs.len() ==> #[trigger] decreases_to!(*dmt => vs[i].data),
                decreases vs.len() - idx,
            {
                proof {
                    lemma_named_field_total_variants_prefix(vs, idx as int);
                    assert(schema_free_data(vs[idx as int].data));
                    assert(decreases_to!(*dmt => vs[idx as int].data));
                }
                count += count_named_fields_data(&variants[idx].data);
                idx += 1;
            }
            assert(vs.take(idx as int) =~= vs);
            count
        },
        DataModelType::Schema => 0,
    }
}

/// The number of named fields in the contents of a struct or variant.
pub fn count_named_fields_data(data: &Data) -> (r: usize)
    requires
        schema_free_data(*data),
        named_field_total_data(*data) <= usize::MAX,
    ensures
        r == named_field_total_data(*data),
    decreases *data,
{
    match data {
        Data::Unit => 0,
        Data::Newtype(data_model_type) => count_named_fields(&**data_model_type),
        Data::Tuple(data_model_types) => {
            let ghost ts = data_model_types@;
            let mut count: usize = 0;
            let mut idx: usize = 0;
            while idx < data_model_types.len()
                invariant
                    ts == data_model_types@,
                    idx <= ts.len(),
                    count == named_field_total_types(ts.take(idx as int)),
                    named_field_total_types(ts) <= usize::MAX,
                    forall|i: int| 0 <= i < ts.len() ==> #[trigger] schema_free(ts[i]),
                    forall|i: int| 0 <= i < ts.len() ==> #[trigger] decreases_to!(*data => ts[i]),
                decreases ts.len() - idx,
            {
                proof {
                    lemma_named_field_total_types_prefix(ts, idx as int);
                    assert(schema_free(ts[idx as int]));
                    assert(decreases_to!(*data => ts[idx as int]));
                }
                count += count_named_fields(&data_model_types[idx]);
                idx += 1;
            }
            assert(ts.take(idx as int) =~= ts);
            count
        },
        Data::Struct(named_fields) => {
            let ghost fs = named_fields@;
            let mut count: usize = named_fields.len();
            let mut idx: usize = 0;
            while idx < named_fields.len()
                invariant
                    fs == named_fields@,
                    idx <= fs.len(),
                    count == named_fields@.len() + named_field_total_fields(fs.take(idx as int)),
                    named_fields@.len() + named_field_total_fields(fs) <= usize::MAX,
                    forall|i: int| 0 <= i < fs.len() ==> #[trigger] schema_free(fs[i].ty),
                    forall|i: int| 0 <= i < fs.len() ==> #[trigger] decreases_to!(*data => fs[i].ty),
                decreases fs.len() - idx,
            {
                proof {
                    lemma_named_field_total_fields_prefix(fs, idx as int);
                    assert(schema_free(fs[idx as int].ty));
                    assert(decreases_to!(*data => fs[idx as int].ty));
                }
                count += count_named_fields(&named_fields[idx].ty);
                idx += 1;
            }
            assert(fs.take(idx as int) =~= fs);
            count
        },
    }
}

/// The number of enum variants in the schema `d`.
pub open spec fn variant_total(d: DataModelType) -> nat
    decreases d,
{
    match d {
        DataModelType::Option(t) => variant_total(*t),
        DataModelType::SeqOf { element, .. } => variant_total(*element),
        DataModelType::Tuple(ts) => variant_total_types(ts@),
        DataModelType::Array { item, .. } => variant_total(*item),
        DataModelType::MapOf { key, val, .. } => variant_total(*key) + variant_total(*val),
        DataModelType::Struct { data, .. } => variant_total_data(data),
        DataModelType::Enum { variants, .. } => variants@.len() + variant_total_variants(variants@),
        DataModelType::Schema => 0,
        _ => 0,
    }
}

/// [`variant_total`] for the contents of a struct or variant.
pub open spec fn variant_total_data(d: Data) -> nat
    decreases d,
{
    match d {
        Data::Unit => 0,
        Data::Newtype(t) => variant_total(*t),
        Data::Tuple(ts) => variant_total_types(ts@),
        Data::Struct(fs) => variant_total_fields(fs@),
    }
}

/// The sum of [`variant_total`] over `ts`.
pub open spec fn variant_total_types(ts: Seq<DataModelType>) -> nat
    decreases ts,
{
    if ts.len() == 0 {
        0
    } else {
        variant_total_types(ts.drop_last()) + variant_total(ts.last())
    }
}

/// The sum of [`variant_total`] over the types of `fs`.
pub open spec fn variant_total_fields(fs: Seq<NamedField>) -> nat
    decreases fs,
{
    if fs.len() == 0 {
        0
    } else {
        variant_total_fields(fs.drop_last()) + variant_total(fs.last().ty)
    }
}

/// The sum of [`variant_total_data`] over the contents of `vs`.
pub open spec fn variant_total_variants(vs: Seq<Variant>) -> nat
    decreases vs,
{
    if vs.len() == 0 {
        0
    } else {
        variant_total_variants(vs.drop_last()) + variant_total_data(vs.last().data)
    }
}

/// A prefix sum of [`variant_total_types`] is no more than the whole, and grows by one element.
proof fn lemma_variant_total_types_prefix(ts: Seq<DataModelType>, i: int)
    requires
        0 <= i < ts.len(),
    ensures
        variant_total_types(ts.take(i + 1)) == variant_total_types(ts.take(i)) + variant_total(ts[i]),
        variant_total_types(ts.take(i + 1)) <= variant_total_types(ts),
    decreases ts.len(),
{
    assert(ts.take(i + 1).drop_last() =~= ts.take(i));
    if i + 1 < ts.len() {
        assert(ts.drop_last().take(i + 1) =~= ts.take(i + 1));
        assert(ts.drop_last().take(i) =~= ts.take(i));
        lemma_variant_total_types_prefix(ts.drop_last(), i);
    } else {
        assert(ts.take(i + 1) =~= ts);
    }
}

/// [`lemma_variant_total_types_prefix`] for fields.
proof fn lemma_variant_total_fields_prefix(fs: Seq<NamedField>, i: int)
    requires
        0 <= i < fs.len(),
    ensures
        variant_total_fields(fs.take(i + 1)) == variant_total_fields(fs.take(i)) + variant_total(fs[i].ty),
        variant_total_fields(fs.take(i + 1)) <= variant_total_fields(fs),
    decreases fs.len(),
{
    assert(fs.take(i + 1).drop_last() =~= fs.take(i));
    if i + 1 < fs.len() {
        assert(fs.drop_last().take(i + 1) =~= fs.take(i + 1));
        assert(fs.drop_last().take(i) =~= fs.take(i));
        lemma_variant_total_fields_prefix(fs.drop_last(), i);
    } else {
        assert(fs.take(i + 1) =~= fs);
    }
}

/// [`lemma_variant_total_types_prefix`] for variants.
proof fn lemma_variant_total_variants_prefix(vs: Seq<Variant>, i: int)
    requires
        0 <= i < vs.len(),
    ensures
        variant_total_variants(vs.take(i + 1)) == variant_total_variants(vs.take(i)) + variant_total_data(vs[i].data),
        variant_total_variants(vs.take(i + 1)) <= variant_total_variants(vs),
    decreases vs.len(),
{
    assert(vs.take(i + 1).drop_last() =~= vs.take(i));
    if i + 1 < vs.len() {
        assert(vs.drop_last().take(i + 1) =~= vs.take(i + 1));
        assert(vs.drop_last().take(i) =~= vs.take(i));
        lemma_variant_total_variants_prefix(vs.drop_last(), i);
    } else {
        assert(vs.take(i + 1) =~= vs);
    }
}

/// The number of enum variants in the schema `dmt`.
pub fn count_variants(dmt: &DataModelType) -> (r: usize)
    requires
        schema_free(*dmt),
        variant_total(*dmt) <= usize::MAX,
    ensures
        r == variant_total(*dmt),
    decreases *dmt,
{
    match dmt {
        DataModelType::Bool => 0,
        DataModelType::I8 => 0,
        DataModelType::U8 => 0,
        DataModelType::I16 => 0,
        DataModelType::I32 => 0,
        DataModelType::I64 => 0,
        DataModelType::I128 => 0,
        DataModelType::U16 => 0,
        DataModelType::U32 => 0,
        DataModelType::U64 => 0,
        DataModelType::U128 => 0,
        DataModelType::Usize => 0,
        DataModelType::Isize => 0,
        DataModelType::F32 => 0,
        DataModelType::F64 => 0,
        DataModelType::Char => 0,
        DataModelType::Unit => 0,
        DataModelType::String { .. } => 0,
        DataModelType::ByteArray { .. } => 0,
        DataModelType::Option(t) => count_variants(&**t),
        DataModelType::SeqOf { element, .. } => count_variants(&**element),
        DataModelType::Tuple(data_model_types) => {
            let ghost ts = data_model_types@;
            let mut count: usize = 0;
            let mut idx: usize = 0;
            while idx < data_model_types.len()
                invariant
                    ts == data_model_types@,
                    idx <= ts.len(),
                    count == variant_total_types(ts.take(idx as int)),
                    variant_total_types(ts) <= usize::MAX,
                    forall|i: int| 0 <= i < ts.len() ==> #[trigger] schema_free(ts[i]),
                    forall|i: int| 0 <= i < ts.len() ==> #[trigger] decreases_to!(*dmt => ts[i]),
                decreases ts.len() - idx,
            {
                proof {
                    lemma_variant_total_types_prefix(ts, idx as int);
                    assert(schema_free(ts[idx as int]));
                    assert(decreases_to!(*dmt => ts[idx as int]));
                }
                count += count_variants(&data_model_types[idx]);
                idx += 1;
            }
            assert(ts.take(idx as int) =~= ts);
            count
        },
        DataModelType::Array { item, .. } => count_variants(&**item),
        DataModelType::MapOf { key, val, .. } => count_variants(&**key) + count_variants(&**val),
        DataModelType::Struct { name: _, data } => count_variants_data(data),
        DataModelType::Enum { name: _, variants } => {
            let ghost vs = variants@;
            let mut count: usize = variants.len();
            let mut idx: usize = 0;
            while idx < variants.len()
                invariant
                    vs == variants@,
                    idx <= vs.len(),
                    count == variants@.len() + variant_total_variants(vs.take(idx as int)),
                    variants@.len() + variant_total_variants(vs) <= usize::MAX,
                    forall|i: int| 0 <= i < vs.len() ==> #[trigger] schema_free_data(vs[i].data),
                    forall|i: int| 0 <= i < vs.len() ==> #[trigger] decreases_to!(*dmt => vs[i].data),
                decreases vs.len() - idx,
            {
                proof {
                    lemma_variant_total_variants_prefix(vs, idx as int);
                    assert(schema_free_data(vs[idx as int].data));
                    assert(decreases_to!(*dmt => vs[idx as int].data));
                }
                count += count_variants_data(&variants[idx].data);
                idx += 1;
            }
            assert(vs.take(idx as int) =~= vs);
            count
        },
        DataModelType::Schema => 0,
    }
}

/// The number of enum variants in the contents of a struct or variant.
pub fn count_variants_data(data: &Data) -> (r: usize)
    requires
        schema_free_data(*data),
        variant_total_data(*data) <= usize::MAX,
    ensures
        r == variant_total_data(*data),
    decreases *data,
{
    match data {
        Data::Unit => 0,
        Data::Newtype(data_model_type) => count_variants(&**data_model_type),
        Data::Tuple(data_model_types) => {
            let ghost ts = data_model_types@;
            let mut count: usize = 0;
            let mut idx: usize = 0;
            while idx < data_model_types.len()
                invariant
                    ts == data_model_types@,
                    idx <= ts.len(),
                    count == variant_total_types(ts.take(idx as int)),
                    variant_total_types(ts) <= usize::MAX,
                    forall|i: int| 0 <= i < ts.len() ==> #[trigger] schema_free(ts[i]),
                    forall|i: int| 0 <= i < ts.len() ==> #[trigger] decreases_to!(*data => ts[i]),
                decreases ts.len() - idx,
            {
                proof {
                    lemma_variant_total_types_prefix(ts, idx as int);
                    assert(schema_free(ts[idx as int]));
                    assert(decreases_to!(*data => ts[idx as int]));
                }
                count += count_variants(&data_model_types[idx]);
                idx += 1;
            }
            assert(ts.take(idx as int) =~= ts);
            count
        },
        Data::Struct(named_fields) => {
            let ghost fs = named_fields@;
            let mut count: usize = 0;
            let mut idx: usize = 0;
            while idx < named_fields.len()
                invariant
                    fs == named_fields@,
                    idx <= fs.len(),
                    count == variant_total_fields(fs.take(idx as int)),
                    variant_total_fields(fs) <= usize::MAX,
                    forall|i: int| 0 <= i < fs.len() ==> #[trigger] schema_free(fs[i].ty),
                    forall|i: int| 0 <= i < fs.len() ==> #[trigger] decreases_to!(*data => fs[i].ty),
                decreases fs.len() - idx,
            {
                proof {
                    lemma_variant_total_fields_prefix(fs, idx as int);
                    assert(schema_free(fs[idx as int].ty));
                    assert(decreases_to!(*data => fs[idx as int].ty));
                }
                count += count_variants(&named_fields[idx].ty);
                idx += 1;
            }
            assert(fs.take(idx as int) =~= fs);
            count
        },
    }
}

/// The number of type entries, counting each type and each struct or variant contents in the schema `d`.
pub open spec fn dmt_total(d: DataModelType) -> nat
    decreases d,
{
    match d {
        DataModelType::Option(t) => 1 + dmt_total(*t),
        DataModelType::SeqOf { element, .. } => 1 + dmt_total(*element),
        DataModelType::Tuple(ts) => 1 + ts@.len() + dmt_total_types(ts@),
        DataModelType::Array { item, .. } => 1 + dmt_total(*item),
        DataModelType::MapOf { key, val, .. } => 1 + dmt_total(*key) + dmt_total(*val),
        DataModelType::Struct { data, .. } => 1 + dmt_total_data(data),
        DataModelType::Enum { variants, .. } => 1 + dmt_total_variants(variants@),
        DataModelType::Schema => 0,
        _ => 1,
    }
}

/// [`dmt_total`] for the contents of a struct or variant.
pub open spec fn dmt_total_data(d: Data) -> nat
    decreases d,
{
    match d {
        Data::Unit => 1,
        Data::Newtype(t) => 1 + dmt_total(*t),
        Data::Tuple(ts) => 1 + ts@.len() + dmt_total_types(ts@),
        Data::Struct(fs) => 1 + dmt_total_fields(fs@),
    }
}

/// The sum of [`dmt_total`] over `ts`.
pub open spec fn dmt_total_types(ts: Seq<DataModelType>) -> nat
    decreases ts,
{
    if ts.len() == 0 {
        0
    } else {
        dmt_total_types(ts.drop_last()) + dmt_total(ts.last())
    }
}

/// The sum of [`dmt_total`] over the types of `fs`.
pub open spec fn dmt_total_fields(fs: Seq<NamedField>) -> nat
    decreases fs,
{
    if fs.len() == 0 {
        0
    } else {
        dmt_total_fields(fs.drop_last()) + dmt_total(fs.last().ty)
    }
}

/// The sum of [`dmt_total_data`] over the contents of `vs`.
pub open spec fn dmt_total_variants(vs: Seq<Variant>) -> nat
    decreases vs,
{
    if vs.len() == 0 {
        0
    } else {
        dmt_total_variants(vs.drop_last()) + dmt_total_data(vs.last().data)
    }
}

/// A prefix sum of [`dmt_total_types`] is no more than the whole, and grows by one element.
proof fn lemma_dmt_total_types_prefix(ts: Seq<DataModelType>, i: int)
    requires
        0 <= i < ts.len(),
    ensures
        dmt_total_types(ts.take(i + 1)) == dmt_total_types(ts.take(i)) + dmt_total(ts[i]),
        dmt_total_types(ts.take(i + 1)) <= dmt_total_types(ts),
    decreases ts.len(),
{
    assert(ts.take(i + 1).drop_last() =~= ts.take(i));
    if i + 1 < ts.len() {
        assert(ts.drop_last().take(i + 1) =~= ts.take(i + 1));
        assert(ts.drop_last().take(i) =~= ts.take(i));
        lemma_dmt_total_types_prefix(ts.drop_last(), i);
    } else {
        assert(ts.take(i + 1) =~= ts);
    }
}

/// [`lemma_dmt_total_types_prefix`] for fields.
proof fn lemma_dmt_total_fields_prefix(fs: Seq<NamedField>, i: int)
    requires
        0 <= i < fs.len(),
    ensures
        dmt_total_fields(fs.take(i + 1)) == dmt_total_fields(fs.take(i)) + dmt_total(fs[i].ty),
        dmt_total_fields(fs.take(i + 1)) <= dmt_total_fields(fs),
    decreases fs.len(),
{
    assert(fs.take(i + 1).drop_last() =~= fs.take(i));
    if i + 1 < fs.len() {
        assert(fs.drop_last().take(i + 1) =~= fs.take(i + 1));
        assert(fs.drop_last().take(i) =~= fs.take(i));
        lemma_dmt_total_fields_prefix(fs.drop_last(), i);
    } else {
        assert(fs.take(i + 1) =~= fs);
    }
}

/// [`lemma_dmt_total_types_prefix`] for variants.
proof fn lemma_dmt_total_variants_prefix(vs: Seq<Variant>, i: int)
    requires
        0 <= i < vs.len(),
    ensures
        dmt_total_variants(vs.take(i + 1)) == dmt_total_variants(vs.take(i)) + dmt_total_data(vs[i].data),
        dmt_total_variants(vs.take(i + 1)) <= dmt_total_variants(vs),
    decreases vs.len(),
{
    assert(vs.take(i + 1).drop_last() =~= vs.take(i));
    if i + 1 < vs.len() {
        assert(vs.drop_last().take(i + 1) =~= vs.take(i + 1));
        assert(vs.drop_last().take(i) =~= vs.take(i));
        lemma_dmt_total_variants_prefix(vs.drop_last(), i);
    } else {
        assert(vs.take(i + 1) =~= vs);
    }
}

/// The number of type entries, counting each type and each struct or variant contents in the schema `dmt`.
pub fn count_dmt(dmt: &DataModelType) -> (r: usize)
    requires
        schema_free(*dmt),
        dmt_total(*dmt) <= usize::MAX,
    ensures
        r == dmt_total(*dmt),
    decreases *dmt,
{
    match dmt {
        DataModelType::Bool => 1,
        DataModelType::I8 => 1,
        DataModelType::U8 => 1,
        DataModelType::I16 => 1,
        DataModelType::I32 => 1,
        DataModelType::I64 => 1,
        DataModelType::I128 => 1,
        DataModelType::U16 => 1,
        DataModelType::U32 => 1,
        DataModelType::U64 => 1,
        DataModelType::U128 => 1,
        DataModelType::Usize => 1,
        DataModelType::Isize => 1,
        DataModelType::F32 => 1,
        DataModelType::F64 => 1,
        DataModelType::Char => 1,
        DataModelType::Unit => 1,
        DataModelType::String { .. } => 1,
        DataModelType::ByteArray { .. } => 1,
        DataModelType::Option(t) => 1 + count_dmt(&**t),
        DataModelType::SeqOf { element, .. } => 1 + count_dmt(&**element),
        DataModelType::Tuple(data_model_types) => {
            let ghost ts = data_model_types@;
            let mut count: usize = 1 + data_model_types.len();
            let mut idx: usize = 0;
            while idx < data_model_types.len()
                invariant
                    ts == data_model_types@,
                    idx <= ts.len(),
                    count == 1 + data_model_types@.len() + dmt_total_types(ts.take(idx as int)),
                    1 + data_model_types@.len() + dmt_total_types(ts) <= usize::MAX,
                    forall|i: int| 0 <= i < ts.len() ==> #[trigger] schema_free(ts[i]),
                    forall|i: int| 0 <= i < ts.len() ==> #[trigger] decreases_to!(*dmt => ts[i]),
                decreases ts.len() - idx,
            {
                proof {
                    lemma_dmt_total_types_prefix(ts, idx as int);
                    assert(schema_free(ts[idx as int]));
                    assert(decreases_to!(*dmt => ts[idx as int]));
                }
                count += count_dmt(&data_model_types[idx]);
                idx += 1;
            }
            assert(ts.take(idx as int) =~= ts);
            count
        },
        DataModelType::Array { item, .. } => 1 + count_dmt(&**item),
        DataModelType::MapOf { key, val, .. } => 1 + count_dmt(&**key) + count_dmt(&**val),
        DataModelType::Struct { name: _, data } => 1 + count_dmt_data(data),
        DataModelType::Enum { name: _, variants } => {
            let ghost vs = variants@;
            let mut count: usize = 1;
            let mut idx: usize = 0;
            while idx < variants.len()
                invariant
                    vs == variants@,
                    idx <= vs.len(),
                    count == 1 + dmt_total_variants(vs.take(idx as int)),
                    1 + dmt_total_variants(vs) <= usize::MAX,
                    forall|i: int| 0 <= i < vs.len() ==> #[trigger] schema_free_data(vs[i].data),
                    forall|i: int| 0 <= i < vs.len() ==> #[trigger] decreases_to!(*dmt => vs[i].data),
                decreases vs.len() - idx,
            {
                proof {
                    lemma_dmt_total_variants_prefix(vs, idx as int);
                    assert(schema_free_data(vs[idx as int].data));
                    assert(decreases_to!(*dmt => vs[idx as int].data));
                }
                count += count_dmt_data(&variants[idx].data);
                idx += 1;
            }
            assert(vs.take(idx as int) =~= vs);
            count
        },
        DataModelType::Schema => 0,
    }
}

/// The number of type entries, counting each type and each struct or variant contents in the contents of a struct or variant.
pub fn count_dmt_data(data: &Data) -> (r: usize)
    requires
        schema_free_data(*data),
        dmt_total_data(*data) <= usize::MAX,
    ensures
        r == dmt_total_data(*data),
    decreases *data,
{
    match data {
        Data::Unit => 1,
        Data::Newtype(data_model_type) => 1 + count_dmt(&**data_model_type),
        Data::Tuple(data_model_types) => {
            let ghost ts = data_model_types@;
            let mut count: usize = 1 + data_model_types.len();
            let mut idx: usize = 0;
            while idx < data_model_types.len()
                invariant
                    ts == data_model_types@,
                    idx <= ts.len(),
                    count == 1 + data_model_types@.len() + dmt_total_types(ts.take(idx as int)),
                    1 + data_model_types@.len() + dmt_total_types(ts) <= usize::MAX,
                    forall|i: int| 0 <= i < ts.len() ==> #[trigger] schema_free(ts[i]),
                    forall|i: int| 0 <= i < ts.len() ==> #[trigger] decreases_to!(*data => ts[i]),
                decreases ts.len() - idx,
            {
                proof {
                    lemma_dmt_total_types_prefix(ts, idx as int);
                    assert(schema_free(ts[idx as int]));
                    assert(decreases_to!(*data => ts[idx as int]));
                }
                count += count_dmt(&data_model_types[idx]);
                idx += 1;
            }
            assert(ts.take(idx as int) =~= ts);
            count
        },
        Data::Struct(named_fields) => {
            let ghost fs = named_fields@;
            let mut count: usize = 1;
            let mut idx: usize = 0;
            while idx < named_fields.len()
                invariant
                    fs == named_fields@,
                    idx <= fs.len(),
                    count == 1 + dmt_total_fields(fs.take(idx as int)),
                    1 + dmt_total_fields(fs) <= usize::MAX,
                    forall|i: int| 0 <= i < fs.len() ==> #[trigger] schema_free(fs[i].ty),
                    forall|i: int| 0 <= i < fs.len() ==> #[trigger] decreases_to!(*data => fs[i].ty),
                decreases fs.len() - idx,
            {
                proof {
                    lemma_dmt_total_fields_prefix(fs, idx as int);
                    assert(schema_free(fs[idx as int].ty));
                    assert(decreases_to!(*data => fs[idx as int].ty));
                }
                count += count_dmt(&named_fields[idx].ty);
                idx += 1;
            }
            assert(fs.take(idx as int) =~= fs);
            count
        },
    }
}

/// The `len` bytes of `s` starting at byte `offset`, as a string: they must lie within `s`
/// and be UTF-8 text on their own.
pub fn str_subslice(s: &str, offset: usize, len: usize) -> (r: &str)
    requires
        offset + len <= s.spec_bytes().len(),
        vstd::utf8::valid_utf8(s.spec_bytes().subrange(offset as int, offset + len)),
    ensures
        r.spec_bytes() == s.spec_bytes().subrange(offset as int, offset + len),
{
    let s = s.as_bytes();
    let (_before, now) = s.split_at(offset);
    let (now, _after) = now.split_at(len);
    assert(now@ =~= s@.subrange(offset as int, offset + len));
    match utf8_str(now) {
        Some(s) => s,
        None => {
            proof {
                assert(false);
            }
            ""
        },
    }
}

} // verus!
