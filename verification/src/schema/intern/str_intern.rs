//! Collecting, ordering and merging the names of a schema into one string.
use super::{schema_free, schema_free_data};
use crate::schema::{Data, DataModelType, NamedField, Variant};
use vstd::prelude::*;
use vstd::array::ArrayAdditionalExecFns;
use vstd::string::StringSliceAdditionalSpecFns;

verus! {

/// The number of names (of structs, enums, fields and variants) in the schema `d`.
pub open spec fn string_total(d: DataModelType) -> nat
    decreases d,
{
    match d {
        DataModelType::Option(t) => string_total(*t),
        DataModelType::SeqOf { element, .. } => string_total(*element),
        DataModelType::Tuple(ts) => string_total_types(ts@),
        DataModelType::Array { item, .. } => string_total(*item),
        DataModelType::MapOf { key, val, .. } => string_total(*key) + string_total(*val),
        DataModelType::Struct { data, .. } => 1 + string_total_data(data),
        DataModelType::Enum { variants, .. } => 1 + string_total_variants(variants@),
        DataModelType::Schema => 0,
        _ => 0,
    }
}

/// [`string_total`] for the contents of a struct or variant.
pub open spec fn string_total_data(d: Data) -> nat
    decreases d,
{
    match d {
        Data::Unit => 0,
        Data::Newtype(t) => string_total(*t),
        Data::Tuple(ts) => string_total_types(ts@),
        Data::Struct(fs) => string_total_fields(fs@),
    }
}

/// The sum of [`string_total`] over `ts`.
pub open spec fn string_total_types(ts: Seq<DataModelType>) -> nat
    decreases ts,
{
    if ts.len() == 0 {
        0
    } else {
        string_total_types(ts.drop_last()) + string_total(ts.last())
    }
}

/// The sum of [`string_total`] over the types of `fs`, and one for each name.
pub open spec fn string_total_fields(fs: Seq<NamedField>) -> nat
    decreases fs,
{
    if fs.len() == 0 {
        0
    } else {
        string_total_fields(fs.drop_last()) + 1 + string_total(fs.last().ty)
    }
}

/// The sum of [`string_total_data`] over the contents of `vs`, and one for each name.
pub open spec fn string_total_variants(vs: Seq<Variant>) -> nat
    decreases vs,
{
    if vs.len() == 0 {
        0
    } else {
        string_total_variants(vs.drop_last()) + 1 + string_total_data(vs.last().data)
    }
}

/// A prefix sum of [`string_total_types`] is no more than the whole, and grows by one element.
proof fn lemma_string_total_types_prefix(ts: Seq<DataModelType>, i: int)
    requires
        0 <= i < ts.len(),
    ensures
        string_total_types(ts.take(i + 1)) == string_total_types(ts.take(i)) + string_total(ts[i]),
        string_total_types(ts.take(i + 1)) <= string_total_types(ts),
    decreases ts.len(),
{
    assert(ts.take(i + 1).drop_last() =~= ts.take(i));
    if i + 1 < ts.len() {
        assert(ts.drop_last().take(i + 1) =~= ts.take(i + 1));
        assert(ts.drop_last().take(i) =~= ts.take(i));
        lemma_string_total_types_prefix(ts.drop_last(), i);
    } else {
        assert(ts.take(i + 1) =~= ts);
    }
}

/// [`lemma_string_total_types_prefix`] for fields.
proof fn lemma_string_total_fields_prefix(fs: Seq<NamedField>, i: int)
    requires
        0 <= i < fs.len(),
    ensures
        string_total_fields(fs.take(i + 1)) == string_total_fields(fs.take(i)) + 1 + string_total(fs[i].ty),
        string_total_fields(fs.take(i + 1)) <= string_total_fields(fs),
    decreases fs.len(),
{
    assert(fs.take(i + 1).drop_last() =~= fs.take(i));
    if i + 1 < fs.len() {
        assert(fs.drop_last().take(i + 1) =~= fs.take(i + 1));
        assert(fs.drop_last().take(i) =~= fs.take(i));
        lemma_string_total_fields_prefix(fs.drop_last(), i);
    } else {
        assert(fs.take(i + 1) =~= fs);
    }
}

/// [`lemma_string_total_types_prefix`] for variants.
proof fn lemma_string_total_variants_prefix(vs: Seq<Variant>, i: int)
    requires
        0 <= i < vs.len(),
    ensures
        string_total_variants(vs.take(i + 1)) == string_total_variants(vs.take(i)) + 1 + string_total_data(vs[i].data),
        string_total_variants(vs.take(i + 1)) <= string_total_variants(vs),
    decreases vs.len(),
{
    assert(vs.take(i + 1).drop_last() =~= vs.take(i));
    if i + 1 < vs.len() {
        assert(vs.drop_last().take(i + 1) =~= vs.take(i + 1));
        assert(vs.drop_last().take(i) =~= vs.take(i));
        lemma_string_total_variants_prefix(vs.drop_last(), i);
    } else {
        assert(vs.take(i + 1) =~= vs);
    }
}

/// The number of names (of structs, enums, fields and variants) in the schema `dmt`.
pub fn count_strings(dmt: &DataModelType) -> (r: usize)
    requires
        schema_free(*dmt),
        string_total(*dmt) <= usize::MAX,
    ensures
        r == string_total(*dmt),
    decreases *dmt,
{
    match dmt {
        DataModelType::Bool => 0,
        DataModelType::I8 => 0,
        DataModelType::U8 => 0,
        DataModelType::I16 => 0,
        DataModelType::I32 => 0,
        DataModelType::I64 => 0,
        DataModelType::I128 => 0,
        DataModelType::U16 => 0,
        DataModelType::U32 => 0,
        DataModelType::U64 => 0,
        DataModelType::U128 => 0,
        DataModelType::Usize => 0,
        DataModelType::Isize => 0,
        DataModelType::F32 => 0,
        DataModelType::F64 => 0,
        DataModelType::Char => 0,
        DataModelType::Unit => 0,
        DataModelType::String { .. } => 0,
        DataModelType::ByteArray { .. } => 0,
        DataModelType::Option(t) => count_strings(&**t),
        DataModelType::SeqOf { element, .. } => count_strings(&**element),
        DataModelType::Tuple(data_model_types) => {
            let ghost ts = data_model_types@;
            let mut count: usize = 0;
            let mut idx: usize = 0;
            while idx < data_model_types.len()
                invariant
                    ts == data_model_types@,
                    idx <= ts.len(),
                    count == string_total_types(ts.take(idx as int)),
                    string_total_types(ts) <= usize::MAX,
                    forall|i: int| 0 <= i < ts.len() ==> #[trigger] schema_free(ts[i]),
                    forall|i: int| 0 <= i < ts.len() ==> #[trigger] decreases_to!(*dmt => ts[i]),
                decreases ts.len() - idx,
            {
                proof {
                    lemma_string_total_types_prefix(ts, idx as int);
                    assert(schema_free(ts[idx as int]));
                    assert(decreases_to!(*dmt => ts[idx as int]));
                }
                count += count_strings(&data_model_types[idx]);
                idx += 1;
            }
            assert(ts.take(idx as int) =~= ts);
            count
        },
        DataModelType::Array { item, .. } => count_strings(&**item),
        DataModelType::MapOf { key, val, .. } => count_strings(&**key) + count_strings(&**val),
        DataModelType::Struct { name: _, data } => 1 + count_strings_data(data),
        DataModelType::Enum { name: _, variants } => {
            let ghost vs = variants@;
            let mut count: usize = 1;
            let mut idx: usize = 0;
            while idx < variants.len()
                invariant
                    vs == variants@,
                    idx <= vs.len(),
                    count == 1 + string_total_variants(vs.take(idx as int)),
                    1 + string_total_variants(vs) <= usize::MAX,
                    forall|i: int| 0 <= i < vs.len() ==> #[trigger] schema_free_data(vs[i].data),
                    forall|i: int| 0 <= i < vs.len() ==> #[trigger] decreases_to!(*dmt => vs[i].data),
                decreases vs.len() - idx,
            {
                proof {
                    lemma_string_total_variants_prefix(vs, idx as int);
                    assert(schema_free_data(vs[idx as int].data));
                    assert(decreases_to!(*dmt => vs[idx as int].data));
                }
                count += 1;
            count += count_strings_data(&variants[idx].data);
                idx += 1;
            }
            assert(vs.take(idx as int) =~= vs);
            count
        },
        DataModelType::Schema => 0,
    }
}

/// The number of names (of structs, enums, fields and variants) in the contents of a struct or variant.
pub fn count_strings_data(data: &Data) -> (r: usize)
    requires
        schema_free_data(*data),
        string_total_data(*data) <= usize::MAX,
    ensures
        r == string_total_data(*data),
    decreases *data,
{
    match data {
        Data::Unit => 0,
        Data::Newtype(data_model_type) => count_strings(&**data_model_type),
        Data::Tuple(data_model_types) => {
            let ghost ts = data_model_types@;
            let mut count: usize = 0;
            let mut idx: usize = 0;
            while idx < data_model_types.len()
                invariant
                    ts == data_model_types@,
                    idx <= ts.len(),
                    count == string_total_types(ts.take(idx as int)),
                    string_total_types(ts) <= usize::MAX,
                    forall|i: int| 0 <= i < ts.len() ==> #[trigger] schema_free(ts[i]),
                    forall|i: int| 0 <= i < ts.len() ==> #[trigger] decreases_to!(*data => ts[i]),
                decreases ts.len() - idx,
            {
                proof {
                    lemma_string_total_types_prefix(ts, idx as int);
                    assert(schema_free(ts[idx as int]));
                    assert(decreases_to!(*data => ts[idx as int]));
                }
                count += count_strings(&data_model_types[idx]);
                idx += 1;
            }
            assert(ts.take(idx as int) =~= ts);
            count
        },
        Data::Struct(named_fields) => {
            let ghost fs = named_fields@;
            let mut count: usize = 0;
            let mut idx: usize = 0;
            while idx < named_fields.len()
                invariant
                    fs == named_fields@,
                    idx <= fs.len(),
                    count == string_total_fields(fs.take(idx as int)),
                    string_total_fields(fs) <= usize::MAX,
                    forall|i: int| 0 <= i < fs.len() ==> #[trigger] schema_free(fs[i].ty),
                    forall|i: int| 0 <= i < fs.len() ==> #[trigger] decreases_to!(*data => fs[i].ty),
                decreases fs.len() - idx,
            {
                proof {
                    lemma_string_total_fields_prefix(fs, idx as int);
                    assert(schema_free(fs[idx as int].ty));
                    assert(decreases_to!(*data => fs[idx as int].ty));
                }
                count += 1;
            count += count_strings(&named_fields[idx].ty);
                idx += 1;
            }
            assert(fs.take(idx as int) =~= fs);
            count
        },
    }
}

// ---------------------------------------------------------------------------
// Collecting names
// ---------------------------------------------------------------------------

/// The names in the schema `d`, in order: a struct's or enum's name before its contents,
/// a field's or variant's name before its type.
pub open spec fn names_of(d: DataModelType) -> Seq<&'static str>
    decreases d,
{
    match d {
        DataModelType::Option(t) => names_of(*t),
        DataModelType::SeqOf { element, .. } => names_of(*element),
        DataModelType::Tuple(ts) => names_of_types(ts@),
        DataModelType::Array { item, .. } => names_of(*item),
        DataModelType::MapOf { key, val, .. } => names_of(*key) + names_of(*val),
        DataModelType::Struct { name, data } => seq![name] + names_of_data(data),
        DataModelType::Enum { name, variants } => seq![name] + names_of_variants(variants@),
        _ => Seq::empty(),
    }
}

/// The names in the contents of a struct or variant.
pub open spec fn names_of_data(d: Data) -> Seq<&'static str>
    decreases d,
{
    match d {
        Data::Unit => Seq::empty(),
        Data::Newtype(t) => names_of(*t),
        Data::Tuple(ts) => names_of_types(ts@),
        Data::Struct(fs) => names_of_fields(fs@),
    }
}

/// The names in each of `ts`, in order.
pub open spec fn names_of_types(ts: Seq<DataModelType>) -> Seq<&'static str>
    decreases ts,
{
    if ts.len() == 0 {
        Seq::empty()
    } else {
        names_of_types(ts.drop_last()) + names_of(ts.last())
    }
}

/// The name and the names in the type of each of `fs`, in order.
pub open spec fn names_of_fields(fs: Seq<NamedField>) -> Seq<&'static str>
    decreases fs,
{
    if fs.len() == 0 {
        Seq::empty()
    } else {
        names_of_fields(fs.drop_last()) + seq![fs.last().name] + names_of(fs.last().ty)
    }
}

/// The name and the names in the contents of each of `vs`, in order.
pub open spec fn names_of_variants(vs: Seq<Variant>) -> Seq<&'static str>
    decreases vs,
{
    if vs.len() == 0 {
        Seq::empty()
    } else {
        names_of_variants(vs.drop_last()) + seq![vs.last().name] + names_of_data(vs.last().data)
    }
}

/// Law: a schema has as many names as [`count_strings`] counts.
pub proof fn law_names_counted(d: DataModelType)
    ensures
        names_of(d).len() == string_total(d),
    decreases d,
{
    match d {
        DataModelType::Option(t) => law_names_counted(*t),
        DataModelType::SeqOf { element, .. } => law_names_counted(*element),
        DataModelType::Tuple(ts) => lemma_types_names_counted(ts@),
        DataModelType::Array { item, .. } => law_names_counted(*item),
        DataModelType::MapOf { key, val, .. } => {
            law_names_counted(*key);
            law_names_counted(*val);
        },
        DataModelType::Struct { data, .. } => lemma_data_names_counted(data),
        DataModelType::Enum { variants, .. } => lemma_variants_names_counted(variants@),
        _ => {},
    }
}

/// [`law_names_counted`] for the contents of a struct or variant.
proof fn lemma_data_names_counted(d: Data)
    ensures
        names_of_data(d).len() == string_total_data(d),
    decreases d,
{
    match d {
        Data::Unit => {},
        Data::Newtype(t) => law_names_counted(*t),
        Data::Tuple(ts) => lemma_types_names_counted(ts@),
        Data::Struct(fs) => lemma_fields_names_counted(fs@),
    }
}

/// [`law_names_counted`] for each of `ts`.
proof fn lemma_types_names_counted(ts: Seq<DataModelType>)
    ensures
        names_of_types(ts).len() == string_total_types(ts),
    decreases ts,
{
    if ts.len() > 0 {
        lemma_types_names_counted(ts.drop_last());
        law_names_counted(ts.last());
    }
}

/// [`law_names_counted`] for each of `fs`.
proof fn lemma_fields_names_counted(fs: Seq<NamedField>)
    ensures
        names_of_fields(fs).len() == string_total_fields(fs),
    decreases fs,
{
    if fs.len() > 0 {
        lemma_fields_names_counted(fs.drop_last());
        law_names_counted(fs.last().ty);
    }
}

/// [`law_names_counted`] for each of `vs`.
proof fn lemma_variants_names_counted(vs: Seq<Variant>)
    ensures
        names_of_variants(vs).len() == string_total_variants(vs),
    decreases vs,
{
    if vs.len() > 0 {
        lemma_variants_names_counted(vs.drop_last());
        lemma_data_names_counted(vs.last().data);
    }
}

/// `out` holds `names` in its first slots, and the empty string in the rest.
pub open spec fn holds_names<'a, const N: usize>(out: [&'a str; N], count: usize, names: Seq<&'a str>) -> bool {
    &&& count == names.len()
    &&& count <= N
    &&& out@.take(count as int) == names
    &&& forall|i: int| count <= i < N ==> #[trigger] out@[i] == ""
}

/// Law: what [`collect_all_strings`] collects is as many names as [`count_strings`]
/// counts, in the order they occur.
pub proof fn law_collected_as_counted<const N: usize>(d: DataModelType, out: [&'static str; N], count: usize)
    requires
        holds_names(out, count, names_of(d)),
    ensures
        count == string_total(d),
        out@.take(count as int) == names_of(d),
{
    law_names_counted(d);
}

/// Put `name` in the next free slot of `out`.
fn push_name<const N: usize>(out: &mut [&'static str; N], count: usize, name: &'static str) -> (r: usize)
    requires
        count < N,
        forall|i: int| count <= i < N ==> #[trigger] old(out)@[i] == "",
    ensures
        r == count + 1,
        final(out)@ == old(out)@.update(count as int, name),
        final(out)@.take(r as int) == old(out)@.take(count as int).push(name),
        forall|i: int| r <= i < N ==> #[trigger] final(out)@[i] == "",
{
    out[count] = name;
    assert(out@.take(count + 1) =~= old(out)@.take(count as int).push(name));
    count + 1
}

/// Put the first `subct` names of `sub` in the next free slots of `out`.
fn push_names<const N: usize>(
    out: &mut [&'static str; N],
    count: usize,
    sub: &[&'static str; N],
    subct: usize,
) -> (r: usize)
    requires
        count + subct <= N,
        subct <= N,
        forall|i: int| count <= i < N ==> #[trigger] old(out)@[i] == "",
    ensures
        r == count + subct,
        final(out)@.take(r as int) == old(out)@.take(count as int) + sub@.take(subct as int),
        forall|i: int| r <= i < N ==> #[trigger] final(out)@[i] == "",
{
    let ghost start = out@.take(count as int);
    let mut c = count;
    let mut icount: usize = 0;
    while icount < subct
        invariant
            icount <= subct,
            c == count + icount,
            count + subct <= N,
            subct <= N,
            out@.take(c as int) == start + sub@.take(icount as int),
            forall|i: int| c <= i < N ==> #[trigger] out@[i] == "",
        decreases subct - icount,
    {
        let ghost before = out@;
        out[c] = sub[icount];
        assert(out@.take(c + 1) =~= before.take(c as int).push(sub@[icount as int]));
        assert(sub@.take(icount + 1) =~= sub@.take(icount as int).push(sub@[icount as int]));
        c += 1;
        icount += 1;
    }
    c
}

/// The names in the contents of a struct or variant, in an array of `N` slots, and how many
/// there are.
pub fn collect_all_strings_data<const N: usize>(data: &Data) -> (r: ([&'static str; N], usize))
    requires
        schema_free_data(*data),
        string_total_data(*data) <= N,
    ensures
        holds_names(r.0, r.1, names_of_data(*data)),
    decreases *data,
{
    proof {
        lemma_data_names_counted(*data);
    }
    let mut out: [&'static str; N] = [""; N];
    match data {
        Data::Unit => {
            assert(out@.take(0) =~= Seq::<&'static str>::empty());
            (out, 0)
        },
        Data::Newtype(data_model_type) => collect_all_strings(&**data_model_type),
        Data::Tuple(data_model_types) => {
            let ghost ts = data_model_types@;
            let mut count: usize = 0;
            let mut idx: usize = 0;
            assert(out@.take(0) =~= Seq::<&'static str>::empty());
            while idx < data_model_types.len()
                invariant
                    ts == data_model_types@,
                    idx <= ts.len(),
                    string_total_types(ts) <= N,
                    holds_names(out, count, names_of_types(ts.take(idx as int))),
                    forall|i: int| 0 <= i < ts.len() ==> #[trigger] schema_free(ts[i]),
                    forall|i: int| 0 <= i < ts.len() ==> #[trigger] decreases_to!(*data => ts[i]),
                decreases ts.len() - idx,
            {
                proof {
                    lemma_string_total_types_prefix(ts, idx as int);
                    lemma_types_names_counted(ts.take(idx + 1));
                    assert(ts.take(idx + 1).drop_last() =~= ts.take(idx as int));
                    assert(schema_free(ts[idx as int]));
                    assert(decreases_to!(*data => ts[idx as int]));
                }
                let (sub, subct) = collect_all_strings::<N>(&data_model_types[idx]);
                count = push_names(&mut out, count, &sub, subct);
                idx += 1;
            }
            assert(ts.take(idx as int) =~= ts);
            (out, count)
        },
        Data::Struct(named_fields) => {
            let ghost fs = named_fields@;
            let mut count: usize = 0;
            let mut idx: usize = 0;
            assert(out@.take(0) =~= Seq::<&'static str>::empty());
            while idx < named_fields.len()
                invariant
                    fs == named_fields@,
                    idx <= fs.len(),
                    string_total_fields(fs) <= N,
                    holds_names(out, count, names_of_fields(fs.take(idx as int))),
                    forall|i: int| 0 <= i < fs.len() ==> #[trigger] schema_free(fs[i].ty),
                    forall|i: int| 0 <= i < fs.len() ==> #[trigger] decreases_to!(*data => fs[i].ty),
                decreases fs.len() - idx,
            {
                proof {
                    lemma_string_total_fields_prefix(fs, idx as int);
                    lemma_fields_names_counted(fs.take(idx + 1));
                    assert(fs.take(idx + 1).drop_last() =~= fs.take(idx as int));
                    assert(schema_free(fs[idx as int].ty));
                    assert(decreases_to!(*data => fs[idx as int].ty));
                }
                let ghost prev = out@.take(count as int);
                count = push_name(&mut out, count, named_fields[idx].name);
                let (sub, subct) = collect_all_strings::<N>(&named_fields[idx].ty);
                count = push_names(&mut out, count, &sub, subct);
                proof {
                    assert(fs.take(idx + 1).last() == fs[idx as int]);
                    assert(out@.take(count as int) =~= prev + seq![fs[idx as int].name] + names_of(
                        fs[idx as int].ty,
                    ));
                }
                idx += 1;
            }
            assert(fs.take(idx as int) =~= fs);
            (out, count)
        },
    }
}

/// The names in the schema `data`, in an array of `N` slots, and how many there are.
pub fn collect_all_strings<const N: usize>(data: &DataModelType) -> (r: ([&'static str; N], usize))
    requires
        schema_free(*data),
        string_total(*data) <= N,
    ensures
        holds_names(r.0, r.1, names_of(*data)),
    decreases *data,
{
    proof {
        law_names_counted(*data);
    }
    let mut out: [&'static str; N] = [""; N];
    assert(out@.take(0) =~= Seq::<&'static str>::empty());
    match data {
        DataModelType::Option(data_model_type) => collect_all_strings(&**data_model_type),
        DataModelType::SeqOf { element, .. } => collect_all_strings(&**element),
        DataModelType::Tuple(data_model_types) => {
            let ghost ts = data_model_types@;
            let mut count: usize = 0;
            let mut idx: usize = 0;
            while idx < data_model_types.len()
                invariant
                    ts == data_model_types@,
                    idx <= ts.len(),
                    string_total_types(ts) <= N,
                    holds_names(out, count, names_of_types(ts.take(idx as int))),
                    forall|i: int| 0 <= i < ts.len() ==> #[trigger] schema_free(ts[i]),
                    forall|i: int| 0 <= i < ts.len() ==> #[trigger] decreases_to!(*data => ts[i]),
                decreases ts.len() - idx,
            {
                proof {
                    lemma_string_total_types_prefix(ts, idx as int);
                    lemma_types_names_counted(ts.take(idx + 1));
                    assert(ts.take(idx + 1).drop_last() =~= ts.take(idx as int));
                    assert(schema_free(ts[idx as int]));
                    assert(decreases_to!(*data => ts[idx as int]));
                }
                let (sub, subct) = collect_all_strings::<N>(&data_model_types[idx]);
                count = push_names(&mut out, count, &sub, subct);
                idx += 1;
            }
            assert(ts.take(idx as int) =~= ts);
            (out, count)
        },
        DataModelType::Array { item, count: _ } => collect_all_strings(&**item),
        DataModelType::MapOf { key, val, .. } => {
            proof {
                law_names_counted(**key);
                law_names_counted(**val);
            }
            let (sub, subct) = collect_all_strings::<N>(&**key);
            let count = push_names(&mut out, 0, &sub, subct);
            let (sub, subct) = collect_all_strings::<N>(&**val);
            let count = push_names(&mut out, count, &sub, subct);
            (out, count)
        },
        DataModelType::Struct { name, data } => {
            proof {
                lemma_data_names_counted(*data);
            }
            let count = push_name(&mut out, 0, name);
            let (sub, subct) = collect_all_strings_data::<N>(data);
            let count = push_names(&mut out, count, &sub, subct);
            (out, count)
        },
        DataModelType::Enum { name, variants } => {
            let ghost vs = variants@;
            let mut count = push_name(&mut out, 0, name);
            let mut idx: usize = 0;
            while idx < variants.len()
                invariant
                    vs == variants@,
                    idx <= vs.len(),
                    1 + string_total_variants(vs) <= N,
                    holds_names(out, count, seq![*name] + names_of_variants(vs.take(idx as int))),
                    forall|i: int| 0 <= i < vs.len() ==> #[trigger] schema_free_data(vs[i].data),
                    forall|i: int| 0 <= i < vs.len() ==> #[trigger] decreases_to!(*data => vs[i].data),
                decreases vs.len() - idx,
            {
                proof {
                    lemma_string_total_variants_prefix(vs, idx as int);
                    lemma_variants_names_counted(vs.take(idx + 1));
                    lemma_variants_names_counted(vs.take(idx as int));
                    assert(vs.take(idx + 1).drop_last() =~= vs.take(idx as int));
                    assert(schema_free_data(vs[idx as int].data));
                    assert(decreases_to!(*data => vs[idx as int].data));
                }
                let ghost prev = out@.take(count as int);
                count = push_name(&mut out, count, variants[idx].name);
                let (sub, subct) = collect_all_strings_data::<N>(&variants[idx].data);
                count = push_names(&mut out, count, &sub, subct);
                proof {
                    assert(vs.take(idx + 1).last() == vs[idx as int]);
                    assert(out@.take(count as int) =~= prev + seq![vs[idx as int].name]
                        + names_of_data(vs[idx as int].data));
                    assert(seq![*name] + names_of_variants(vs.take(idx + 1)) =~= prev + seq![
                        vs[idx as int].name,
                    ] + names_of_data(vs[idx as int].data));
                }
                idx += 1;
            }
            assert(vs.take(idx as int) =~= vs);
            (out, count)
        },
        _ => (out, 0),
    }
}

// ---------------------------------------------------------------------------
// Comparing, ordering and merging strings
// ---------------------------------------------------------------------------

/// Whether the UTF-8 bytes of `a` and `b` are the same.
pub fn streq(a: &str, b: &str) -> (r: bool)
    ensures
        r == (a.spec_bytes() == b.spec_bytes()),
{
    let ab = a.as_bytes();
    let bb = b.as_bytes();
    if ab.len() != bb.len() {
        return false;
    }
    let mut i: usize = 0;
    while i < ab.len()
        invariant
            ab@ == a.spec_bytes(),
            bb@ == b.spec_bytes(),
            ab@.len() == bb@.len(),
            i <= ab@.len(),
            ab@.take(i as int) == bb@.take(i as int),
        decreases ab@.len() - i,
    {
        if ab[i] != bb[i] {
            assert(ab@[i as int] != bb@[i as int]);
            return false;
        }
        assert(ab@.take(i + 1) =~= ab@.take(i as int).push(ab@[i as int]));
        assert(bb@.take(i + 1) =~= bb@.take(i as int).push(bb@[i as int]));
        i += 1;
    }
    assert(ab@.take(i as int) =~= ab@);
    assert(bb@.take(i as int) =~= bb@);
    true
}

/// `frag` sits in `base` at byte `at`.
pub open spec fn occurs_at(base: Seq<u8>, frag: Seq<u8>, at: int) -> bool {
    0 <= at && at + frag.len() <= base.len() && base.subrange(at, at + frag.len()) == frag
}

/// What [`str_contains`] finds, which is not plain containment: `frag` is `base`, or empty, or starts at a byte of `base`
/// before its last `frag.len()` bytes (an occurrence at the very end is not looked for).
pub open spec fn contains_frag(base: Seq<u8>, frag: Seq<u8>) -> bool {
    frag.len() <= base.len() && (base == frag || frag.len() == 0 || exists|bi: int|
        0 <= bi < base.len() - frag.len() && #[trigger] occurs_at(base, frag, bi))
}

/// Whether `frag` is found in `base`; see [`contains_frag`] for where it is looked for.
pub fn str_contains(base: &str, frag: &str) -> (r: bool)
    ensures
        r == contains_frag(base.spec_bytes(), frag.spec_bytes()),
{
    if frag.as_bytes().len() > base.as_bytes().len() {
        return false;
    }
    if streq(base, frag) {
        return true;
    }
    let bb = base.as_bytes();
    let fb = frag.as_bytes();
    let blen = bb.len();
    if fb.len() == 0 {
        return true;
    }
    let mut bi: usize = 0;
    while bi < bb.len() - fb.len()
        invariant
            bb@ == base.spec_bytes(),
            fb@ == frag.spec_bytes(),
            bb@ != fb@,
            fb@.len() <= bb@.len(),
            bb@.len() <= usize::MAX,
            fb@.len() > 0,
            bi <= bb@.len() - fb@.len(),
            forall|k: int| 0 <= k < bi ==> !#[trigger] occurs_at(bb@, fb@, k),
        decreases bb@.len() - bi,
    {
        if bb[bi] == fb[0] {
            let mut off: usize = 1;
            let mut matched = true;
            while matched && off < fb.len()
                invariant
                    bi + fb@.len() < bb@.len(),
                    bb@.len() <= usize::MAX,
                    1 <= off <= fb@.len(),
                    bb@[bi as int] == fb@[0],
                    forall|k: int| 0 <= k < off ==> bb@[bi + k] == #[trigger] fb@[k],
                    !matched ==> off < fb@.len() && bb@[bi + off] != fb@[off as int],
                decreases (fb@.len() - off) * 2 + if matched { 1int } else { 0int },
            {
                if fb[off] != bb[off + bi] {
                    matched = false;
                } else {
                    off += 1;
                }
            }
            if matched {
                assert(bb@.subrange(bi as int, bi + fb@.len()) =~= fb@);
                assert(occurs_at(bb@, fb@, bi as int));
                return true;
            }
            assert(!occurs_at(bb@, fb@, bi as int)) by {
                if occurs_at(bb@, fb@, bi as int) {
                    assert(bb@.subrange(bi as int, bi + fb@.len())[off as int] == fb@[off as int]);
                }
            }
        } else {
            assert(!occurs_at(bb@, fb@, bi as int)) by {
                if occurs_at(bb@, fb@, bi as int) {
                    assert(bb@.subrange(bi as int, bi + fb@.len())[0] == fb@[0]);
                }
            }
        }
        bi += 1;
    }
    false
}

/// `a` is greater than `b` at their first differing byte.
pub open spec fn lex_greater(a: Seq<u8>, b: Seq<u8>) -> bool {
    exists|j: int| 0 <= j < a.len() && j < b.len() && a.take(j) == b.take(j) && #[trigger] a[j] > b[j]
}

/// In the order [`sort_arr`] sorts by, `b` belongs before `a`: it is longer, or as long and
/// greater at the first differing byte.
pub open spec fn belongs_after(a: Seq<u8>, b: Seq<u8>) -> bool {
    a.len() < b.len() || (a.len() == b.len() && lex_greater(a, b))
}

/// The string at `i` of `ss` does not belong after the next one.
pub open spec fn in_order_at(ss: Seq<&str>, i: int) -> bool {
    !belongs_after(ss[i].spec_bytes(), ss[i + 1].spec_bytes())
}

/// `ss` is in the order of [`belongs_after`]: no string belongs after the next one.
pub open spec fn sorted_strs(ss: Seq<&str>) -> bool {
    forall|i: int| 0 <= i < ss.len() - 1 ==> #[trigger] in_order_at(ss, i)
}

/// Two strings never each belong after the other.
proof fn lemma_belongs_after_asymmetric(a: Seq<u8>, b: Seq<u8>)
    requires
        belongs_after(a, b),
    ensures
        !belongs_after(b, a),
{
    if a.len() == b.len() && lex_greater(b, a) {
        let j1 = choose|j: int| 0 <= j < a.len() && j < b.len() && a.take(j) == b.take(j) && #[trigger] a[j] > b[j];
        let j2 = choose|j: int| 0 <= j < b.len() && j < a.len() && b.take(j) == a.take(j) && #[trigger] b[j] > a[j];
        if j1 < j2 {
            assert(b.take(j2)[j1] == a.take(j2)[j1]);
        } else if j2 < j1 {
            assert(a.take(j1)[j2] == b.take(j1)[j2]);
        }
    }
}

/// Whether `a` belongs after `b`.
fn str_belongs_after(a: &str, b: &str) -> (r: bool)
    ensures
        r == belongs_after(a.spec_bytes(), b.spec_bytes()),
{
    let x = a.as_bytes();
    let y = b.as_bytes();
    if x.len() < y.len() {
        true
    } else if x.len() == y.len() {
        // Equal lengths: compare byte by byte, up to the first difference
        let mut swap = false;
        let mut done = false;
        let mut j: usize = 0;
        while !done && j < y.len()
            invariant
                x@ == a.spec_bytes(),
                y@ == b.spec_bytes(),
                x@.len() == y@.len(),
                j <= y@.len(),
                x@.take(j as int) == y@.take(j as int),
                done ==> j < y@.len() && x@[j as int] != y@[j as int] && swap == (x@[j as int]
                    > y@[j as int]),
                !done ==> !swap,
            decreases (y@.len() - j) * 2 + if done { 0int } else { 1int },
        {
            if x[j] > y[j] {
                swap = true;
                done = true;
            } else if x[j] < y[j] {
                done = true;
            } else {
                assert(x@.take(j + 1) =~= x@.take(j as int).push(x@[j as int]));
                assert(y@.take(j + 1) =~= y@.take(j as int).push(y@[j as int]));
                j += 1;
            }
        }
        proof {
            if done {
                if swap {
                    assert(lex_greater(x@, y@));
                } else {
                    assert(!lex_greater(x@, y@)) by {
                        if lex_greater(x@, y@) {
                            let k = choose|k: int|
                                0 <= k < x@.len() && k < y@.len() && x@.take(k) == y@.take(k)
                                    && #[trigger] x@[k] > y@[k];
                            if k < j {
                                assert(x@.take(j as int)[k] == y@.take(j as int)[k]);
                            } else if k > j {
                                assert(x@.take(k)[j as int] == y@.take(k)[j as int]);
                            }
                        }
                    }
                }
            } else {
                assert(x@.take(j as int) =~= x@);
                assert(y@.take(j as int) =~= y@);
                assert(!lex_greater(x@, y@)) by {
                    if lex_greater(x@, y@) {
                        let k = choose|k: int|
                            0 <= k < x@.len() && k < y@.len() && x@.take(k) == y@.take(k)
                                && #[trigger] x@[k] > y@[k];
                        assert(x@[k] == y@[k]);
                    }
                }
            }
        }
        swap
    } else {
        false
    }
}

/// Sort strings longest first, and strings of one length by their bytes.
pub fn sort_arr<const N: usize>(arr: [&str; N]) -> (r: [&str; N])
    ensures
        r@.to_multiset() == arr@.to_multiset(),
        sorted_strs(r@),
{
    let mut arr = arr;
    if N < 2 {
        return arr;
    }
    let ghost start = arr@;
    let mut i: usize = 1;
    while i < N
        invariant
            1 <= i <= N,
            arr@.len() == N,
            arr@.to_multiset() == start.to_multiset(),
            sorted_strs(arr@.take(i as int)),
        decreases N - i,
    {
        let ghost orig = arr@;
        let ghost x = orig[i as int];
        let mut j: usize = i;
        while j > 0 && str_belongs_after(arr[j - 1], arr[j])
            invariant
                0 <= j <= i < N,
                arr@.len() == N,
                orig.len() == N,
                x == orig[i as int],
                arr@.to_multiset() == start.to_multiset(),
                sorted_strs(orig.take(i as int)),
                arr@ == orig.take(j as int) + seq![x] + orig.subrange(j as int, i as int) + orig.skip(i + 1),
                j < i ==> belongs_after(orig[j as int].spec_bytes(), x.spec_bytes()),
            decreases j,
        {
            let left = arr[j - 1];
            let right = arr[j];
            let ghost before = arr@;
            arr[j - 1] = right;
            arr[j] = left;
            proof {
                lemma_swap_keeps_multiset(before, j - 1, j as int);
                assert(arr@ =~= orig.take(j - 1) + seq![x] + orig.subrange(j - 1, i as int) + orig.skip(i + 1));
            }
            j -= 1;
        }
        proof {
            let t = arr@.take(i + 1);
            assert(t =~= orig.take(j as int) + seq![x] + orig.subrange(j as int, i as int));
            lemma_inserted_sorted(orig, i as int, j as int, t);
        }
        i += 1;
    }
    assert(arr@.take(N as int) =~= arr@);
    arr
}

/// Swapping two entries keeps what a sequence holds.
proof fn lemma_swap_keeps_multiset<A>(s: Seq<A>, a: int, b: int)
    requires
        0 <= a < s.len(),
        0 <= b < s.len(),
    ensures
        s.update(a, s[b]).update(b, s[a]).to_multiset() == s.to_multiset(),
{
    broadcast use vstd::seq_lib::to_multiset_update, vstd::multiset::group_multiset_axioms;
    let s1 = s.update(a, s[b]);
    vstd::seq_lib::to_multiset_contains(s, s[a]);
    assert(s1.to_multiset() == s.to_multiset().insert(s[b]).remove(s[a]));
    assert(s1[b] == s[b]) by {
        if a != b {
        }
    }
    assert(s1.update(b, s[a]).to_multiset() == s1.to_multiset().insert(s[a]).remove(s1[b]));
    assert(s1.update(b, s[a]).to_multiset() =~= s.to_multiset());
}

/// Inserting `orig[i]` into the sorted `orig[..i]` at `j`, where it belongs, gives a sorted
/// sequence.
proof fn lemma_inserted_sorted(orig: Seq<&str>, i: int, j: int, t: Seq<&str>)
    requires
        0 <= j <= i < orig.len(),
        sorted_strs(orig.take(i)),
        t == orig.take(j) + seq![orig[i]] + orig.subrange(j, i),
        j > 0 ==> !belongs_after(orig[j - 1].spec_bytes(), orig[i].spec_bytes()),
        j < i ==> belongs_after(orig[j].spec_bytes(), orig[i].spec_bytes()),
    ensures
        sorted_strs(t),
{
    let o = orig.take(i);
    let x = orig[i];
    assert forall|k: int| 0 <= k < t.len() - 1 implies #[trigger] in_order_at(t, k) by {
        if k + 1 < j {
            assert(in_order_at(o, k));
            assert(t[k] == o[k] && t[k + 1] == o[k + 1]);
        } else if k + 1 == j {
            assert(t[k] == orig[j - 1]);
            assert(t[k + 1] == x);
        } else if k == j {
            assert(t[k] == x);
            assert(t[k + 1] == orig[j]);
            lemma_belongs_after_asymmetric(orig[j].spec_bytes(), x.spec_bytes());
        } else {
            assert(in_order_at(o, k - 1));
            assert(t[k] == o[k - 1] && t[k + 1] == o[k]);
        }
    }
}

/// The strings of the sorted `ss` that [`dedupe_strings`] keeps: each one that no string
/// kept before it contains (see [`contains_frag`]).
pub open spec fn kept_strs<'a>(ss: Seq<&'a str>) -> Seq<&'a str>
    decreases ss.len(),
{
    if ss.len() == 0 {
        Seq::empty()
    } else {
        let k = kept_strs(ss.drop_last());
        if exists|i: int| 0 <= i < k.len() && contains_frag(#[trigger] k[i].spec_bytes(), ss.last().spec_bytes()) {
            k
        } else {
            k.push(ss.last())
        }
    }
}

/// Sort the strings, then keep each that is not found in one kept before it; the kept
/// strings come first in the returned array, followed by empty strings, with their number.
pub fn dedupe_strings<'a, const N: usize>(strs: [&'a str; N]) -> (r: ([&'a str; N], usize))
    ensures
        exists|p: Seq<&'a str>|
            p.to_multiset() == strs@.to_multiset() && sorted_strs(p) && holds_names(
                r.0,
                r.1,
                kept_strs(p),
            ),
{
    let strs_sorted = sort_arr(strs);
    let ghost p = strs_sorted@;
    let mut out: [&'a str; N] = [""; N];
    let mut count: usize = 0;
    let mut idx: usize = 0;
    assert(out@.take(0) =~= Seq::<&'a str>::empty());
    assert(p.take(0) =~= Seq::<&'a str>::empty());
    while idx < N
        invariant
            p == strs_sorted@,
            p.len() == N,
            idx <= N,
            count <= idx,
            holds_names(out, count, kept_strs(p.take(idx as int))),
        decreases N - idx,
    {
        let ghost k = kept_strs(p.take(idx as int));
        let mut found = false;
        let mut icount: usize = 0;
        while icount < count && !found
            invariant
                p == strs_sorted@,
                p.len() == N,
                idx < N,
                icount <= count,
                holds_names(out, count, k),
                found ==> exists|i: int| 0 <= i < k.len() && contains_frag(#[trigger] k[i].spec_bytes(), p[idx as int].spec_bytes()),
                !found ==> forall|i: int| 0 <= i < icount ==> !contains_frag(#[trigger] k[i].spec_bytes(), p[idx as int].spec_bytes()),
            decreases (count - icount) * 2 + if found { 0int } else { 1int },
        {
            assert(k[icount as int] == out@[icount as int]) by {
                assert(out@.take(count as int)[icount as int] == out@[icount as int]);
            }
            if streq(out[icount], strs_sorted[idx]) {
                // exact match
                found = true;
            } else if str_contains(out[icount], strs_sorted[idx]) {
                // fragment match
                found = true;
            } else {
                icount += 1;
            }
        }
        proof {
            assert(p.take(idx + 1).drop_last() =~= p.take(idx as int));
            assert(p.take(idx + 1).last() == p[idx as int]);
        }
        if !found {
            let ghost before = out@;
            out[count] = strs_sorted[idx];
            proof {
                assert(out@.take(count + 1) =~= before.take(count as int).push(p[idx as int]));
            }
            count += 1;
        }
        idx += 1;
    }
    assert(p.take(N as int) =~= p);
    (out, count)
}

/// The first `N` of `strs`, as an array.
pub fn pack_down_str<const N: usize>(strs: &[&'static str]) -> (r: [&'static str; N])
    requires
        N <= strs@.len(),
    ensures
        r@ == strs@.take(N as int),
{
    let mut out: [&'static str; N] = [""; N];
    let mut idx: usize = 0;
    while idx < N
        invariant
            N <= strs@.len(),
            idx <= N,
            out@.len() == N,
            forall|i: int| 0 <= i < idx ==> #[trigger] out@[i] == strs@[i],
        decreases N - idx,
    {
        out[idx] = strs[idx];
        idx += 1;
    }
    assert(out@ =~= strs@.take(N as int));
    out
}

/// The number of UTF-8 bytes in all of `ss`.
pub open spec fn total_len(ss: Seq<&str>) -> nat
    decreases ss.len(),
{
    if ss.len() == 0 {
        0
    } else {
        total_len(ss.drop_last()) + ss.last().spec_bytes().len()
    }
}

/// The UTF-8 bytes of all of `ss`, one after another.
pub open spec fn merged(ss: Seq<&str>) -> Seq<u8>
    decreases ss.len(),
{
    if ss.len() == 0 {
        Seq::empty()
    } else {
        merged(ss.drop_last()) + ss.last().spec_bytes()
    }
}

/// The merged bytes are as many as the total length, and a prefix's total is no more.
proof fn lemma_merged_len(ss: Seq<&str>, i: int)
    requires
        0 <= i <= ss.len(),
    ensures
        merged(ss).len() == total_len(ss),
        total_len(ss.take(i)) <= total_len(ss),
    decreases ss.len(),
{
    if ss.len() > 0 {
        if i == ss.len() {
            assert(ss.take(i) =~= ss);
            lemma_merged_len(ss.drop_last(), 0);
        } else {
            assert(ss.drop_last().take(i) =~= ss.take(i));
            lemma_merged_len(ss.drop_last(), i);
        }
    } else {
        assert(ss.take(i) =~= ss);
    }
}

/// The total number of UTF-8 bytes in `strs`.
pub fn ttl_str_len(strs: &[&str]) -> (r: usize)
    requires
        total_len(strs@) <= usize::MAX,
    ensures
        r == total_len(strs@),
{
    let mut total: usize = 0;
    let mut idx: usize = 0;
    while idx < strs.len()
        invariant
            idx <= strs@.len(),
            total_len(strs@) <= usize::MAX,
            total == total_len(strs@.take(idx as int)),
        decreases strs@.len() - idx,
    {
        proof {
            assert(strs@.take(idx + 1).drop_last() =~= strs@.take(idx as int));
            lemma_merged_len(strs@, idx + 1);
        }
        total += strs[idx].as_bytes().len();
        idx += 1;
    }
    assert(strs@.take(idx as int) =~= strs@);
    total
}

/// The UTF-8 bytes of `strs`, one after another, in an array of exactly their number.
pub fn merge_strs<const N: usize>(strs: &[&str]) -> (r: [u8; N])
    requires
        total_len(strs@) == N,
    ensures
        r@ == merged(strs@),
{
    let mut out: [u8; N] = [0u8; N];
    let mut count: usize = 0;
    let mut idx: usize = 0;
    proof {
        lemma_merged_len(strs@, 0);
    }
    while idx < strs.len()
        invariant
            idx <= strs@.len(),
            total_len(strs@) == N,
            out@.len() == N,
            count == total_len(strs@.take(idx as int)),
            merged(strs@.take(idx as int)).len() == count,
            out@.take(count as int) == merged(strs@.take(idx as int)),
        decreases strs@.len() - idx,
    {
        proof {
            assert(strs@.take(idx + 1).drop_last() =~= strs@.take(idx as int));
            lemma_merged_len(strs@, idx + 1);
            lemma_merged_len(strs@.take(idx + 1), 0);
        }
        let s = strs[idx].as_bytes();
        let ghost start = out@.take(count as int);
        let mut icount: usize = 0;
        while icount < s.len()
            invariant
                icount <= s@.len(),
                count + s@.len() - icount <= N,
                out@.len() == N,
                out@.take(count as int) == start + s@.take(icount as int),
            decreases s@.len() - icount,
        {
            let ghost before = out@;
            out[count] = s[icount];
            assert(out@.take(count + 1) =~= before.take(count as int).push(s@[icount as int]));
            assert(s@.take(icount + 1) =~= s@.take(icount as int).push(s@[icount as int]));
            icount += 1;
            count += 1;
        }
        assert(s@.take(icount as int) =~= s@);
        idx += 1;
    }
    assert(strs@.take(idx as int) =~= strs@);
    assert(out@.take(count as int) =~= out@);
    out
}

} // verus!
