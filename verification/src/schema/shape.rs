//! The shape of a borrowed schema, in the same terms as the view of an owned one, and the
//! fact that an owned copy is exactly an owned schema of the same shape.
use super::owned::{
    copies_of, copy_of, data_copy_of, fields_copy_of, variants_copy_of, OwnedData,
    OwnedDataModelType, OwnedNamedField, OwnedVariant,
};
use super::view::{
    data_view, fields_view, type_view, types_view, variants_view, DataView, FieldView, TypeView,
    VariantView,
};
use super::{Data, DataModelType, NamedField, Variant};
use vstd::prelude::*;

verus! {

/// The shape of a schema: its view, with names as sequences of characters.
pub open spec fn dmt_view(d: DataModelType) -> TypeView
    decreases d,
{
    match d {
        DataModelType::Bool => TypeView::Bool,
        DataModelType::I8 => TypeView::I8,
        DataModelType::U8 => TypeView::U8,
        DataModelType::I16 => TypeView::I16,
        DataModelType::I32 => TypeView::I32,
        DataModelType::I64 => TypeView::I64,
        DataModelType::I128 => TypeView::I128,
        DataModelType::U16 => TypeView::U16,
        DataModelType::U32 => TypeView::U32,
        DataModelType::U64 => TypeView::U64,
        DataModelType::U128 => TypeView::U128,
        DataModelType::Usize => TypeView::Usize,
        DataModelType::Isize => TypeView::Isize,
        DataModelType::F32 => TypeView::F32,
        DataModelType::F64 => TypeView::F64,
        DataModelType::Char => TypeView::Char,
        DataModelType::String { max_len } => TypeView::String { max_len },
        DataModelType::ByteArray { max_len } => TypeView::ByteArray { max_len },
        DataModelType::Option(t) => TypeView::Option(Box::new(dmt_view(*t))),
        DataModelType::Unit => TypeView::Unit,
        DataModelType::SeqOf { element, max_len } => TypeView::SeqOf {
            element: Box::new(dmt_view(*element)),
            max_len,
        },
        DataModelType::Tuple(ts) => TypeView::Tuple(dmts_view(ts@)),
        DataModelType::Array { item, count } => TypeView::Array {
            item: Box::new(dmt_view(*item)),
            count,
        },
        DataModelType::MapOf { key, val, max_len } => TypeView::MapOf {
            key: Box::new(dmt_view(*key)),
            val: Box::new(dmt_view(*val)),
            max_len,
        },
        DataModelType::Struct { name, data } => TypeView::Struct {
            name: name@,
            data: dmt_data_view(data),
        },
        DataModelType::Enum { name, variants } => TypeView::Enum {
            name: name@,
            variants: dmt_variants_view(variants@),
        },
        DataModelType::Schema => TypeView::Schema,
    }
}

/// The shape of the contents of a struct or variant.
pub open spec fn dmt_data_view(d: Data) -> DataView
    decreases d,
{
    match d {
        Data::Unit => DataView::Unit,
        Data::Newtype(t) => DataView::Newtype(Box::new(dmt_view(*t))),
        Data::Tuple(ts) => DataView::Tuple(dmts_view(ts@)),
        Data::Struct(fs) => DataView::Struct(dmt_fields_view(fs@)),
    }
}

/// The shapes of `ts`, in order.
pub open spec fn dmts_view(ts: Seq<DataModelType>) -> Seq<TypeView>
    decreases ts,
{
    if ts.len() == 0 {
        Seq::empty()
    } else {
        dmts_view(ts.drop_last()).push(dmt_view(ts.last()))
    }
}

/// The shapes of the fields `fs`, in order.
pub open spec fn dmt_fields_view(fs: Seq<NamedField>) -> Seq<FieldView>
    decreases fs,
{
    if fs.len() == 0 {
        Seq::empty()
    } else {
        dmt_fields_view(fs.drop_last()).push(
            FieldView { name: fs.last().name@, ty: dmt_view(fs.last().ty) },
        )
    }
}

/// The shapes of the variants `vs`, in order.
pub open spec fn dmt_variants_view(vs: Seq<Variant>) -> Seq<VariantView>
    decreases vs,
{
    if vs.len() == 0 {
        Seq::empty()
    } else {
        dmt_variants_view(vs.drop_last()).push(
            VariantView { name: vs.last().name@, data: dmt_data_view(vs.last().data) },
        )
    }
}

/// An owned schema is a copy of a borrowed one exactly when they have the same shape.
pub proof fn lemma_copy_iff_same_view(o: OwnedDataModelType, d: DataModelType)
    ensures
        copy_of(o, d) <==> type_view(o) == dmt_view(d),
    decreases d,
{
    match d {
        DataModelType::Option(t) => {
            if let OwnedDataModelType::Option(u) = o {
                lemma_copy_iff_same_view(*u, *t);
            }
        },
        DataModelType::SeqOf { element, .. } => {
            if let OwnedDataModelType::SeqOf { element: e, .. } = o {
                lemma_copy_iff_same_view(*e, *element);
            }
        },
        DataModelType::Tuple(ts) => {
            if let OwnedDataModelType::Tuple(us) = o {
                lemma_copies_iff(us@, ts@);
            }
        },
        DataModelType::Array { item, .. } => {
            if let OwnedDataModelType::Array { item: i, .. } = o {
                lemma_copy_iff_same_view(*i, *item);
            }
        },
        DataModelType::MapOf { key, val, .. } => {
            if let OwnedDataModelType::MapOf { key: k, val: v, .. } = o {
                lemma_copy_iff_same_view(*k, *key);
                lemma_copy_iff_same_view(*v, *val);
            }
        },
        DataModelType::Struct { data, .. } => {
            if let OwnedDataModelType::Struct { data: e, .. } = o {
                lemma_data_copy_iff(e, data);
            }
        },
        DataModelType::Enum { variants, .. } => {
            if let OwnedDataModelType::Enum { variants: vs, .. } = o {
                lemma_variants_copy_iff(vs@, variants@);
            }
        },
        _ => {},
    }
}

/// [`lemma_copy_iff_same_view`] for the contents of a struct or variant.
pub proof fn lemma_data_copy_iff(o: OwnedData, d: Data)
    ensures
        data_copy_of(o, d) <==> data_view(o) == dmt_data_view(d),
    decreases d,
{
    match d {
        Data::Newtype(t) => {
            if let OwnedData::Newtype(u) = o {
                lemma_copy_iff_same_view(*u, *t);
            }
        },
        Data::Tuple(ts) => {
            if let OwnedData::Tuple(us) = o {
                lemma_copies_iff(us@, ts@);
            }
        },
        Data::Struct(fs) => {
            if let OwnedData::Struct(gs) = o {
                lemma_fields_copy_iff(gs@, fs@);
            }
        },
        _ => {},
    }
}

/// [`lemma_copy_iff_same_view`] element by element.
pub proof fn lemma_copies_iff(os: Seq<OwnedDataModelType>, ds: Seq<DataModelType>)
    ensures
        copies_of(os, ds) <==> types_view(os) == dmts_view(ds),
    decreases ds,
{
    lemma_lens(os, ds);
    if ds.len() > 0 && os.len() == ds.len() {
        lemma_copies_iff(os.drop_last(), ds.drop_last());
        lemma_copy_iff_same_view(os.last(), ds.last());
        let (a, b) = (types_view(os.drop_last()), dmts_view(ds.drop_last()));
        let (x, y) = (type_view(os.last()), dmt_view(ds.last()));
        if a.push(x) == b.push(y) {
            assert(a.push(x).drop_last() == a);
            assert(b.push(y).drop_last() == b);
            assert(a.push(x).last() == x);
            assert(b.push(y).last() == y);
        }
    }
}

/// The shapes of a sequence have its length.
proof fn lemma_lens(os: Seq<OwnedDataModelType>, ds: Seq<DataModelType>)
    ensures
        types_view(os).len() == os.len(),
        dmts_view(ds).len() == ds.len(),
    decreases os.len() + ds.len(),
{
    if os.len() > 0 {
        lemma_lens(os.drop_last(), ds);
    } else if ds.len() > 0 {
        lemma_lens(os, ds.drop_last());
    }
}

/// The shapes of field sequences have their lengths.
proof fn lemma_field_lens(os: Seq<OwnedNamedField>, ds: Seq<NamedField>)
    ensures
        fields_view(os).len() == os.len(),
        dmt_fields_view(ds).len() == ds.len(),
    decreases os.len() + ds.len(),
{
    if os.len() > 0 {
        lemma_field_lens(os.drop_last(), ds);
    } else if ds.len() > 0 {
        lemma_field_lens(os, ds.drop_last());
    }
}

/// The shapes of variant sequences have their lengths.
proof fn lemma_variant_lens(os: Seq<OwnedVariant>, ds: Seq<Variant>)
    ensures
        variants_view(os).len() == os.len(),
        dmt_variants_view(ds).len() == ds.len(),
    decreases os.len() + ds.len(),
{
    if os.len() > 0 {
        lemma_variant_lens(os.drop_last(), ds);
    } else if ds.len() > 0 {
        lemma_variant_lens(os, ds.drop_last());
    }
}

/// [`lemma_copy_iff_same_view`] for fields, element by element.
pub proof fn lemma_fields_copy_iff(os: Seq<OwnedNamedField>, ds: Seq<NamedField>)
    ensures
        fields_copy_of(os, ds) <==> fields_view(os) == dmt_fields_view(ds),
    decreases ds,
{
    lemma_field_lens(os, ds);
    if ds.len() > 0 && os.len() == ds.len() {
        lemma_fields_copy_iff(os.drop_last(), ds.drop_last());
        lemma_copy_iff_same_view(os.last().ty, ds.last().ty);
        let (a, b) = (fields_view(os.drop_last()), dmt_fields_view(ds.drop_last()));
        let x = FieldView { name: os.last().name@, ty: type_view(os.last().ty) };
        let y = FieldView { name: ds.last().name@, ty: dmt_view(ds.last().ty) };
        if a.push(x) == b.push(y) {
            assert(a.push(x).drop_last() == a);
            assert(b.push(y).drop_last() == b);
            assert(a.push(x).last() == x);
            assert(b.push(y).last() == y);
        }
    }
}

/// [`lemma_copy_iff_same_view`] for variants, element by element.
pub proof fn lemma_variants_copy_iff(os: Seq<OwnedVariant>, ds: Seq<Variant>)
    ensures
        variants_copy_of(os, ds) <==> variants_view(os) == dmt_variants_view(ds),
    decreases ds,
{
    lemma_variant_lens(os, ds);
    if ds.len() > 0 && os.len() == ds.len() {
        lemma_variants_copy_iff(os.drop_last(), ds.drop_last());
        lemma_data_copy_iff(os.last().data, ds.last().data);
        let (a, b) = (variants_view(os.drop_last()), dmt_variants_view(ds.drop_last()));
        let x = VariantView { name: os.last().name@, data: data_view(os.last().data) };
        let y = VariantView { name: ds.last().name@, data: dmt_data_view(ds.last().data) };
        if a.push(x) == b.push(y) {
            assert(a.push(x).drop_last() == a);
            assert(b.push(y).drop_last() == b);
            assert(a.push(x).last() == x);
            assert(b.push(y).last() == y);
        }
    }
}

} // verus!
