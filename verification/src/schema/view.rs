//! The value an owned schema stands for: its shape, with names as sequences of characters.
//!
//! Two owned schemas are the same type exactly when their views are equal; formatting and
//! collecting types go by the view.
use super::owned::{OwnedData, OwnedDataModelType, OwnedNamedField, OwnedVariant};
use vstd::prelude::*;

verus! {

/// The shape of an [`OwnedDataModelType`].
pub enum TypeView {
    Bool,
    I8,
    U8,
    I16,
    I32,
    I64,
    I128,
    U16,
    U32,
    U64,
    U128,
    Usize,
    Isize,
    F32,
    F64,
    Char,
    String { max_len: Option<usize> },
    ByteArray { max_len: Option<usize> },
    Option(Box<TypeView>),
    Unit,
    SeqOf { element: Box<TypeView>, max_len: Option<usize> },
    Tuple(Seq<TypeView>),
    Array { item: Box<TypeView>, count: usize },
    MapOf { key: Box<TypeView>, val: Box<TypeView>, max_len: Option<usize> },
    Struct { name: Seq<char>, data: DataView },
    Enum { name: Seq<char>, variants: Seq<VariantView> },
    Schema,
}

/// The shape of an [`OwnedData`].
pub enum DataView {
    Unit,
    Newtype(Box<TypeView>),
    Tuple(Seq<TypeView>),
    Struct(Seq<FieldView>),
}

/// The shape of an [`OwnedNamedField`].
pub struct FieldView {
    pub name: Seq<char>,
    pub ty: TypeView,
}

/// The shape of an [`OwnedVariant`].
pub struct VariantView {
    pub name: Seq<char>,
    pub data: DataView,
}

/// The views of `ts`, in order.
pub open spec fn types_view(ts: Seq<OwnedDataModelType>) -> Seq<TypeView>
    decreases ts,
{
    if ts.len() == 0 {
        Seq::empty()
    } else {
        types_view(ts.drop_last()).push(type_view(ts.last()))
    }
}

/// The views of `fs`, in order.
pub open spec fn fields_view(fs: Seq<OwnedNamedField>) -> Seq<FieldView>
    decreases fs,
{
    if fs.len() == 0 {
        Seq::empty()
    } else {
        fields_view(fs.drop_last()).push(
            FieldView { name: fs.last().name@, ty: type_view(fs.last().ty) },
        )
    }
}

/// The views of `vs`, in order.
pub open spec fn variants_view(vs: Seq<OwnedVariant>) -> Seq<VariantView>
    decreases vs,
{
    if vs.len() == 0 {
        Seq::empty()
    } else {
        variants_view(vs.drop_last()).push(
            VariantView { name: vs.last().name@, data: data_view(vs.last().data) },
        )
    }
}

/// The view of an owned schema.
pub open spec fn type_view(d: OwnedDataModelType) -> TypeView
    decreases d,
{
    match d {
        OwnedDataModelType::Bool => TypeView::Bool,
        OwnedDataModelType::I8 => TypeView::I8,
        OwnedDataModelType::U8 => TypeView::U8,
        OwnedDataModelType::I16 => TypeView::I16,
        OwnedDataModelType::I32 => TypeView::I32,
        OwnedDataModelType::I64 => TypeView::I64,
        OwnedDataModelType::I128 => TypeView::I128,
        OwnedDataModelType::U16 => TypeView::U16,
        OwnedDataModelType::U32 => TypeView::U32,
        OwnedDataModelType::U64 => TypeView::U64,
        OwnedDataModelType::U128 => TypeView::U128,
        OwnedDataModelType::Usize => TypeView::Usize,
        OwnedDataModelType::Isize => TypeView::Isize,
        OwnedDataModelType::F32 => TypeView::F32,
        OwnedDataModelType::F64 => TypeView::F64,
        OwnedDataModelType::Char => TypeView::Char,
        OwnedDataModelType::String { max_len } => TypeView::String { max_len },
        OwnedDataModelType::ByteArray { max_len } => TypeView::ByteArray { max_len },
        OwnedDataModelType::Option(t) => TypeView::Option(Box::new(type_view(*t))),
        OwnedDataModelType::Unit => TypeView::Unit,
        OwnedDataModelType::SeqOf { element, max_len } => TypeView::SeqOf {
            element: Box::new(type_view(*element)),
            max_len,
        },
        OwnedDataModelType::Tuple(ts) => TypeView::Tuple(types_view(ts@)),
        OwnedDataModelType::Array { item, count } => TypeView::Array {
            item: Box::new(type_view(*item)),
            count,
        },
        OwnedDataModelType::MapOf { key, val, max_len } => TypeView::MapOf {
            key: Box::new(type_view(*key)),
            val: Box::new(type_view(*val)),
            max_len,
        },
        OwnedDataModelType::Struct { name, data } => TypeView::Struct {
            name: name@,
            data: data_view(data),
        },
        OwnedDataModelType::Enum { name, variants } => TypeView::Enum {
            name: name@,
            variants: variants_view(variants@),
        },
        OwnedDataModelType::Schema => TypeView::Schema,
    }
}

/// The view of the contents of a struct or variant.
pub open spec fn data_view(d: OwnedData) -> DataView
    decreases d,
{
    match d {
        OwnedData::Unit => DataView::Unit,
        OwnedData::Newtype(t) => DataView::Newtype(Box::new(type_view(*t))),
        OwnedData::Tuple(ts) => DataView::Tuple(types_view(ts@)),
        OwnedData::Struct(fs) => DataView::Struct(fields_view(fs@)),
    }
}

impl View for OwnedDataModelType {
    type V = TypeView;

    open spec fn view(&self) -> TypeView {
        type_view(*self)
    }
}

impl View for OwnedData {
    type V = DataView;

    open spec fn view(&self) -> DataView {
        data_view(*self)
    }
}

/// The views of a sequence have its length, and each is the view of the element there.
pub proof fn lemma_types_view(ts: Seq<OwnedDataModelType>)
    ensures
        types_view(ts).len() == ts.len(),
        forall|i: int| 0 <= i < ts.len() ==> #[trigger] types_view(ts)[i] == type_view(ts[i]),
    decreases ts.len(),
{
    if ts.len() > 0 {
        lemma_types_view(ts.drop_last());
    }
}

/// [`lemma_types_view`] for fields.
pub proof fn lemma_fields_view(fs: Seq<OwnedNamedField>)
    ensures
        fields_view(fs).len() == fs.len(),
        forall|i: int|
            0 <= i < fs.len() ==> #[trigger] fields_view(fs)[i] == (FieldView {
                name: fs[i].name@,
                ty: type_view(fs[i].ty),
            }),
    decreases fs.len(),
{
    if fs.len() > 0 {
        lemma_fields_view(fs.drop_last());
    }
}

/// [`lemma_types_view`] for variants.
pub proof fn lemma_variants_view(vs: Seq<OwnedVariant>)
    ensures
        variants_view(vs).len() == vs.len(),
        forall|i: int|
            0 <= i < vs.len() ==> #[trigger] variants_view(vs)[i] == (VariantView {
                name: vs[i].name@,
                data: data_view(vs[i].data),
            }),
    decreases vs.len(),
{
    if vs.len() > 0 {
        lemma_variants_view(vs.drop_last());
    }
}

/// Whether `a` and `b` are the same type: the same shape, with the same names.
pub fn same_type(a: &OwnedDataModelType, b: &OwnedDataModelType) -> (r: bool)
    ensures
        r == (a@ == b@),
    decreases *a,
{
    match (a, b) {
        (OwnedDataModelType::Bool, OwnedDataModelType::Bool) => true,
        (OwnedDataModelType::I8, OwnedDataModelType::I8) => true,
        (OwnedDataModelType::U8, OwnedDataModelType::U8) => true,
        (OwnedDataModelType::I16, OwnedDataModelType::I16) => true,
        (OwnedDataModelType::I32, OwnedDataModelType::I32) => true,
        (OwnedDataModelType::I64, OwnedDataModelType::I64) => true,
        (OwnedDataModelType::I128, OwnedDataModelType::I128) => true,
        (OwnedDataModelType::U16, OwnedDataModelType::U16) => true,
        (OwnedDataModelType::U32, OwnedDataModelType::U32) => true,
        (OwnedDataModelType::U64, OwnedDataModelType::U64) => true,
        (OwnedDataModelType::U128, OwnedDataModelType::U128) => true,
        (OwnedDataModelType::Usize, OwnedDataModelType::Usize) => true,
        (OwnedDataModelType::Isize, OwnedDataModelType::Isize) => true,
        (OwnedDataModelType::F32, OwnedDataModelType::F32) => true,
        (OwnedDataModelType::F64, OwnedDataModelType::F64) => true,
        (OwnedDataModelType::Char, OwnedDataModelType::Char) => true,
        (OwnedDataModelType::Unit, OwnedDataModelType::Unit) => true,
        (OwnedDataModelType::Schema, OwnedDataModelType::Schema) => true,
        (
            OwnedDataModelType::String { max_len: x },
            OwnedDataModelType::String { max_len: y },
        ) => *x == *y,
        (
            OwnedDataModelType::ByteArray { max_len: x },
            OwnedDataModelType::ByteArray { max_len: y },
        ) => *x == *y,
        (OwnedDataModelType::Option(x), OwnedDataModelType::Option(y)) => same_type(&**x, &**y),
        (
            OwnedDataModelType::SeqOf { element: x, max_len: m },
            OwnedDataModelType::SeqOf { element: y, max_len: n },
        ) => *m == *n && same_type(&**x, &**y),
        (OwnedDataModelType::Tuple(xs), OwnedDataModelType::Tuple(ys)) => same_types(
            xs.as_slice(),
            ys.as_slice(),
        ),
        (
            OwnedDataModelType::Array { item: x, count: m },
            OwnedDataModelType::Array { item: y, count: n },
        ) => *m == *n && same_type(&**x, &**y),
        (
            OwnedDataModelType::MapOf { key: k1, val: v1, max_len: m },
            OwnedDataModelType::MapOf { key: k2, val: v2, max_len: n },
        ) => *m == *n && same_type(&**k1, &**k2) && same_type(&**v1, &**v2),
        (
            OwnedDataModelType::Struct { name: n1, data: d1 },
            OwnedDataModelType::Struct { name: n2, data: d2 },
        ) => *n1 == *n2 && same_data(d1, d2),
        (
            OwnedDataModelType::Enum { name: n1, variants: v1 },
            OwnedDataModelType::Enum { name: n2, variants: v2 },
        ) => *n1 == *n2 && same_variants(v1.as_slice(), v2.as_slice()),
        _ => false,
    }
}

/// Whether `a` and `b` are the same contents of a struct or variant.
pub fn same_data(a: &OwnedData, b: &OwnedData) -> (r: bool)
    ensures
        r == (a@ == b@),
    decreases *a,
{
    match (a, b) {
        (OwnedData::Unit, OwnedData::Unit) => true,
        (OwnedData::Newtype(x), OwnedData::Newtype(y)) => same_type(&**x, &**y),
        (OwnedData::Tuple(xs), OwnedData::Tuple(ys)) => same_types(xs.as_slice(), ys.as_slice()),
        (OwnedData::Struct(xs), OwnedData::Struct(ys)) => same_fields(xs.as_slice(), ys.as_slice()),
        _ => false,
    }
}

/// Whether `a` and `b` hold the same types, in the same order.
fn same_types(a: &[OwnedDataModelType], b: &[OwnedDataModelType]) -> (r: bool)
    ensures
        r == (types_view(a@) == types_view(b@)),
    decreases a@,
{
    proof {
        lemma_types_view(a@);
        lemma_types_view(b@);
    }
    if a.len() != b.len() {
        return false;
    }
    let mut i: usize = 0;
    while i < a.len()
        invariant
            a@.len() == b@.len(),
            i <= a@.len(),
            types_view(a@).len() == a@.len(),
            types_view(b@).len() == b@.len(),
            forall|j: int| 0 <= j < a@.len() ==> #[trigger] types_view(a@)[j] == type_view(a@[j]),
            forall|j: int| 0 <= j < b@.len() ==> #[trigger] types_view(b@)[j] == type_view(b@[j]),
            forall|j: int| 0 <= j < i ==> type_view(#[trigger] a@[j]) == type_view(b@[j]),
        decreases a@.len() - i,
    {
        proof {
            assert(decreases_to!(a@ => a@[i as int]));
        }
        if !same_type(&a[i], &b[i]) {
            assert(types_view(a@)[i as int] != types_view(b@)[i as int]);
            return false;
        }
        i += 1;
    }
    assert(types_view(a@) =~= types_view(b@));
    true
}

/// Whether `a` and `b` hold the same fields, in the same order.
fn same_fields(a: &[OwnedNamedField], b: &[OwnedNamedField]) -> (r: bool)
    ensures
        r == (fields_view(a@) == fields_view(b@)),
    decreases a@,
{
    proof {
        lemma_fields_view(a@);
        lemma_fields_view(b@);
    }
    if a.len() != b.len() {
        return false;
    }
    let mut i: usize = 0;
    while i < a.len()
        invariant
            a@.len() == b@.len(),
            i <= a@.len(),
            fields_view(a@).len() == a@.len(),
            fields_view(b@).len() == b@.len(),
            forall|j: int|
                0 <= j < a@.len() ==> #[trigger] fields_view(a@)[j] == (FieldView {
                    name: a@[j].name@,
                    ty: type_view(a@[j].ty),
                }),
            forall|j: int|
                0 <= j < b@.len() ==> #[trigger] fields_view(b@)[j] == (FieldView {
                    name: b@[j].name@,
                    ty: type_view(b@[j].ty),
                }),
            forall|j: int| 0 <= j < i ==> fields_view(a@)[j] == #[trigger] fields_view(b@)[j],
        decreases a@.len() - i,
    {
        proof {
            assert(decreases_to!(a@ => a@[i as int]));
        }
        if a[i].name != b[i].name || !same_type(&a[i].ty, &b[i].ty) {
            assert(fields_view(a@)[i as int] != fields_view(b@)[i as int]);
            return false;
        }
        assert(fields_view(a@)[i as int] == fields_view(b@)[i as int]);
        i += 1;
    }
    assert(fields_view(a@) =~= fields_view(b@));
    true
}

/// Whether `a` and `b` hold the same variants, in the same order.
fn same_variants(a: &[OwnedVariant], b: &[OwnedVariant]) -> (r: bool)
    ensures
        r == (variants_view(a@) == variants_view(b@)),
    decreases a@,
{
    proof {
        lemma_variants_view(a@);
        lemma_variants_view(b@);
    }
    if a.len() != b.len() {
        return false;
    }
    let mut i: usize = 0;
    while i < a.len()
        invariant
            a@.len() == b@.len(),
            i <= a@.len(),
            variants_view(a@).len() == a@.len(),
            variants_view(b@).len() == b@.len(),
            forall|j: int|
                0 <= j < a@.len() ==> #[trigger] variants_view(a@)[j] == (VariantView {
                    name: a@[j].name@,
                    data: data_view(a@[j].data),
                }),
            forall|j: int|
                0 <= j < b@.len() ==> #[trigger] variants_view(b@)[j] == (VariantView {
                    name: b@[j].name@,
                    data: data_view(b@[j].data),
                }),
            forall|j: int| 0 <= j < i ==> variants_view(a@)[j] == #[trigger] variants_view(b@)[j],
        decreases a@.len() - i,
    {
        proof {
            assert(decreases_to!(a@ => a@[i as int]));
        }
        if a[i].name != b[i].name || !same_data(&a[i].data, &b[i].data) {
            assert(variants_view(a@)[i as int] != variants_view(b@)[i as int]);
            return false;
        }
        assert(variants_view(a@)[i as int] == variants_view(b@)[i as int]);
        i += 1;
    }
    assert(variants_view(a@) =~= variants_view(b@));
    true
}

/// A copy of `d`: a new owned schema of the same type.
pub fn copy_type(d: &OwnedDataModelType) -> (r: OwnedDataModelType)
    ensures
        r@ == d@,
    decreases *d,
{
    match d {
        OwnedDataModelType::Bool => OwnedDataModelType::Bool,
        OwnedDataModelType::I8 => OwnedDataModelType::I8,
        OwnedDataModelType::U8 => OwnedDataModelType::U8,
        OwnedDataModelType::I16 => OwnedDataModelType::I16,
        OwnedDataModelType::I32 => OwnedDataModelType::I32,
        OwnedDataModelType::I64 => OwnedDataModelType::I64,
        OwnedDataModelType::I128 => OwnedDataModelType::I128,
        OwnedDataModelType::U16 => OwnedDataModelType::U16,
        OwnedDataModelType::U32 => OwnedDataModelType::U32,
        OwnedDataModelType::U64 => OwnedDataModelType::U64,
        OwnedDataModelType::U128 => OwnedDataModelType::U128,
        OwnedDataModelType::Usize => OwnedDataModelType::Usize,
        OwnedDataModelType::Isize => OwnedDataModelType::Isize,
        OwnedDataModelType::F32 => OwnedDataModelType::F32,
        OwnedDataModelType::F64 => OwnedDataModelType::F64,
        OwnedDataModelType::Char => OwnedDataModelType::Char,
        OwnedDataModelType::Unit => OwnedDataModelType::Unit,
        OwnedDataModelType::Schema => OwnedDataModelType::Schema,
        OwnedDataModelType::String { max_len } => OwnedDataModelType::String { max_len: *max_len },
        OwnedDataModelType::ByteArray { max_len } => OwnedDataModelType::ByteArray {
            max_len: *max_len,
        },
        OwnedDataModelType::Option(t) => OwnedDataModelType::Option(Box::new(copy_type(&**t))),
        OwnedDataModelType::SeqOf { element, max_len } => OwnedDataModelType::SeqOf {
            element: Box::new(copy_type(&**element)),
            max_len: *max_len,
        },
        OwnedDataModelType::Tuple(ts) => OwnedDataModelType::Tuple(copy_types(ts.as_slice())),
        OwnedDataModelType::Array { item, count } => OwnedDataModelType::Array {
            item: Box::new(copy_type(&**item)),
            count: *count,
        },
        OwnedDataModelType::MapOf { key, val, max_len } => OwnedDataModelType::MapOf {
            key: Box::new(copy_type(&**key)),
            val: Box::new(copy_type(&**val)),
            max_len: *max_len,
        },
        OwnedDataModelType::Struct { name, data } => OwnedDataModelType::Struct {
            name: name.clone(),
            data: copy_data(data),
        },
        OwnedDataModelType::Enum { name, variants } => OwnedDataModelType::Enum {
            name: name.clone(),
            variants: copy_variants(variants.as_slice()),
        },
    }
}

/// A copy of the contents of a struct or variant.
pub fn copy_data(d: &OwnedData) -> (r: OwnedData)
    ensures
        r@ == d@,
    decreases *d,
{
    match d {
        OwnedData::Unit => OwnedData::Unit,
        OwnedData::Newtype(t) => OwnedData::Newtype(Box::new(copy_type(&**t))),
        OwnedData::Tuple(ts) => OwnedData::Tuple(copy_types(ts.as_slice())),
        OwnedData::Struct(fs) => OwnedData::Struct(copy_fields(fs.as_slice())),
    }
}

/// Copies of the types of `ts`.
fn copy_types(ts: &[OwnedDataModelType]) -> (r: Vec<OwnedDataModelType>)
    ensures
        types_view(r@) == types_view(ts@),
    decreases ts@,
{
    let mut out: Vec<OwnedDataModelType> = Vec::new();
    let mut i: usize = 0;
    while i < ts.len()
        invariant
            i <= ts@.len(),
            types_view(out@) == types_view(ts@.take(i as int)),
        decreases ts@.len() - i,
    {
        proof {
            assert(decreases_to!(ts@ => ts@[i as int]));
        }
        let ghost before = out@;
        out.push(copy_type(&ts[i]));
        assert(out@.drop_last() == before);
        assert(ts@.take(i + 1).drop_last() == ts@.take(i as int));
        i += 1;
    }
    assert(ts@.take(i as int) == ts@);
    out
}

/// Copies of the fields of `fs`.
fn copy_fields(fs: &[OwnedNamedField]) -> (r: Vec<OwnedNamedField>)
    ensures
        fields_view(r@) == fields_view(fs@),
    decreases fs@,
{
    let mut out: Vec<OwnedNamedField> = Vec::new();
    let mut i: usize = 0;
    while i < fs.len()
        invariant
            i <= fs@.len(),
            fields_view(out@) == fields_view(fs@.take(i as int)),
        decreases fs@.len() - i,
    {
        proof {
            assert(decreases_to!(fs@ => fs@[i as int]));
        }
        let ghost before = out@;
        out.push(OwnedNamedField { name: fs[i].name.clone(), ty: copy_type(&fs[i].ty) });
        assert(out@.drop_last() == before);
        assert(fs@.take(i + 1).drop_last() == fs@.take(i as int));
        i += 1;
    }
    assert(fs@.take(i as int) == fs@);
    out
}

/// Copies of the variants of `vs`.
fn copy_variants(vs: &[OwnedVariant]) -> (r: Vec<OwnedVariant>)
    ensures
        variants_view(r@) == variants_view(vs@),
    decreases vs@,
{
    let mut out: Vec<OwnedVariant> = Vec::new();
    let mut i: usize = 0;
    while i < vs.len()
        invariant
            i <= vs@.len(),
            variants_view(out@) == variants_view(vs@.take(i as int)),
        decreases vs@.len() - i,
    {
        proof {
            assert(decreases_to!(vs@ => vs@[i as int]));
        }
        let ghost before = out@;
        out.push(OwnedVariant { name: vs[i].name.clone(), data: copy_data(&vs[i].data) });
        assert(out@.drop_last() == before);
        assert(vs@.take(i + 1).drop_last() == vs@.take(i as int));
        i += 1;
    }
    assert(vs@.take(i as int) == vs@);
    out
}

} // verus!
