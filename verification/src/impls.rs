//! Implementations of the [`Schema`] trait for `core` and `std` types
use crate::schema::shape::{dmt_data_view, dmt_fields_view, dmt_variants_view, dmt_view, dmts_view};
use crate::schema::view::{DataView, FieldView, TypeView, VariantView};
use crate::schema::{Data, DataModelType, NamedField, Variant};
use crate::schema::{max_size_of, varint_size};
use crate::varint::{lemma_varint_encode_len, lemma_varint_encode_len_lower, zigzag};
use crate::Schema;
use vstd::arithmetic::power2::{lemma2_to64, lemma_pow2_adds, lemma_pow2_strictly_increases, pow2};
use vstd::prelude::*;

verus! {

impl Schema for u8 {
    open spec fn schema_view() -> TypeView {
        TypeView::U8
    }

    fn schema() -> (r: DataModelType) {
        DataModelType::U8
    }
}

impl Schema for i8 {
    open spec fn schema_view() -> TypeView {
        TypeView::I8
    }

    fn schema() -> (r: DataModelType) {
        DataModelType::I8
    }
}

impl Schema for bool {
    open spec fn schema_view() -> TypeView {
        TypeView::Bool
    }

    fn schema() -> (r: DataModelType) {
        DataModelType::Bool
    }
}

impl Schema for char {
    open spec fn schema_view() -> TypeView {
        TypeView::Char
    }

    fn schema() -> (r: DataModelType) {
        DataModelType::Char
    }
}

impl Schema for () {
    open spec fn schema_view() -> TypeView {
        TypeView::Unit
    }

    fn schema() -> (r: DataModelType) {
        DataModelType::Unit
    }
}

impl Schema for i16 {
    open spec fn schema_view() -> TypeView {
        TypeView::I16
    }

    fn schema() -> (r: DataModelType) {
        DataModelType::I16
    }
}

impl Schema for i32 {
    open spec fn schema_view() -> TypeView {
        TypeView::I32
    }

    fn schema() -> (r: DataModelType) {
        DataModelType::I32
    }
}

impl Schema for i64 {
    open spec fn schema_view() -> TypeView {
        TypeView::I64
    }

    fn schema() -> (r: DataModelType) {
        DataModelType::I64
    }
}

impl Schema for i128 {
    open spec fn schema_view() -> TypeView {
        TypeView::I128
    }

    fn schema() -> (r: DataModelType) {
        DataModelType::I128
    }
}

impl Schema for u16 {
    open spec fn schema_view() -> TypeView {
        TypeView::U16
    }

    fn schema() -> (r: DataModelType) {
        DataModelType::U16
    }
}

impl Schema for u32 {
    open spec fn schema_view() -> TypeView {
        TypeView::U32
    }

    fn schema() -> (r: DataModelType) {
        DataModelType::U32
    }
}

impl Schema for u64 {
    open spec fn schema_view() -> TypeView {
        TypeView::U64
    }

    fn schema() -> (r: DataModelType) {
        DataModelType::U64
    }
}

impl Schema for u128 {
    open spec fn schema_view() -> TypeView {
        TypeView::U128
    }

    fn schema() -> (r: DataModelType) {
        DataModelType::U128
    }
}

impl Schema for str {
    open spec fn schema_view() -> TypeView {
        TypeView::String { max_len: None }
    }

    fn schema() -> (r: DataModelType) {
        DataModelType::String { max_len: None }
    }
}

impl Schema for String {
    open spec fn schema_view() -> TypeView {
        TypeView::String { max_len: None }
    }

    fn schema() -> (r: DataModelType) {
        DataModelType::String { max_len: None }
    }
}

impl<T: Schema> Schema for Option<T> {
    open spec fn schema_view() -> TypeView {
        TypeView::Option(Box::new(T::schema_view()))
    }

    fn schema() -> (r: DataModelType) {
        DataModelType::Option(Box::new(T::schema()))
    }
}

impl<T: Schema, E: Schema> Schema for Result<T, E> {
    open spec fn schema_view() -> TypeView {
        TypeView::Enum {
            name: "Result<T, E>"@,
            variants: seq![
                VariantView { name: "Ok"@, data: DataView::Newtype(Box::new(T::schema_view())) },
                VariantView { name: "Err"@, data: DataView::Newtype(Box::new(E::schema_view())) },
            ],
        }
    }

    fn schema() -> (r: DataModelType) {
        let t = T::schema();
        let e = E::schema();
        let v0 = Variant { name: "Ok", data: Data::Newtype(Box::new(t)) };
        let v1 = Variant { name: "Err", data: Data::Newtype(Box::new(e)) };
        let vs = vec![v0, v1];
        proof {
            let w0 = VariantView { name: "Ok"@, data: DataView::Newtype(Box::new(T::schema_view())) };
            let w1 = VariantView { name: "Err"@, data: DataView::Newtype(Box::new(E::schema_view())) };
            assert(vs@ == seq![v0, v1]);
            assert(vs@.drop_last() == seq![v0]);
            assert(vs@.drop_last().drop_last() == Seq::<Variant>::empty());
            assert(dmt_data_view(v0.data) == w0.data);
            assert(dmt_data_view(v1.data) == w1.data);
            assert(dmt_variants_view(vs@.drop_last().drop_last()) == Seq::<VariantView>::empty());
            assert(dmt_variants_view(vs@.drop_last()) == seq![w0]);
            assert(dmt_variants_view(vs@) == seq![w0, w1]);
        }
        let r = DataModelType::Enum { name: "Result<T, E>", variants: vs };
        assert(dmt_view(r) == Self::schema_view());
        r
    }
}

impl<'a, T: Schema + ?Sized> Schema for &'a T {
    open spec fn schema_view() -> TypeView {
        T::schema_view()
    }

    fn schema() -> (r: DataModelType) {
        T::schema()
    }
}

impl<T: Schema + ?Sized> Schema for Box<T> {
    open spec fn schema_view() -> TypeView {
        T::schema_view()
    }

    fn schema() -> (r: DataModelType) {
        T::schema()
    }
}

impl<T: Schema> Schema for [T] {
    open spec fn schema_view() -> TypeView {
        TypeView::SeqOf { element: Box::new(T::schema_view()), max_len: None }
    }

    fn schema() -> (r: DataModelType) {
        DataModelType::SeqOf { element: Box::new(T::schema()), max_len: None }
    }
}

impl<T: Schema> Schema for Vec<T> {
    open spec fn schema_view() -> TypeView {
        TypeView::SeqOf { element: Box::new(T::schema_view()), max_len: None }
    }

    fn schema() -> (r: DataModelType) {
        DataModelType::SeqOf { element: Box::new(T::schema()), max_len: None }
    }
}

impl<T: Schema, const N: usize> Schema for [T; N] {
    open spec fn schema_view() -> TypeView {
        TypeView::Array { item: Box::new(T::schema_view()), count: N }
    }

    fn schema() -> (r: DataModelType) {
        DataModelType::Array { item: Box::new(T::schema()), count: N }
    }
}

impl<A: Schema> Schema for (A,) {
    open spec fn schema_view() -> TypeView {
        TypeView::Tuple(seq![A::schema_view()])
    }

    fn schema() -> (r: DataModelType) {
        let a_ = A::schema();
        let ts = vec![a_];
        proof {
            assert(ts@.drop_last() == Seq::<DataModelType>::empty());
            assert(dmts_view(ts@.drop_last()) == Seq::<TypeView>::empty());
            assert(ts@ == seq![a_]);
            assert(dmts_view(ts@) == seq![A::schema_view()]);
        }
        DataModelType::Tuple(ts)
    }
}

impl<A: Schema, B: Schema> Schema for (A, B) {
    open spec fn schema_view() -> TypeView {
        TypeView::Tuple(seq![A::schema_view(), B::schema_view()])
    }

    fn schema() -> (r: DataModelType) {
        let a_ = A::schema();
        let b_ = B::schema();
        let ts = vec![a_, b_];
        proof {
            assert(ts@.drop_last().drop_last() == Seq::<DataModelType>::empty());
            assert(dmts_view(ts@.drop_last().drop_last()) == Seq::<TypeView>::empty());
            assert(ts@.drop_last() == seq![a_]);
            assert(dmts_view(ts@.drop_last()) == seq![A::schema_view()]);
            assert(ts@ == seq![a_, b_]);
            assert(dmts_view(ts@) == seq![A::schema_view(), B::schema_view()]);
        }
        DataModelType::Tuple(ts)
    }
}

impl<A: Schema, B: Schema, C: Schema> Schema for (A, B, C) {
    open spec fn schema_view() -> TypeView {
        TypeView::Tuple(seq![A::schema_view(), B::schema_view(), C::schema_view()])
    }

    fn schema() -> (r: DataModelType) {
        let a_ = A::schema();
        let b_ = B::schema();
        let c_ = C::schema();
        let ts = vec![a_, b_, c_];
        proof {
            assert(ts@.drop_last().drop_last().drop_last() == Seq::<DataModelType>::empty());
            assert(dmts_view(ts@.drop_last().drop_last().drop_last()) == Seq::<TypeView>::empty());
            assert(ts@.drop_last().drop_last() == seq![a_]);
            assert(dmts_view(ts@.drop_last().drop_last()) == seq![A::schema_view()]);
            assert(ts@.drop_last() == seq![a_, b_]);
            assert(dmts_view(ts@.drop_last()) == seq![A::schema_view(), B::schema_view()]);
            assert(ts@ == seq![a_, b_, c_]);
            assert(dmts_view(ts@) == seq![A::schema_view(), B::schema_view(), C::schema_view()]);
        }
        DataModelType::Tuple(ts)
    }
}

impl<A: Schema, B: Schema, C: Schema, D: Schema> Schema for (A, B, C, D) {
    open spec fn schema_view() -> TypeView {
        TypeView::Tuple(seq![A::schema_view(), B::schema_view(), C::schema_view(), D::schema_view()])
    }

    fn schema() -> (r: DataModelType) {
        let a_ = A::schema();
        let b_ = B::schema();
        let c_ = C::schema();
        let d_ = D::schema();
        let ts = vec![a_, b_, c_, d_];
        proof {
            assert(ts@.drop_last().drop_last().drop_last().drop_last() == Seq::<DataModelType>::empty());
            assert(dmts_view(ts@.drop_last().drop_last().drop_last().drop_last()) == Seq::<TypeView>::empty());
            assert(ts@.drop_last().drop_last().drop_last() == seq![a_]);
            assert(dmts_view(ts@.drop_last().drop_last().drop_last()) == seq![A::schema_view()]);
            assert(ts@.drop_last().drop_last() == seq![a_, b_]);
            assert(dmts_view(ts@.drop_last().drop_last()) == seq![A::schema_view(), B::schema_view()]);
            assert(ts@.drop_last() == seq![a_, b_, c_]);
            assert(dmts_view(ts@.drop_last()) == seq![A::schema_view(), B::schema_view(), C::schema_view()]);
            assert(ts@ == seq![a_, b_, c_, d_]);
            assert(dmts_view(ts@) == seq![A::schema_view(), B::schema_view(), C::schema_view(), D::schema_view()]);
        }
        DataModelType::Tuple(ts)
    }
}

impl<A: Schema, B: Schema, C: Schema, D: Schema, E: Schema> Schema for (A, B, C, D, E) {
    open spec fn schema_view() -> TypeView {
        TypeView::Tuple(seq![A::schema_view(), B::schema_view(), C::schema_view(), D::schema_view(), E::schema_view()])
    }

    fn schema() -> (r: DataModelType) {
        let a_ = A::schema();
        let b_ = B::schema();
        let c_ = C::schema();
        let d_ = D::schema();
        let e_ = E::schema();
        let ts = vec![a_, b_, c_, d_, e_];
        proof {
            assert(ts@.drop_last().drop_last().drop_last().drop_last().drop_last() == Seq::<DataModelType>::empty());
            assert(dmts_view(ts@.drop_last().drop_last().drop_last().drop_last().drop_last()) == Seq::<TypeView>::empty());
            assert(ts@.drop_last().drop_last().drop_last().drop_last() == seq![a_]);
            assert(dmts_view(ts@.drop_last().drop_last().drop_last().drop_last()) == seq![A::schema_view()]);
            assert(ts@.drop_last().drop_last().drop_last() == seq![a_, b_]);
            assert(dmts_view(ts@.drop_last().drop_last().drop_last()) == seq![A::schema_view(), B::schema_view()]);
            assert(ts@.drop_last().drop_last() == seq![a_, b_, c_]);
            assert(dmts_view(ts@.drop_last().drop_last()) == seq![A::schema_view(), B::schema_view(), C::schema_view()]);
            assert(ts@.drop_last() == seq![a_, b_, c_, d_]);
            assert(dmts_view(ts@.drop_last()) == seq![A::schema_view(), B::schema_view(), C::schema_view(), D::schema_view()]);
            assert(ts@ == seq![a_, b_, c_, d_, e_]);
            assert(dmts_view(ts@) == seq![A::schema_view(), B::schema_view(), C::schema_view(), D::schema_view(), E::schema_view()]);
        }
        DataModelType::Tuple(ts)
    }
}

impl<A: Schema, B: Schema, C: Schema, D: Schema, E: Schema, F: Schema> Schema for (A, B, C, D, E, F) {
    open spec fn schema_view() -> TypeView {
        TypeView::Tuple(seq![A::schema_view(), B::schema_view(), C::schema_view(), D::schema_view(), E::schema_view(), F::schema_view()])
    }

    fn schema() -> (r: DataModelType) {
        let a_ = A::schema();
        let b_ = B::schema();
        let c_ = C::schema();
        let d_ = D::schema();
        let e_ = E::schema();
        let f_ = F::schema();
        let ts = vec![a_, b_, c_, d_, e_, f_];
        proof {
            assert(ts@.drop_last().drop_last().drop_last().drop_last().drop_last().drop_last() == Seq::<DataModelType>::empty());
            assert(dmts_view(ts@.drop_last().drop_last().drop_last().drop_last().drop_last().drop_last()) == Seq::<TypeView>::empty());
            assert(ts@.drop_last().drop_last().drop_last().drop_last().drop_last() == seq![a_]);
            assert(dmts_view(ts@.drop_last().drop_last().drop_last().drop_last().drop_last()) == seq![A::schema_view()]);
            assert(ts@.drop_last().drop_last().drop_last().drop_last() == seq![a_, b_]);
            assert(dmts_view(ts@.drop_last().drop_last().drop_last().drop_last()) == seq![A::schema_view(), B::schema_view()]);
            assert(ts@.drop_last().drop_last().drop_last() == seq![a_, b_, c_]);
            assert(dmts_view(ts@.drop_last().drop_last().drop_last()) == seq![A::schema_view(), B::schema_view(), C::schema_view()]);
            assert(ts@.drop_last().drop_last() == seq![a_, b_, c_, d_]);
            assert(dmts_view(ts@.drop_last().drop_last()) == seq![A::schema_view(), B::schema_view(), C::schema_view(), D::schema_view()]);
            assert(ts@.drop_last() == seq![a_, b_, c_, d_, e_]);
            assert(dmts_view(ts@.drop_last()) == seq![A::schema_view(), B::schema_view(), C::schema_view(), D::schema_view(), E::schema_view()]);
            assert(ts@ == seq![a_, b_, c_, d_, e_, f_]);
            assert(dmts_view(ts@) == seq![A::schema_view(), B::schema_view(), C::schema_view(), D::schema_view(), E::schema_view(), F::schema_view()]);
        }
        DataModelType::Tuple(ts)
    }
}

impl<T: Schema> Schema for core::ops::Range<T> {
    open spec fn schema_view() -> TypeView {
        TypeView::Struct {
            name: "Range<T>"@,
            data: DataView::Struct(seq![
                FieldView { name: "start"@, ty: T::schema_view() },
                FieldView { name: "end"@, ty: T::schema_view() },
            ]),
        }
    }

    fn schema() -> (r: DataModelType) {
        let x = T::schema();
        let y = T::schema();
        let g0 = NamedField { name: "start", ty: x };
        let g1 = NamedField { name: "end", ty: y };
        let fs = vec![g0, g1];
        proof {
            let w0 = FieldView { name: "start"@, ty: T::schema_view() };
            let w1 = FieldView { name: "end"@, ty: T::schema_view() };
            assert(fs@ == seq![g0, g1]);
            assert(fs@.drop_last() == seq![g0]);
            assert(fs@.drop_last().drop_last() == Seq::<NamedField>::empty());
            assert(dmt_view(g0.ty) == w0.ty);
            assert(dmt_view(g1.ty) == w1.ty);
            assert(dmt_fields_view(fs@.drop_last().drop_last()) == Seq::<FieldView>::empty());
            assert(dmt_fields_view(fs@.drop_last()) == seq![w0]);
            assert(dmt_fields_view(fs@) == seq![w0, w1]);
        }
        proof {
            assert(dmt_data_view(Data::Struct(fs)) == DataView::Struct(dmt_fields_view(fs@)));
        }
        let r = DataModelType::Struct { name: "Range<T>", data: Data::Struct(fs) };
        assert(dmt_view(r) == Self::schema_view());
        r
    }
}

impl<T: Schema> Schema for core::ops::RangeInclusive<T> {
    open spec fn schema_view() -> TypeView {
        TypeView::Struct {
            name: "RangeInclusive<T>"@,
            data: DataView::Struct(seq![
                FieldView { name: "start"@, ty: T::schema_view() },
                FieldView { name: "end"@, ty: T::schema_view() },
            ]),
        }
    }

    fn schema() -> (r: DataModelType) {
        let x = T::schema();
        let y = T::schema();
        let g0 = NamedField { name: "start", ty: x };
        let g1 = NamedField { name: "end", ty: y };
        let fs = vec![g0, g1];
        proof {
            let w0 = FieldView { name: "start"@, ty: T::schema_view() };
            let w1 = FieldView { name: "end"@, ty: T::schema_view() };
            assert(fs@ == seq![g0, g1]);
            assert(fs@.drop_last() == seq![g0]);
            assert(fs@.drop_last().drop_last() == Seq::<NamedField>::empty());
            assert(dmt_view(g0.ty) == w0.ty);
            assert(dmt_view(g1.ty) == w1.ty);
            assert(dmt_fields_view(fs@.drop_last().drop_last()) == Seq::<FieldView>::empty());
            assert(dmt_fields_view(fs@.drop_last()) == seq![w0]);
            assert(dmt_fields_view(fs@) == seq![w0, w1]);
        }
        proof {
            assert(dmt_data_view(Data::Struct(fs)) == DataView::Struct(dmt_fields_view(fs@)));
        }
        let r = DataModelType::Struct { name: "RangeInclusive<T>", data: Data::Struct(fs) };
        assert(dmt_view(r) == Self::schema_view());
        r
    }
}

impl Schema for core::time::Duration {
    open spec fn schema_view() -> TypeView {
        TypeView::Struct {
            name: "Duration"@,
            data: DataView::Struct(seq![
                FieldView { name: "secs"@, ty: TypeView::U64 },
                FieldView { name: "nanos"@, ty: TypeView::U32 },
            ]),
        }
    }

    fn schema() -> (r: DataModelType) {
        let x = u64::schema();
        let y = u32::schema();
        let g0 = NamedField { name: "secs", ty: x };
        let g1 = NamedField { name: "nanos", ty: y };
        let fs = vec![g0, g1];
        proof {
            let w0 = FieldView { name: "secs"@, ty: TypeView::U64 };
            let w1 = FieldView { name: "nanos"@, ty: TypeView::U32 };
            assert(fs@ == seq![g0, g1]);
            assert(fs@.drop_last() == seq![g0]);
            assert(fs@.drop_last().drop_last() == Seq::<NamedField>::empty());
            assert(dmt_view(g0.ty) == w0.ty);
            assert(dmt_view(g1.ty) == w1.ty);
            assert(dmt_fields_view(fs@.drop_last().drop_last()) == Seq::<FieldView>::empty());
            assert(dmt_fields_view(fs@.drop_last()) == seq![w0]);
            assert(dmt_fields_view(fs@) == seq![w0, w1]);
        }
        proof {
            assert(dmt_data_view(Data::Struct(fs)) == DataView::Struct(dmt_fields_view(fs@)));
        }
        let r = DataModelType::Struct { name: "Duration", data: Data::Struct(fs) };
        assert(dmt_view(r) == Self::schema_view());
        r
    }
}

impl<T: ?Sized> Schema for core::marker::PhantomData<T> {
    open spec fn schema_view() -> TypeView {
        TypeView::Struct { name: "PhantomData"@, data: DataView::Unit }
    }

    fn schema() -> (r: DataModelType) {
        let r = DataModelType::Struct { name: "PhantomData", data: Data::Unit };
        assert(dmt_data_view(Data::Unit) == DataView::Unit);
        assert(r->Struct_name@ == "PhantomData"@);
        assert(dmt_view(r) == TypeView::Struct { name: "PhantomData"@, data: DataView::Unit });
        r
    }
}

/// The contents of the variant named `name` in the enum shape `v`, if it has one.
pub open spec fn variant_data(v: TypeView, name: Seq<char>) -> Option<DataView> {
    match v {
        TypeView::Enum { variants, .. } => if exists|i: int|
            0 <= i < variants.len() && #[trigger] variants[i].name == name {
            let i = choose|i: int| 0 <= i < variants.len() && #[trigger] variants[i].name == name;
            Some(variants[i].data)
        } else {
            None
        },
        _ => None,
    }
}

/// Law: a `Result<T, E>` is written as an enum of two variants, `Ok` holding a `T` and `Err`
/// holding an `E`, as serde writes it.
pub proof fn law_result_is_ok_or_err<T: Schema, E: Schema>()
    ensures
        (<Result<T, E> as Schema>::schema_view() matches TypeView::Enum { variants, .. } && variants.len() == 2),
        variant_data(<Result<T, E> as Schema>::schema_view(), "Ok"@) == Some(
            DataView::Newtype(Box::new(T::schema_view())),
        ),
        variant_data(<Result<T, E> as Schema>::schema_view(), "Err"@) == Some(
            DataView::Newtype(Box::new(E::schema_view())),
        ),
{
    reveal_strlit("Ok");
    reveal_strlit("Err");
    let v = <Result<T, E> as Schema>::schema_view();
    if let TypeView::Enum { variants, .. } = v {
        assert(variants[0].name == "Ok"@);
        assert(variants[1].name == "Err"@);
        assert("Ok"@ != "Err"@);
        assert forall|i: int| 0 <= i < variants.len() && #[trigger] variants[i].name == "Ok"@ implies i == 0 by {}
        assert forall|i: int| 0 <= i < variants.len() && #[trigger] variants[i].name == "Err"@ implies i == 1 by {}
    }
}

/// Law: swapping the two types of a `Result` swaps what its variants hold: the `Ok` of
/// `Result<T, E>` holds what the `Err` of `Result<E, T>` holds, and the other way round.
pub proof fn law_result_swap<T: Schema, E: Schema>()
    ensures
        variant_data(<Result<T, E> as Schema>::schema_view(), "Ok"@) == variant_data(
            <Result<E, T> as Schema>::schema_view(),
            "Err"@,
        ),
        variant_data(<Result<T, E> as Schema>::schema_view(), "Err"@) == variant_data(
            <Result<E, T> as Schema>::schema_view(),
            "Ok"@,
        ),
{
    law_result_is_ok_or_err::<T, E>();
    law_result_is_ok_or_err::<E, T>();
}

/// Law: an option of `T` is written as `T` behind a marker: its shape wraps exactly `T`'s.
pub proof fn law_option_wraps<T: Schema>()
    ensures
        (<Option<T> as Schema>::schema_view() == TypeView::Option(Box::new(T::schema_view()))),
{
}

/// Law: a vector, a slice, a borrowed slice and a boxed slice of `T` are written alike.
pub proof fn law_sequences_written_alike<'a, T: Schema>()
    ensures
        <Vec<T> as Schema>::schema_view() == <[T] as Schema>::schema_view(),
        <&'a [T] as Schema>::schema_view() == <[T] as Schema>::schema_view(),
        <Box<[T]> as Schema>::schema_view() == <[T] as Schema>::schema_view(),
        (<[T] as Schema>::schema_view() == TypeView::SeqOf {
            element: Box::new(T::schema_view()),
            max_len: None,
        }),
{
}

/// Law: a `String` and a `str` are written alike.
pub proof fn law_strings_written_alike()
    ensures
        <String as Schema>::schema_view() == <str as Schema>::schema_view(),
{
}

/// Law: an array of `N` items of `T` holds `N` items, each written as a `T`.
pub proof fn law_array_count<T: Schema, const N: usize>()
    ensures
        (<[T; N] as Schema>::schema_view() == TypeView::Array { item: Box::new(T::schema_view()), count: N }),
{
}

/// Law: the types of a tuple are written in order: swapping a pair reverses its types.
pub proof fn law_pair_in_order<A: Schema, B: Schema>()
    ensures
        (<(A, B) as Schema>::schema_view() matches TypeView::Tuple(ab) && <(B, A) as Schema>::schema_view() matches TypeView::Tuple(ba)
            && ab.len() == 2 && ba == ab.reverse() && ab[0] == A::schema_view() && ab[1] == B::schema_view()),
{
    let ab = seq![A::schema_view(), B::schema_view()];
    assert(seq![B::schema_view(), A::schema_view()] =~= ab.reverse());
}

/// Law: a `Range` and a `RangeInclusive` hold the same fields, `start` then `end`, each a `T`.
pub proof fn law_ranges_hold_start_and_end<T: Schema>()
    ensures
        (<core::ops::Range<T> as Schema>::schema_view() matches TypeView::Struct { data: d1, .. }
            && <core::ops::RangeInclusive<T> as Schema>::schema_view() matches TypeView::Struct { data: d2, .. }
            && d1 == d2 && d1 == DataView::Struct(seq![
                FieldView { name: "start"@, ty: T::schema_view() },
                FieldView { name: "end"@, ty: T::schema_view() },
            ])),
{
}

/// The encodings of the largest values of each integer width take 3, 5, 10 and 19 bytes.
proof fn lemma_widest_varints()
    ensures
        varint_size(0xFFFF) == 3,
        varint_size(0xFFFF_FFFF) == 5,
        varint_size(0xFFFF_FFFF_FFFF_FFFF) == 10,
        varint_size(0xFFFF_FFFF_FFFF_FFFF_FFFF_FFFF_FFFF_FFFF) == 19,
{
    lemma2_to64();
    vstd::arithmetic::power2::lemma2_to64_rest();
    lemma_varint_encode_len(0xFFFF, 3);
    lemma_varint_encode_len_lower(0xFFFF, 2);
    lemma_pow2_strictly_increases(32, 35);
    lemma_varint_encode_len(0xFFFF_FFFF, 5);
    lemma_varint_encode_len_lower(0xFFFF_FFFF, 4);
    lemma_pow2_strictly_increases(64, 70);
    lemma_varint_encode_len(0xFFFF_FFFF_FFFF_FFFF, 10);
    assert(7 * 9nat == 63);
    assert(pow2(63) == 0x8000_0000_0000_0000);
    lemma_varint_encode_len_lower(0xFFFF_FFFF_FFFF_FFFF, 9);
    lemma_pow2_adds(64, 64);
    lemma_pow2_strictly_increases(128, 133);
    lemma_pow2_adds(63, 63);
    lemma_varint_encode_len(0xFFFF_FFFF_FFFF_FFFF_FFFF_FFFF_FFFF_FFFF, 19);
    assert(7 * 18nat == 126);
    assert(pow2(126) == pow2(63) * pow2(63));
    assert(pow2(126) == 0x4000_0000_0000_0000_0000_0000_0000_0000) by (nonlinear_arith)
        requires
            pow2(126) == pow2(63) * pow2(63),
            pow2(63) == 0x8000_0000_0000_0000,
    ;
    lemma_varint_encode_len_lower(0xFFFF_FFFF_FFFF_FFFF_FFFF_FFFF_FFFF_FFFF, 18);
}

/// Law: the schema of each integer type bounds an encoded value by the encoding of the
/// widest value of that type: an integer of `n` bits is a varint of its value (zig-zagged
/// when signed, which spans the same range), of at most `varint_size(2^n - 1)` bytes, and a
/// byte-sized integer or a bool is one byte.
pub proof fn law_integer_schemas_fit_their_values(d: DataModelType)
    ensures
        dmt_view(d) == <u8 as Schema>::schema_view() ==> max_size_of(d) == Some(1nat),
        dmt_view(d) == <i8 as Schema>::schema_view() ==> max_size_of(d) == Some(1nat),
        dmt_view(d) == <bool as Schema>::schema_view() ==> max_size_of(d) == Some(1nat),
        dmt_view(d) == <u16 as Schema>::schema_view() ==> max_size_of(d) == Some(varint_size(u16::MAX as nat)),
        dmt_view(d) == <i16 as Schema>::schema_view() ==> max_size_of(d) == Some(varint_size(zigzag(i16::MIN as int))),
        dmt_view(d) == <u32 as Schema>::schema_view() ==> max_size_of(d) == Some(varint_size(u32::MAX as nat)),
        dmt_view(d) == <i32 as Schema>::schema_view() ==> max_size_of(d) == Some(varint_size(zigzag(i32::MIN as int))),
        dmt_view(d) == <u64 as Schema>::schema_view() ==> max_size_of(d) == Some(varint_size(u64::MAX as nat)),
        dmt_view(d) == <i64 as Schema>::schema_view() ==> max_size_of(d) == Some(varint_size(zigzag(i64::MIN as int))),
        dmt_view(d) == <u128 as Schema>::schema_view() ==> max_size_of(d) == Some(varint_size(u128::MAX as nat)),
        dmt_view(d) == <i128 as Schema>::schema_view() ==> max_size_of(d) == Some(varint_size(zigzag(i128::MIN as int))),
{
    lemma_widest_varints();
    assert(zigzag(i16::MIN as int) == 0xFFFF);
    assert(zigzag(i32::MIN as int) == 0xFFFF_FFFF);
    assert(zigzag(i64::MIN as int) == 0xFFFF_FFFF_FFFF_FFFF);
    assert(zigzag(i128::MIN as int) == 0xFFFF_FFFF_FFFF_FFFF_FFFF_FFFF_FFFF_FFFF);
}

} // verus!
