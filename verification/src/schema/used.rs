//! What the types a schema uses are: the schema itself, and, closed under taking parts, the
//! direct parts of every type in it.
use super::fmt::{
    data_mentions, fields_mention, mentions, types_mention, variants_mention,
};
use super::view::{DataView, FieldView, TypeView, VariantView};
use vstd::prelude::*;

verus! {

/// The types of the fields `fs`, in order.
pub open spec fn field_types(fs: Seq<FieldView>) -> Seq<TypeView>
    decreases fs,
{
    if fs.len() == 0 {
        Seq::empty()
    } else {
        field_types(fs.drop_last()).push(fs.last().ty)
    }
}

/// The direct parts of the contents of a struct or variant.
pub open spec fn data_parts(d: DataView) -> Seq<TypeView> {
    match d {
        DataView::Unit => Seq::empty(),
        DataView::Newtype(t) => seq![*t],
        DataView::Tuple(ts) => ts,
        DataView::Struct(fs) => field_types(fs),
    }
}

/// The direct parts of the variants `vs`, variant after variant.
pub open spec fn variants_parts(vs: Seq<VariantView>) -> Seq<TypeView>
    decreases vs,
{
    if vs.len() == 0 {
        Seq::empty()
    } else {
        variants_parts(vs.drop_last()) + data_parts(vs.last().data)
    }
}

/// The direct parts of a type: the inner type of an option, the element of a sequence or
/// array, the key and the value of a map, the types of a tuple, and the types held by a
/// struct or by the variants of an enum.
pub open spec fn parts(v: TypeView) -> Seq<TypeView> {
    match v {
        TypeView::Option(t) => seq![*t],
        TypeView::SeqOf { element, .. } => seq![*element],
        TypeView::Tuple(ts) => ts,
        TypeView::Array { item, .. } => seq![*item],
        TypeView::MapOf { key, val, .. } => seq![*key, *val],
        TypeView::Struct { data, .. } => data_parts(data),
        TypeView::Enum { variants, .. } => variants_parts(variants),
        _ => Seq::empty(),
    }
}

/// Whether some type of `s` [`mentions`] `x`.
pub open spec fn some_mentions(s: Seq<TypeView>, x: TypeView) -> bool {
    exists|i: int| 0 <= i < s.len() && #[trigger] mentions(s[i], x)
}

proof fn lemma_concat(a: Seq<TypeView>, b: Seq<TypeView>, x: TypeView)
    ensures
        some_mentions(a + b, x) <==> some_mentions(a, x) || some_mentions(b, x),
{
    if some_mentions(a + b, x) {
        let i = choose|i: int| 0 <= i < (a + b).len() && #[trigger] mentions((a + b)[i], x);
        if i < a.len() {
            assert(mentions(a[i], x));
        } else {
            assert(mentions(b[i - a.len()], x));
        }
    }
    if some_mentions(a, x) {
        let i = choose|i: int| 0 <= i < a.len() && #[trigger] mentions(a[i], x);
        assert((a + b)[i] == a[i]);
    }
    if some_mentions(b, x) {
        let i = choose|i: int| 0 <= i < b.len() && #[trigger] mentions(b[i], x);
        assert((a + b)[a.len() + i] == b[i]);
    }
}

proof fn lemma_push(a: Seq<TypeView>, t: TypeView, x: TypeView)
    ensures
        some_mentions(a.push(t), x) <==> some_mentions(a, x) || mentions(t, x),
{
    assert(a.push(t) == a + seq![t]);
    lemma_concat(a, seq![t], x);
    if mentions(t, x) {
        assert(seq![t][0] == t);
    }
}

proof fn lemma_types(ts: Seq<TypeView>, x: TypeView)
    ensures
        types_mention(ts, x) <==> some_mentions(ts, x),
    decreases ts,
{
    if ts.len() > 0 {
        lemma_types(ts.drop_last(), x);
        lemma_push(ts.drop_last(), ts.last(), x);
        assert(ts.drop_last().push(ts.last()) == ts);
    }
}

proof fn lemma_fields(fs: Seq<FieldView>, x: TypeView)
    ensures
        fields_mention(fs, x) <==> some_mentions(field_types(fs), x),
    decreases fs,
{
    if fs.len() > 0 {
        lemma_fields(fs.drop_last(), x);
        lemma_push(field_types(fs.drop_last()), fs.last().ty, x);
    }
}

proof fn lemma_data(d: DataView, x: TypeView)
    ensures
        data_mentions(d, x) <==> some_mentions(data_parts(d), x),
{
    match d {
        DataView::Unit => {},
        DataView::Newtype(t) => {
            lemma_push(Seq::empty(), *t, x);
            assert(Seq::<TypeView>::empty().push(*t) == seq![*t]);
        },
        DataView::Tuple(ts) => lemma_types(ts, x),
        DataView::Struct(fs) => lemma_fields(fs, x),
    }
}

proof fn lemma_variants(vs: Seq<VariantView>, x: TypeView)
    ensures
        variants_mention(vs, x) <==> some_mentions(variants_parts(vs), x),
    decreases vs,
{
    if vs.len() > 0 {
        lemma_variants(vs.drop_last(), x);
        lemma_data(vs.last().data, x);
        lemma_concat(variants_parts(vs.drop_last()), data_parts(vs.last().data), x);
    }
}

/// Law: a type uses `x` exactly when `x` is the type itself or is used by one of its direct
/// [`parts`]. So the types a schema uses are the schema and, recursively, every part of
/// every type in it; [`crate::schema::owned::OwnedDataModelType::all_used_types`] lists
/// each of them once.
pub proof fn law_used_types_are_closed_under_parts(v: TypeView, x: TypeView)
    ensures
        mentions(v, x) <==> x == v || some_mentions(parts(v), x),
{
    match v {
        TypeView::Option(t) => {
            lemma_push(Seq::empty(), *t, x);
            assert(Seq::<TypeView>::empty().push(*t) == seq![*t]);
        },
        TypeView::SeqOf { element, .. } => {
            lemma_push(Seq::empty(), *element, x);
            assert(Seq::<TypeView>::empty().push(*element) == seq![*element]);
        },
        TypeView::Tuple(ts) => lemma_types(ts, x),
        TypeView::Array { item, .. } => {
            lemma_push(Seq::empty(), *item, x);
            assert(Seq::<TypeView>::empty().push(*item) == seq![*item]);
        },
        TypeView::MapOf { key, val, .. } => {
            lemma_push(Seq::empty(), *key, x);
            lemma_push(seq![*key], *val, x);
            assert(Seq::<TypeView>::empty().push(*key) == seq![*key]);
            assert(seq![*key].push(*val) == seq![*key, *val]);
        },
        TypeView::Struct { data, .. } => lemma_data(data, x),
        TypeView::Enum { variants, .. } => lemma_variants(variants, x),
        _ => {},
    }
}

/// Law: every direct part of a type is among the types it uses.
pub proof fn law_parts_are_used(v: TypeView, i: int)
    requires
        0 <= i < parts(v).len(),
    ensures
        mentions(v, parts(v)[i]),
{
    let p = parts(v)[i];
    assert(mentions(p, p));
    law_used_types_are_closed_under_parts(v, p);
}

} // verus!
