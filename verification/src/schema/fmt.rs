//! Formatting helper functionality
//!
//! This module provides ways of turning Data Model information into a human
//! readable output. What is written is stated over the view of a schema, [`pseudocode`].
use super::owned::{OwnedData, OwnedDataModelType, OwnedNamedField, OwnedVariant};
use super::view::{
    lemma_fields_view, lemma_types_view, lemma_variants_view, same_type, DataView, FieldView,
    TypeView, VariantView, copy_type, data_view, fields_view, type_view, types_view, variants_view,
};
use vstd::prelude::*;
use vstd::string::StringExecFns;

verus! {

/// Whether a schema of the shape `v` is a primitive.
pub open spec fn prim(v: TypeView) -> bool
    decreases v,
{
    match v {
        TypeView::Option(t) => prim(*t),
        TypeView::SeqOf { .. } => false,
        TypeView::Tuple(_) => false,
        TypeView::Array { item, count: _ } => prim(*item),
        TypeView::MapOf { key, val, .. } => prim(*key) && prim(*val),
        TypeView::Struct { .. } => false,
        TypeView::Enum { .. } => false,
        _ => true,
    }
}

/// Is this [`OwnedDataModelType`] a primitive?
pub fn is_prim(osdmty: &OwnedDataModelType) -> (r: bool)
    ensures
        r == prim(osdmty@),
    decreases *osdmty,
{
    match osdmty {
        OwnedDataModelType::Bool => true,
        OwnedDataModelType::I8 => true,
        OwnedDataModelType::U8 => true,
        OwnedDataModelType::I16 => true,
        OwnedDataModelType::I32 => true,
        OwnedDataModelType::I64 => true,
        OwnedDataModelType::I128 => true,
        OwnedDataModelType::U16 => true,
        OwnedDataModelType::U32 => true,
        OwnedDataModelType::U64 => true,
        OwnedDataModelType::U128 => true,
        OwnedDataModelType::Usize => true,
        OwnedDataModelType::Isize => true,
        OwnedDataModelType::F32 => true,
        OwnedDataModelType::F64 => true,
        OwnedDataModelType::Char => true,
        OwnedDataModelType::String { .. } => true,
        OwnedDataModelType::ByteArray { .. } => true,
        OwnedDataModelType::Option(ty) => is_prim(&**ty),
        OwnedDataModelType::Unit => true,
        OwnedDataModelType::SeqOf { .. } => false,
        OwnedDataModelType::Tuple(_) => false,
        OwnedDataModelType::Array { item, count: _ } => is_prim(&**item),
        OwnedDataModelType::MapOf { key, val, .. } => is_prim(&**key) && is_prim(&**val),
        OwnedDataModelType::Struct { .. } => false,
        OwnedDataModelType::Enum { .. } => false,
        OwnedDataModelType::Schema => true,
    }
}

// ---------------------------------------------------------------------------
// Pseudocode
// ---------------------------------------------------------------------------

/// The character of the decimal digit `d`.
pub open spec fn digit_char(d: nat) -> char {
    (48 + d) as char
}

/// The decimal digits of `n`, most significant first.
pub open spec fn decimal(n: nat) -> Seq<char>
    decreases n,
{
    if n < 10 {
        seq![digit_char(n)]
    } else {
        decimal(n / 10).push(digit_char(n % 10))
    }
}

/// Whether every type of `ts` is the same as the first.
pub open spec fn all_same(ts: Seq<TypeView>) -> bool {
    forall|i: int| 0 <= i < ts.len() ==> #[trigger] ts[i] == ts[0]
}

/// The pseudo-Rust text of a type of the shape `v`. A struct or enum is written out in full
/// at the top level, and by its name inside another type.
pub open spec fn pseudocode(v: TypeView, top_level: bool) -> Seq<char>
    decreases v,
{
    match v {
        TypeView::Bool => "bool"@,
        TypeView::I8 => "i8"@,
        TypeView::U8 => "u8"@,
        TypeView::I16 => "i16"@,
        TypeView::I32 => "i32"@,
        TypeView::I64 => "i64"@,
        TypeView::I128 => "i128"@,
        TypeView::U16 => "u16"@,
        TypeView::U32 => "u32"@,
        TypeView::U64 => "u64"@,
        TypeView::U128 => "u128"@,
        TypeView::Usize => "usize"@,
        TypeView::Isize => "isize"@,
        TypeView::F32 => "f32"@,
        TypeView::F64 => "f64"@,
        TypeView::Char => "char"@,
        TypeView::String { .. } => "String"@,
        TypeView::ByteArray { .. } => "[u8]"@,
        TypeView::Option(t) => "Option<"@ + pseudocode(*t, false) + ">"@,
        TypeView::Unit => "()"@,
        TypeView::SeqOf { element, .. } => "["@ + pseudocode(*element, false) + "]"@,
        TypeView::Tuple(ts) => if ts.len() == 0 {
            "()"@
        } else if all_same(ts) {
            // A tuple of one type throughout reads as a fixed size array.
            "["@ + pseudocode(ts[0], false) + "; "@ + decimal(ts.len()) + "]"@
        } else {
            "("@ + types_pseudocode(ts) + ")"@
        },
        TypeView::Array { item, count } => "["@ + pseudocode(*item, false) + "; "@ + decimal(
            count as nat,
        ) + "]"@,
        TypeView::MapOf { key, val, .. } => "Map<"@ + pseudocode(*key, false) + ", "@
            + pseudocode(*val, false) + ">"@,
        TypeView::Struct { name, data } => if top_level {
            "struct "@ + name + data_pseudocode(data)
        } else {
            name
        },
        TypeView::Enum { name, variants } => if top_level {
            "enum "@ + name + " { "@ + variants_pseudocode(variants) + " }"@
        } else {
            name
        },
        TypeView::Schema => "Schema"@,
    }
}

/// The types of `ts`, each as inside another type, separated by commas.
pub open spec fn types_pseudocode(ts: Seq<TypeView>) -> Seq<char>
    decreases ts,
{
    if ts.len() == 0 {
        Seq::empty()
    } else if ts.len() == 1 {
        pseudocode(ts[0], false)
    } else {
        types_pseudocode(ts.drop_last()) + ", "@ + pseudocode(ts.last(), false)
    }
}

/// The fields of `fs` as `name: type`, separated by commas.
pub open spec fn fields_pseudocode(fs: Seq<FieldView>) -> Seq<char>
    decreases fs,
{
    if fs.len() == 0 {
        Seq::empty()
    } else if fs.len() == 1 {
        fs[0].name + ": "@ + pseudocode(fs[0].ty, false)
    } else {
        fields_pseudocode(fs.drop_last()) + ", "@ + fs.last().name + ": "@ + pseudocode(
            fs.last().ty,
            false,
        )
    }
}

/// The contents of a struct or variant, as written after its name.
pub open spec fn data_pseudocode(d: DataView) -> Seq<char>
    decreases d,
{
    match d {
        DataView::Unit => Seq::empty(),
        DataView::Newtype(t) => "("@ + pseudocode(*t, false) + ")"@,
        DataView::Tuple(ts) => "("@ + types_pseudocode(ts) + ")"@,
        DataView::Struct(fs) => " { "@ + fields_pseudocode(fs) + " }"@,
    }
}

/// The variants of `vs`, each as its name and contents, separated by commas.
pub open spec fn variants_pseudocode(vs: Seq<VariantView>) -> Seq<char>
    decreases vs,
{
    if vs.len() == 0 {
        Seq::empty()
    } else if vs.len() == 1 {
        vs[0].name + data_pseudocode(vs[0].data)
    } else {
        variants_pseudocode(vs.drop_last()) + ", "@ + vs.last().name + data_pseudocode(
            vs.last().data,
        )
    }
}

/// The text of the decimal digit `d`.
fn digit_str(d: usize) -> (r: &'static str)
    requires
        d < 10,
    ensures
        r@ == seq![digit_char(d as nat)],
{
    proof {
        reveal_strlit("0");
        reveal_strlit("1");
        reveal_strlit("2");
        reveal_strlit("3");
        reveal_strlit("4");
        reveal_strlit("5");
        reveal_strlit("6");
        reveal_strlit("7");
        reveal_strlit("8");
        reveal_strlit("9");
    }
    match d {
        0 => "0",
        1 => "1",
        2 => "2",
        3 => "3",
        4 => "4",
        5 => "5",
        6 => "6",
        7 => "7",
        8 => "8",
        _ => "9",
    }
}

/// Write `n` in decimal.
fn push_decimal(buf: &mut String, n: usize)
    ensures
        final(buf)@ == old(buf)@ + decimal(n as nat),
    decreases n,
{
    if n >= 10 {
        push_decimal(buf, n / 10);
    }
    buf.append(digit_str(n % 10));
}

/// Format the contents of a struct or variant.
fn fmt_data(data: &OwnedData, buf: &mut String)
    ensures
        final(buf)@ == old(buf)@ + data_pseudocode(data@),
    decreases *data,
{
    match data {
        OwnedData::Unit => {},
        OwnedData::Newtype(inner) => {
            buf.append("(");
            fmt_owned_dmt_to_buf(&**inner, buf, false);
            buf.append(")");
        },
        OwnedData::Tuple(fields) => {
            buf.append("(");
            fmt_types(fields.as_slice(), buf);
            buf.append(")");
        },
        OwnedData::Struct(fields) => {
            buf.append(" { ");
            fmt_fields(fields.as_slice(), buf);
            buf.append(" }");
        },
    }
}

/// Format the types of `ts`, separated by commas.
fn fmt_types(ts: &[OwnedDataModelType], buf: &mut String)
    ensures
        final(buf)@ == old(buf)@ + types_pseudocode(types_view(ts@)),
    decreases ts@,
{
    proof {
        lemma_types_view(ts@);
    }
    let ghost start = buf@;
    let mut i: usize = 0;
    while i < ts.len()
        invariant
            i <= ts@.len(),
            types_view(ts@).len() == ts@.len(),
            forall|j: int| 0 <= j < ts@.len() ==> #[trigger] types_view(ts@)[j] == type_view(ts@[j]),
            buf@ == start + types_pseudocode(types_view(ts@).take(i as int)),
        decreases ts@.len() - i,
    {
        proof {
            assert(decreases_to!(ts@ => ts@[i as int]));
        }
        let ghost vs = types_view(ts@);
        if i > 0 {
            buf.append(", ");
        }
        fmt_owned_dmt_to_buf(&ts[i], buf, false);
        proof {
            assert(vs.take(i + 1).drop_last() =~= vs.take(i as int));
            assert(vs.take(i + 1).last() == vs[i as int]);
            if i == 0 {
                assert(vs.take(0) =~= Seq::<TypeView>::empty());
            }
        }
        i += 1;
    }
    assert(types_view(ts@).take(i as int) =~= types_view(ts@));
}

/// Format the fields of `fs` as `name: type`, separated by commas.
fn fmt_fields(fs: &[OwnedNamedField], buf: &mut String)
    ensures
        final(buf)@ == old(buf)@ + fields_pseudocode(fields_view(fs@)),
    decreases fs@,
{
    proof {
        lemma_fields_view(fs@);
    }
    let ghost start = buf@;
    let mut i: usize = 0;
    while i < fs.len()
        invariant
            i <= fs@.len(),
            fields_view(fs@).len() == fs@.len(),
            forall|j: int|
                0 <= j < fs@.len() ==> #[trigger] fields_view(fs@)[j] == (FieldView {
                    name: fs@[j].name@,
                    ty: type_view(fs@[j].ty),
                }),
            buf@ == start + fields_pseudocode(fields_view(fs@).take(i as int)),
        decreases fs@.len() - i,
    {
        proof {
            assert(decreases_to!(fs@ => fs@[i as int]));
        }
        let ghost vs = fields_view(fs@);
        if i > 0 {
            buf.append(", ");
        }
        buf.append(fs[i].name.as_str());
        buf.append(": ");
        fmt_owned_dmt_to_buf(&fs[i].ty, buf, false);
        proof {
            assert(vs.take(i + 1).drop_last() =~= vs.take(i as int));
            assert(vs.take(i + 1).last() == vs[i as int]);
            if i == 0 {
                assert(vs.take(0) =~= Seq::<FieldView>::empty());
            }
        }
        i += 1;
    }
    assert(fields_view(fs@).take(i as int) =~= fields_view(fs@));
}

/// Format the variants of `vs`, each as its name and contents, separated by commas.
fn fmt_variants(vs: &[OwnedVariant], buf: &mut String)
    ensures
        final(buf)@ == old(buf)@ + variants_pseudocode(variants_view(vs@)),
    decreases vs@,
{
    proof {
        lemma_variants_view(vs@);
    }
    let ghost start = buf@;
    let mut i: usize = 0;
    while i < vs.len()
        invariant
            i <= vs@.len(),
            variants_view(vs@).len() == vs@.len(),
            forall|j: int|
                0 <= j < vs@.len() ==> #[trigger] variants_view(vs@)[j] == (VariantView {
                    name: vs@[j].name@,
                    data: data_view(vs@[j].data),
                }),
            buf@ == start + variants_pseudocode(variants_view(vs@).take(i as int)),
        decreases vs@.len() - i,
    {
        proof {
            assert(decreases_to!(vs@ => vs@[i as int]));
        }
        let ghost ws = variants_view(vs@);
        if i > 0 {
            buf.append(", ");
        }
        buf.append(vs[i].name.as_str());
        fmt_data(&vs[i].data, buf);
        proof {
            assert(ws.take(i + 1).drop_last() =~= ws.take(i as int));
            assert(ws.take(i + 1).last() == ws[i as int]);
            if i == 0 {
                assert(ws.take(0) =~= Seq::<VariantView>::empty());
            }
        }
        i += 1;
    }
    assert(variants_view(vs@).take(i as int) =~= variants_view(vs@));
}

/// Whether every type of `ts` is the same as the first.
fn all_same_types(ts: &[OwnedDataModelType]) -> (r: bool)
    requires
        ts@.len() > 0,
    ensures
        r == all_same(types_view(ts@)),
{
    proof {
        lemma_types_view(ts@);
    }
    let mut i: usize = 0;
    while i < ts.len()
        invariant
            0 < ts@.len(),
            i <= ts@.len(),
            types_view(ts@).len() == ts@.len(),
            forall|j: int| 0 <= j < ts@.len() ==> #[trigger] types_view(ts@)[j] == type_view(ts@[j]),
            forall|j: int| 0 <= j < i ==> #[trigger] types_view(ts@)[j] == types_view(ts@)[0],
        decreases ts@.len() - i,
    {
        if !same_type(&ts[0], &ts[i]) {
            assert(types_view(ts@)[i as int] != types_view(ts@)[0]);
            return false;
        }
        i += 1;
    }
    true
}

/// Format an [`OwnedDataModelType`] to the given string.
///
/// Use `top_level = true` when this is a standalone type, and `top_level = false`
/// when this type is contained within another type
pub fn fmt_owned_dmt_to_buf(dmt: &OwnedDataModelType, buf: &mut String, top_level: bool)
    ensures
        final(buf)@ == old(buf)@ + pseudocode(dmt@, top_level),
    decreases *dmt,
{
    match dmt {
        OwnedDataModelType::Bool => buf.append("bool"),
        OwnedDataModelType::I8 => buf.append("i8"),
        OwnedDataModelType::U8 => buf.append("u8"),
        OwnedDataModelType::I16 => buf.append("i16"),
        OwnedDataModelType::I32 => buf.append("i32"),
        OwnedDataModelType::I64 => buf.append("i64"),
        OwnedDataModelType::I128 => buf.append("i128"),
        OwnedDataModelType::U16 => buf.append("u16"),
        OwnedDataModelType::U32 => buf.append("u32"),
        OwnedDataModelType::U64 => buf.append("u64"),
        OwnedDataModelType::U128 => buf.append("u128"),
        OwnedDataModelType::Usize => buf.append("usize"),
        OwnedDataModelType::Isize => buf.append("isize"),
        OwnedDataModelType::F32 => buf.append("f32"),
        OwnedDataModelType::F64 => buf.append("f64"),
        OwnedDataModelType::Char => buf.append("char"),
        OwnedDataModelType::String { .. } => buf.append("String"),
        OwnedDataModelType::ByteArray { .. } => buf.append("[u8]"),
        OwnedDataModelType::Option(ty) => {
            buf.append("Option<");
            fmt_owned_dmt_to_buf(&**ty, buf, false);
            buf.append(">");
        },
        OwnedDataModelType::Unit => buf.append("()"),
        OwnedDataModelType::SeqOf { element, .. } => {
            buf.append("[");
            fmt_owned_dmt_to_buf(&**element, buf, false);
            buf.append("]");
        },
        OwnedDataModelType::Tuple(vec) => {
            proof {
                lemma_types_view(vec@);
            }
            if vec.len() > 0 {
                if all_same_types(vec.as_slice()) {
                    // A tuple of one type throughout reads as a fixed size array.
                    buf.append("[");
                    fmt_owned_dmt_to_buf(&vec[0], buf, false);
                    buf.append("; ");
                    push_decimal(buf, vec.len());
                    buf.append("]");
                } else {
                    buf.append("(");
                    fmt_types(vec.as_slice(), buf);
                    buf.append(")");
                }
            } else {
                buf.append("()");
            }
        },
        OwnedDataModelType::Array { item, count } => {
            buf.append("[");
            fmt_owned_dmt_to_buf(&**item, buf, false);
            buf.append("; ");
            push_decimal(buf, *count);
            buf.append("]");
        },
        OwnedDataModelType::MapOf { key, val, .. } => {
            buf.append("Map<");
            fmt_owned_dmt_to_buf(&**key, buf, false);
            buf.append(", ");
            fmt_owned_dmt_to_buf(&**val, buf, false);
            buf.append(">");
        },
        OwnedDataModelType::Struct { name, data } => {
            if top_level {
                buf.append("struct ");
                buf.append(name.as_str());
                fmt_data(data, buf);
            } else {
                buf.append(name.as_str());
            }
        },
        OwnedDataModelType::Enum { name, variants } => {
            if top_level {
                buf.append("enum ");
                buf.append(name.as_str());
                buf.append(" { ");
                fmt_variants(variants.as_slice(), buf);
                buf.append(" }");
            } else {
                buf.append(name.as_str());
            }
        },
        OwnedDataModelType::Schema => buf.append("Schema"),
    }
}

impl OwnedDataModelType {
    /// Convert an `[OwnedDataModelType]` to a pseudo-Rust type format
    pub fn to_pseudocode(&self) -> (r: String)
        ensures
            r@ == pseudocode(self@, true),
    {
        let mut buf = String::new();
        fmt_owned_dmt_to_buf(self, &mut buf, true);
        buf
    }

    /// Collect all types used recursively by this type, each once.
    pub fn all_used_types(&self) -> (r: Vec<Self>)
        requires
            walkable(self@),
        ensures
            types_view(r@).no_duplicates(),
            forall|x: TypeView| types_view(r@).contains(x) <==> mentions(self@, x),
    {
        let mut buf: Vec<Self> = Vec::new();
        assert(types_view(buf@) =~= Seq::<TypeView>::empty());
        discover_tys(self, &mut buf);
        buf
    }
}

// ---------------------------------------------------------------------------
// Types used by a type
// ---------------------------------------------------------------------------

/// Whether `x` is the shape `v` itself or the shape of a type inside it.
pub open spec fn mentions(v: TypeView, x: TypeView) -> bool
    decreases v, 1nat,
{
    x == v || inner_mentions(v, x)
}

/// Whether `x` is the shape of a type inside `v`.
pub open spec fn inner_mentions(v: TypeView, x: TypeView) -> bool
    decreases v, 0nat,
{
    match v {
        TypeView::Option(t) => mentions(*t, x),
        TypeView::SeqOf { element, .. } => mentions(*element, x),
        TypeView::Tuple(ts) => types_mention(ts, x),
        TypeView::Array { item, .. } => mentions(*item, x),
        TypeView::MapOf { key, val, .. } => mentions(*key, x) || mentions(*val, x),
        TypeView::Struct { data, .. } => data_mentions(data, x),
        TypeView::Enum { variants, .. } => variants_mention(variants, x),
        _ => false,
    }
}

/// Whether one of `ts` [`mentions`] `x`.
pub open spec fn types_mention(ts: Seq<TypeView>, x: TypeView) -> bool
    decreases ts, 0nat,
{
    ts.len() > 0 && (types_mention(ts.drop_last(), x) || mentions(ts.last(), x))
}

/// Whether the contents of a struct or variant [`mentions`] `x`.
pub open spec fn data_mentions(d: DataView, x: TypeView) -> bool
    decreases d, 0nat,
{
    match d {
        DataView::Unit => false,
        DataView::Newtype(t) => mentions(*t, x),
        DataView::Tuple(ts) => types_mention(ts, x),
        DataView::Struct(fs) => fields_mention(fs, x),
    }
}

/// Whether the type of one of `fs` [`mentions`] `x`.
pub open spec fn fields_mention(fs: Seq<FieldView>, x: TypeView) -> bool
    decreases fs, 0nat,
{
    fs.len() > 0 && (fields_mention(fs.drop_last(), x) || mentions(fs.last().ty, x))
}

/// Whether the contents of one of `vs` [`mentions`] `x`.
pub open spec fn variants_mention(vs: Seq<VariantView>, x: TypeView) -> bool
    decreases vs, 0nat,
{
    vs.len() > 0 && (variants_mention(vs.drop_last(), x) || data_mentions(vs.last().data, x))
}

/// Whether the types in `v` can be collected: there is no `usize`, `isize` or `Schema` in it.
pub open spec fn walkable(v: TypeView) -> bool
    decreases v,
{
    match v {
        TypeView::Usize => false,
        TypeView::Isize => false,
        TypeView::Schema => false,
        TypeView::Option(t) => walkable(*t),
        TypeView::SeqOf { element, .. } => walkable(*element),
        TypeView::Tuple(ts) => types_walkable(ts),
        TypeView::Array { item, .. } => walkable(*item),
        TypeView::MapOf { key, val, .. } => walkable(*key) && walkable(*val),
        TypeView::Struct { data, .. } => data_walkable(data),
        TypeView::Enum { variants, .. } => variants_walkable(variants),
        _ => true,
    }
}

/// [`walkable`] for each of `ts`.
pub open spec fn types_walkable(ts: Seq<TypeView>) -> bool
    decreases ts,
{
    ts.len() > 0 ==> types_walkable(ts.drop_last()) && walkable(ts.last())
}

/// [`walkable`] for the contents of a struct or variant.
pub open spec fn data_walkable(d: DataView) -> bool
    decreases d,
{
    match d {
        DataView::Unit => true,
        DataView::Newtype(t) => walkable(*t),
        DataView::Tuple(ts) => types_walkable(ts),
        DataView::Struct(fs) => fields_walkable(fs),
    }
}

/// [`walkable`] for the type of each of `fs`.
pub open spec fn fields_walkable(fs: Seq<FieldView>) -> bool
    decreases fs,
{
    fs.len() > 0 ==> fields_walkable(fs.drop_last()) && walkable(fs.last().ty)
}

/// [`walkable`] for the contents of each of `vs`.
pub open spec fn variants_walkable(vs: Seq<VariantView>) -> bool
    decreases vs,
{
    vs.len() > 0 ==> variants_walkable(vs.drop_last()) && data_walkable(vs.last().data)
}

/// Add `ty` to `set` unless a type the same as it is there.
fn insert_type(ty: &OwnedDataModelType, set: &mut Vec<OwnedDataModelType>)
    requires
        types_view(old(set)@).no_duplicates(),
    ensures
        types_view(final(set)@).no_duplicates(),
        forall|x: TypeView|
            #![trigger types_view(final(set)@).contains(x)]
            types_view(final(set)@).contains(x) <==> (types_view(old(set)@).contains(x) || x
                == ty@),
{
    proof {
        lemma_types_view(set@);
    }
    let mut i: usize = 0;
    while i < set.len()
        invariant
            i <= set@.len(),
            set@ == old(set)@,
            types_view(old(set)@).no_duplicates(),
            types_view(set@).len() == set@.len(),
            forall|j: int| 0 <= j < set@.len() ==> #[trigger] types_view(set@)[j] == type_view(set@[j]),
            forall|j: int| 0 <= j < i ==> #[trigger] types_view(set@)[j] != ty@,
        decreases set@.len() - i,
    {
        if same_type(&set[i], ty) {
            assert(types_view(set@)[i as int] == ty@);
            return;
        }
        i += 1;
    }
    let ghost before = set@;
    set.push(copy_type(ty));
    proof {
        assert(set@.drop_last() == before);
        let vs = types_view(set@);
        assert(vs == types_view(before).push(ty@));
        assert(!types_view(before).contains(ty@));
        assert forall|x: TypeView| vs.contains(x) <==> (types_view(before).contains(x) || x == ty@) by {
            if vs.contains(x) {
                let k = choose|k: int| 0 <= k < vs.len() && vs[k] == x;
                if k < types_view(before).len() {
                    assert(types_view(before)[k] == x);
                }
            }
            if types_view(before).contains(x) {
                let k = choose|k: int| 0 <= k < types_view(before).len() && types_view(before)[k] == x;
                assert(vs[k] == x);
            }
            if x == ty@ {
                assert(vs[vs.len() - 1] == x);
            }
        }
    }
}

/// Collect unique types mentioned by this [`OwnedDataModelType`]
pub fn discover_tys(ty: &OwnedDataModelType, set: &mut Vec<OwnedDataModelType>)
    requires
        walkable(ty@),
        types_view(old(set)@).no_duplicates(),
    ensures
        types_view(final(set)@).no_duplicates(),
        forall|x: TypeView|
            #![trigger types_view(final(set)@).contains(x)]
            types_view(final(set)@).contains(x) <==> (types_view(old(set)@).contains(x)
                || mentions(ty@, x)),
    decreases *ty, 1nat,
{
    let ghost s0 = types_view(set@);
    insert_type(ty, set);
    let ghost s1 = types_view(set@);
    discover_inner(ty, set);
    proof {
        assert forall|x: TypeView|
            types_view(set@).contains(x) <==> (s0.contains(x) || mentions(ty@, x)) by {
            assert(s1.contains(x) <==> (s0.contains(x) || x == ty@));
        }
    }
}

/// Collect the types inside `ty`.
fn discover_inner(ty: &OwnedDataModelType, set: &mut Vec<OwnedDataModelType>)
    requires
        walkable(ty@),
        types_view(old(set)@).no_duplicates(),
    ensures
        types_view(final(set)@).no_duplicates(),
        forall|x: TypeView|
            #![trigger types_view(final(set)@).contains(x)]
            types_view(final(set)@).contains(x) <==> (types_view(old(set)@).contains(x)
                || inner_mentions(ty@, x)),
    decreases *ty, 0nat,
{
    match ty {
        OwnedDataModelType::Option(inner) => {
            discover_tys(&**inner, set);
        },
        OwnedDataModelType::SeqOf { element, .. } => {
            discover_tys(&**element, set);
        },
        OwnedDataModelType::Tuple(vec) => {
            discover_types(vec.as_slice(), set);
        },
        OwnedDataModelType::Array { item, count: _ } => {
            discover_tys(&**item, set);
        },
        OwnedDataModelType::MapOf { key, val, .. } => {
            let ghost s0 = types_view(set@);
            discover_tys(&**key, set);
            let ghost s1 = types_view(set@);
            discover_tys(&**val, set);
            proof {
                assert forall|x: TypeView|
                    types_view(set@).contains(x) <==> (s0.contains(x) || inner_mentions(ty@, x)) by {
                    assert(s1.contains(x) <==> (s0.contains(x) || mentions(key@, x)));
                }
            }
        },
        OwnedDataModelType::Struct { name: _, data } => {
            discover_tys_data(data, set);
        },
        OwnedDataModelType::Enum { name: _, variants } => {
            discover_variants(variants.as_slice(), set);
        },
        _ => {},
    }
}

/// Collect the types mentioned by the contents of a struct or variant.
fn discover_tys_data(data: &OwnedData, set: &mut Vec<OwnedDataModelType>)
    requires
        data_walkable(data@),
        types_view(old(set)@).no_duplicates(),
    ensures
        types_view(final(set)@).no_duplicates(),
        forall|x: TypeView|
            #![trigger types_view(final(set)@).contains(x)]
            types_view(final(set)@).contains(x) <==> (types_view(old(set)@).contains(x)
                || data_mentions(data@, x)),
    decreases *data, 0nat,
{
    match data {
        OwnedData::Unit => {},
        OwnedData::Newtype(inner) => discover_tys(&**inner, set),
        OwnedData::Tuple(elements) => discover_types(elements.as_slice(), set),
        OwnedData::Struct(fields) => discover_fields(fields.as_slice(), set),
    }
}

/// Collect the types mentioned by each of `ts`.
fn discover_types(ts: &[OwnedDataModelType], set: &mut Vec<OwnedDataModelType>)
    requires
        types_walkable(types_view(ts@)),
        types_view(old(set)@).no_duplicates(),
    ensures
        types_view(final(set)@).no_duplicates(),
        forall|x: TypeView|
            #![trigger types_view(final(set)@).contains(x)]
            types_view(final(set)@).contains(x) <==> (types_view(old(set)@).contains(x)
                || types_mention(types_view(ts@), x)),
    decreases ts@, 0nat,
{
    let ghost start = types_view(set@);
    let mut i: usize = 0;
    while i < ts.len()
        invariant
            i <= ts@.len(),
            types_walkable(types_view(ts@)),
            types_view(set@).no_duplicates(),
            forall|x: TypeView|
                #![trigger types_view(set@).contains(x)]
                types_view(set@).contains(x) <==> (start.contains(x) || types_mention(
                    types_view(ts@.take(i as int)),
                    x,
                )),
        decreases ts@.len() - i,
    {
        proof {
            assert(decreases_to!(ts@ => ts@[i as int]));
            assert(ts@.take(i + 1).drop_last() =~= ts@.take(i as int));
            lemma_types_walkable_prefix(ts@, i + 1);
        }
        let ghost before = types_view(set@);
        discover_tys(&ts[i], set);
        proof {
            lemma_types_mention_step(ts@, i as int);
            assert forall|x: TypeView|
                types_view(set@).contains(x) <==> (start.contains(x) || types_mention(
                    types_view(ts@.take(i + 1)),
                    x,
                )) by {
                assert(before.contains(x) <==> (start.contains(x) || types_mention(
                    types_view(ts@.take(i as int)),
                    x,
                )));
            }
        }
        i += 1;
    }
    assert(ts@.take(i as int) =~= ts@);
}

/// Collect the types mentioned by the type of each of `fs`.
fn discover_fields(fs: &[OwnedNamedField], set: &mut Vec<OwnedDataModelType>)
    requires
        fields_walkable(fields_view(fs@)),
        types_view(old(set)@).no_duplicates(),
    ensures
        types_view(final(set)@).no_duplicates(),
        forall|x: TypeView|
            #![trigger types_view(final(set)@).contains(x)]
            types_view(final(set)@).contains(x) <==> (types_view(old(set)@).contains(x)
                || fields_mention(fields_view(fs@), x)),
    decreases fs@, 0nat,
{
    let ghost start = types_view(set@);
    let mut i: usize = 0;
    while i < fs.len()
        invariant
            i <= fs@.len(),
            fields_walkable(fields_view(fs@)),
            types_view(set@).no_duplicates(),
            forall|x: TypeView|
                #![trigger types_view(set@).contains(x)]
                types_view(set@).contains(x) <==> (start.contains(x) || fields_mention(
                    fields_view(fs@.take(i as int)),
                    x,
                )),
        decreases fs@.len() - i,
    {
        proof {
            assert(decreases_to!(fs@ => fs@[i as int]));
            assert(fs@.take(i + 1).drop_last() =~= fs@.take(i as int));
            lemma_fields_walkable_prefix(fs@, i + 1);
        }
        let ghost before = types_view(set@);
        discover_tys(&fs[i].ty, set);
        proof {
            lemma_fields_mention_step(fs@, i as int);
            assert forall|x: TypeView|
                types_view(set@).contains(x) <==> (start.contains(x) || fields_mention(
                    fields_view(fs@.take(i + 1)),
                    x,
                )) by {
                assert(before.contains(x) <==> (start.contains(x) || fields_mention(
                    fields_view(fs@.take(i as int)),
                    x,
                )));
            }
        }
        i += 1;
    }
    assert(fs@.take(i as int) =~= fs@);
}

/// Collect the types mentioned by the contents of each of `vs`.
fn discover_variants(vs: &[OwnedVariant], set: &mut Vec<OwnedDataModelType>)
    requires
        variants_walkable(variants_view(vs@)),
        types_view(old(set)@).no_duplicates(),
    ensures
        types_view(final(set)@).no_duplicates(),
        forall|x: TypeView|
            #![trigger types_view(final(set)@).contains(x)]
            types_view(final(set)@).contains(x) <==> (types_view(old(set)@).contains(x)
                || variants_mention(variants_view(vs@), x)),
    decreases vs@, 0nat,
{
    let ghost start = types_view(set@);
    let mut i: usize = 0;
    while i < vs.len()
        invariant
            i <= vs@.len(),
            variants_walkable(variants_view(vs@)),
            types_view(set@).no_duplicates(),
            forall|x: TypeView|
                #![trigger types_view(set@).contains(x)]
                types_view(set@).contains(x) <==> (start.contains(x) || variants_mention(
                    variants_view(vs@.take(i as int)),
                    x,
                )),
        decreases vs@.len() - i,
    {
        proof {
            assert(decreases_to!(vs@ => vs@[i as int]));
            assert(vs@.take(i + 1).drop_last() =~= vs@.take(i as int));
            lemma_variants_walkable_prefix(vs@, i + 1);
        }
        let ghost before = types_view(set@);
        discover_tys_data(&vs[i].data, set);
        proof {
            lemma_variants_mention_step(vs@, i as int);
            assert forall|x: TypeView|
                types_view(set@).contains(x) <==> (start.contains(x) || variants_mention(
                    variants_view(vs@.take(i + 1)),
                    x,
                )) by {
                assert(before.contains(x) <==> (start.contains(x) || variants_mention(
                    variants_view(vs@.take(i as int)),
                    x,
                )));
            }
        }
        i += 1;
    }
    assert(vs@.take(i as int) =~= vs@);
}

/// The prefixes of walkable types are walkable, and so is each of them.
proof fn lemma_types_walkable_prefix(ts: Seq<OwnedDataModelType>, n: int)
    requires
        0 < n <= ts.len(),
        types_walkable(types_view(ts)),
    ensures
        types_walkable(types_view(ts.take(n))),
        walkable(type_view(ts[n - 1])),
    decreases ts.len(),
{
    assert(types_view(ts).drop_last() =~= types_view(ts.drop_last()));
    if n < ts.len() {
        assert(ts.drop_last().take(n) =~= ts.take(n));
        lemma_types_walkable_prefix(ts.drop_last(), n);
    } else {
        assert(ts.take(n) =~= ts);
    }
}

/// [`lemma_types_walkable_prefix`] for fields.
proof fn lemma_fields_walkable_prefix(fs: Seq<OwnedNamedField>, n: int)
    requires
        0 < n <= fs.len(),
        fields_walkable(fields_view(fs)),
    ensures
        fields_walkable(fields_view(fs.take(n))),
        walkable(type_view(fs[n - 1].ty)),
    decreases fs.len(),
{
    assert(fields_view(fs).drop_last() =~= fields_view(fs.drop_last()));
    if n < fs.len() {
        assert(fs.drop_last().take(n) =~= fs.take(n));
        lemma_fields_walkable_prefix(fs.drop_last(), n);
    } else {
        assert(fs.take(n) =~= fs);
    }
}

/// [`lemma_types_walkable_prefix`] for variants.
proof fn lemma_variants_walkable_prefix(vs: Seq<OwnedVariant>, n: int)
    requires
        0 < n <= vs.len(),
        variants_walkable(variants_view(vs)),
    ensures
        variants_walkable(variants_view(vs.take(n))),
        data_walkable(data_view(vs[n - 1].data)),
    decreases vs.len(),
{
    assert(variants_view(vs).drop_last() =~= variants_view(vs.drop_last()));
    if n < vs.len() {
        assert(vs.drop_last().take(n) =~= vs.take(n));
        lemma_variants_walkable_prefix(vs.drop_last(), n);
    } else {
        assert(vs.take(n) =~= vs);
    }
}

/// What the first `i + 1` of `ts` mention: what the first `i` mention, and what `ts[i]` does.
proof fn lemma_types_mention_step(ts: Seq<OwnedDataModelType>, i: int)
    requires
        0 <= i < ts.len(),
    ensures
        forall|x: TypeView|
            #[trigger] types_mention(types_view(ts.take(i + 1)), x) == (types_mention(
                types_view(ts.take(i)),
                x,
            ) || mentions(type_view(ts[i]), x)),
{
    assert(ts.take(i + 1).drop_last() =~= ts.take(i));
    let s = types_view(ts.take(i));
    assert(types_view(ts.take(i + 1)) == s.push(type_view(ts[i])));
    assert(s.push(type_view(ts[i])).drop_last() =~= s);
}

/// [`lemma_types_mention_step`] for fields.
proof fn lemma_fields_mention_step(fs: Seq<OwnedNamedField>, i: int)
    requires
        0 <= i < fs.len(),
    ensures
        forall|x: TypeView|
            #[trigger] fields_mention(fields_view(fs.take(i + 1)), x) == (fields_mention(
                fields_view(fs.take(i)),
                x,
            ) || mentions(type_view(fs[i].ty), x)),
{
    assert(fs.take(i + 1).drop_last() =~= fs.take(i));
    let s = fields_view(fs.take(i));
    let f = FieldView { name: fs[i].name@, ty: type_view(fs[i].ty) };
    assert(fields_view(fs.take(i + 1)) == s.push(f));
    assert(s.push(f).drop_last() =~= s);
}

/// [`lemma_types_mention_step`] for variants.
proof fn lemma_variants_mention_step(vs: Seq<OwnedVariant>, i: int)
    requires
        0 <= i < vs.len(),
    ensures
        forall|x: TypeView|
            #[trigger] variants_mention(variants_view(vs.take(i + 1)), x) == (variants_mention(
                variants_view(vs.take(i)),
                x,
            ) || data_mentions(data_view(vs[i].data), x)),
{
    assert(vs.take(i + 1).drop_last() =~= vs.take(i));
    let s = variants_view(vs.take(i));
    let v = VariantView { name: vs[i].name@, data: data_view(vs[i].data) };
    assert(variants_view(vs.take(i + 1)) == s.push(v));
    assert(s.push(v).drop_last() =~= s);
}

} // verus!
