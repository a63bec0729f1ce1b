//! Reading an interned entry back out of the tables, and the law that an entry matches a
//! schema only when it reads back as that schema.
use super::direct::{lemma_first_occurrence_direct, lemma_used_match_direct};
use super::str_intern::occurs_at;
use super::{
    first_occurrence, data_match, dmt_match, fields_match, intern_dmt, intern_entry, interned_str, name_bytes,
    prim_ref, ref_dmt, tuple_match, used_match, variants_match, InternData, InternDataModelType,
    InternDataModelTypeRef, InternState,
};
use crate::schema::view::{DataView, FieldView, TypeView, VariantView};
use crate::schema::{Data, DataModelType, NamedField, Variant};
use vstd::prelude::*;
use vstd::string::StringSliceAdditionalSpecFns;
use vstd::utf8::{decode_utf8, encode_utf8_decode_utf8};

verus! {

// ---------------------------------------------------------------------------
// A schema without its length bounds
// ---------------------------------------------------------------------------

/// The shape of a schema with every length bound left out (interned entries keep none).
pub open spec fn unbounded_view(d: DataModelType) -> TypeView
    decreases d, 0nat,
{
    match d {
        DataModelType::Bool => TypeView::Bool,
        DataModelType::I8 => TypeView::I8,
        DataModelType::U8 => TypeView::U8,
        DataModelType::I16 => TypeView::I16,
        DataModelType::I32 => TypeView::I32,
        DataModelType::I64 => TypeView::I64,
        DataModelType::I128 => TypeView::I128,
        DataModelType::U16 => TypeView::U16,
        DataModelType::U32 => TypeView::U32,
        DataModelType::U64 => TypeView::U64,
        DataModelType::U128 => TypeView::U128,
        DataModelType::Usize => TypeView::Usize,
        DataModelType::Isize => TypeView::Isize,
        DataModelType::F32 => TypeView::F32,
        DataModelType::F64 => TypeView::F64,
        DataModelType::Char => TypeView::Char,
        DataModelType::String { .. } => TypeView::String { max_len: None },
        DataModelType::ByteArray { .. } => TypeView::ByteArray { max_len: None },
        DataModelType::Option(t) => TypeView::Option(Box::new(unbounded_view(*t))),
        DataModelType::Unit => TypeView::Unit,
        DataModelType::SeqOf { element, .. } => TypeView::SeqOf {
            element: Box::new(unbounded_view(*element)),
            max_len: None,
        },
        DataModelType::Tuple(ts) => TypeView::Tuple(unbounded_types(ts@, 0)),
        DataModelType::Array { item, count } => TypeView::Array {
            item: Box::new(unbounded_view(*item)),
            count,
        },
        DataModelType::MapOf { key, val, .. } => TypeView::MapOf {
            key: Box::new(unbounded_view(*key)),
            val: Box::new(unbounded_view(*val)),
            max_len: None,
        },
        DataModelType::Struct { name, data } => TypeView::Struct {
            name: name@,
            data: unbounded_data(data),
        },
        DataModelType::Enum { name, variants } => TypeView::Enum {
            name: name@,
            variants: unbounded_variants(variants@, 0),
        },
        DataModelType::Schema => TypeView::Schema,
    }
}

/// [`unbounded_view`] of the contents of a struct or variant.
pub open spec fn unbounded_data(d: Data) -> DataView
    decreases d, 0nat,
{
    match d {
        Data::Unit => DataView::Unit,
        Data::Newtype(t) => DataView::Newtype(Box::new(unbounded_view(*t))),
        Data::Tuple(ts) => DataView::Tuple(unbounded_types(ts@, 0)),
        Data::Struct(fs) => DataView::Struct(unbounded_fields(fs@, 0)),
    }
}

/// [`unbounded_view`] of the types of `ts` from the `c`-th on.
pub open spec fn unbounded_types(ts: Seq<DataModelType>, c: nat) -> Seq<TypeView>
    decreases ts, ts.len() - c,
{
    if c >= ts.len() {
        Seq::empty()
    } else {
        seq![unbounded_view(ts[c as int])] + unbounded_types(ts, c + 1)
    }
}

/// [`unbounded_view`] of the fields of `fs` from the `c`-th on.
pub open spec fn unbounded_fields(fs: Seq<NamedField>, c: nat) -> Seq<FieldView>
    decreases fs, fs.len() - c,
{
    if c >= fs.len() {
        Seq::empty()
    } else {
        seq![FieldView { name: fs[c as int].name@, ty: unbounded_view(fs[c as int].ty) }]
            + unbounded_fields(fs, c + 1)
    }
}

/// [`unbounded_view`] of the variants of `vs` from the `c`-th on.
pub open spec fn unbounded_variants(vs: Seq<Variant>, c: nat) -> Seq<VariantView>
    decreases vs, vs.len() - c,
{
    if c >= vs.len() {
        Seq::empty()
    } else {
        seq![VariantView { name: vs[c as int].name@, data: unbounded_data(vs[c as int].data) }]
            + unbounded_variants(vs, c + 1)
    }
}

// ---------------------------------------------------------------------------
// How deep a schema is
// ---------------------------------------------------------------------------

/// A number of steps that reading a schema back out of the tables takes at most.
pub open spec fn depth(d: DataModelType) -> nat
    decreases d, 0nat,
{
    match d {
        DataModelType::Option(t) => 1 + depth(*t),
        DataModelType::SeqOf { element, .. } => 1 + depth(*element),
        DataModelType::Tuple(ts) => 2 + types_depth(ts@, 0),
        DataModelType::Array { item, .. } => 1 + depth(*item),
        DataModelType::MapOf { key, val, .. } => 1 + if depth(*key) >= depth(*val) {
            depth(*key)
        } else {
            depth(*val)
        },
        DataModelType::Struct { data, .. } => 1 + data_depth(data),
        DataModelType::Enum { variants, .. } => 2 + variants_depth(variants@, 0),
        _ => 1,
    }
}

/// [`depth`] for the contents of a struct or variant.
pub open spec fn data_depth(d: Data) -> nat
    decreases d, 0nat,
{
    match d {
        Data::Unit => 1,
        Data::Newtype(t) => 1 + depth(*t),
        Data::Tuple(ts) => 2 + types_depth(ts@, 0),
        Data::Struct(fs) => 2 + fields_depth(fs@, 0),
    }
}

/// The largest [`depth`] of the types of `ts` from the `c`-th on.
pub open spec fn types_depth(ts: Seq<DataModelType>, c: nat) -> nat
    decreases ts, ts.len() - c,
{
    if c >= ts.len() {
        0
    } else {
        let a = depth(ts[c as int]);
        let b = types_depth(ts, c + 1);
        if a >= b { a } else { b }
    }
}

/// The largest [`depth`] of the types of the fields of `fs` from the `c`-th on.
pub open spec fn fields_depth(fs: Seq<NamedField>, c: nat) -> nat
    decreases fs, fs.len() - c,
{
    if c >= fs.len() {
        0
    } else {
        let a = depth(fs[c as int].ty);
        let b = fields_depth(fs, c + 1);
        if a >= b { a } else { b }
    }
}

/// The largest [`data_depth`] of the variants of `vs` from the `c`-th on.
pub open spec fn variants_depth(vs: Seq<Variant>, c: nat) -> nat
    decreases vs, vs.len() - c,
{
    if c >= vs.len() {
        0
    } else {
        let a = data_depth(vs[c as int].data);
        let b = variants_depth(vs, c + 1);
        if a >= b { a } else { b }
    }
}

// ---------------------------------------------------------------------------
// Reading entries back
// ---------------------------------------------------------------------------

/// The schema the entry `e` stands for in `st`, read in at most `fuel` steps: references
/// are followed into the type table, the items of a tuple are the type entries of its group,
/// fields and variants are those of their groups, and names are the text they point to.
/// `None` where a reference, an entry or a name is not there, or the steps run out.
pub open spec fn entry_view(st: InternState, e: InternDataModelType, fuel: nat) -> Option<TypeView>
    decreases fuel, 1nat,
{
    if fuel == 0 {
        None
    } else {
        match e {
            InternDataModelType::Bool => Some(TypeView::Bool),
            InternDataModelType::I8 => Some(TypeView::I8),
            InternDataModelType::U8 => Some(TypeView::U8),
            InternDataModelType::I16 => Some(TypeView::I16),
            InternDataModelType::I32 => Some(TypeView::I32),
            InternDataModelType::I64 => Some(TypeView::I64),
            InternDataModelType::I128 => Some(TypeView::I128),
            InternDataModelType::U16 => Some(TypeView::U16),
            InternDataModelType::U32 => Some(TypeView::U32),
            InternDataModelType::U64 => Some(TypeView::U64),
            InternDataModelType::U128 => Some(TypeView::U128),
            InternDataModelType::Usize => Some(TypeView::Usize),
            InternDataModelType::Isize => Some(TypeView::Isize),
            InternDataModelType::F32 => Some(TypeView::F32),
            InternDataModelType::F64 => Some(TypeView::F64),
            InternDataModelType::Char => Some(TypeView::Char),
            InternDataModelType::String => Some(TypeView::String { max_len: None }),
            InternDataModelType::ByteArray => Some(TypeView::ByteArray { max_len: None }),
            InternDataModelType::Unit => Some(TypeView::Unit),
            InternDataModelType::Option(r) => match ref_view(st, r, (fuel - 1) as nat) {
                Some(t) => Some(TypeView::Option(Box::new(t))),
                None => None,
            },
            InternDataModelType::SeqOf(r) => match ref_view(st, r, (fuel - 1) as nat) {
                Some(t) => Some(TypeView::SeqOf { element: Box::new(t), max_len: None }),
                None => None,
            },
            InternDataModelType::Tuple(g) => match types_group(
                st,
                g.offset as nat,
                g.len as nat,
                0,
                (fuel - 1) as nat,
            ) {
                Some(ts) => Some(TypeView::Tuple(ts)),
                None => None,
            },
            InternDataModelType::Array { item, count } => match ref_view(
                st,
                item,
                (fuel - 1) as nat,
            ) {
                Some(t) => Some(TypeView::Array { item: Box::new(t), count }),
                None => None,
            },
            InternDataModelType::MapOf { key, val } => match (
                ref_view(st, key, (fuel - 1) as nat),
                ref_view(st, val, (fuel - 1) as nat),
            ) {
                (Some(k), Some(v)) => Some(
                    TypeView::MapOf { key: Box::new(k), val: Box::new(v), max_len: None },
                ),
                _ => None,
            },
            InternDataModelType::Struct { name, data } => match (
                name_bytes(st, name),
                data_read(st, data, (fuel - 1) as nat),
            ) {
                (Some(nb), Some(dv)) => Some(TypeView::Struct { name: decode_utf8(nb), data: dv }),
                _ => None,
            },
            InternDataModelType::Enum { name, variants } => match (
                name_bytes(st, name),
                variants_group(st, variants.offset as nat, variants.len as nat, 0, (fuel - 1) as nat),
            ) {
                (Some(nb), Some(vs)) => Some(TypeView::Enum { name: decode_utf8(nb), variants: vs }),
                _ => None,
            },
            InternDataModelType::Schema => None,
        }
    }
}

/// The schema the reference `r` stands for, read in at most `fuel` steps.
pub open spec fn ref_view(st: InternState, r: InternDataModelTypeRef, fuel: nat) -> Option<TypeView>
    decreases fuel, 2nat,
{
    match ref_dmt(st, r) {
        Some(e) => entry_view(st, e, fuel),
        None => None,
    }
}

/// The contents of a struct or variant that `d` stands for, read in at most `fuel` steps.
pub open spec fn data_read(st: InternState, d: InternData, fuel: nat) -> Option<DataView>
    decreases fuel, 1nat,
{
    if fuel == 0 {
        None
    } else {
        match d {
            InternData::Unit => Some(DataView::Unit),
            InternData::Newtype(r) => match ref_view(st, r, (fuel - 1) as nat) {
                Some(t) => Some(DataView::Newtype(Box::new(t))),
                None => None,
            },
            InternData::Tuple(g) => match types_group(
                st,
                g.offset as nat,
                g.len as nat,
                0,
                (fuel - 1) as nat,
            ) {
                Some(ts) => Some(DataView::Tuple(ts)),
                None => None,
            },
            InternData::Struct(g) => match fields_group(
                st,
                g.offset as nat,
                g.len as nat,
                0,
                (fuel - 1) as nat,
            ) {
                Some(fs) => Some(DataView::Struct(fs)),
                None => None,
            },
        }
    }
}

/// The type entries in use at `off + c` up to `off + len`, each read back.
pub open spec fn types_group(st: InternState, off: nat, len: nat, c: nat, fuel: nat) -> Option<
    Seq<TypeView>,
>
    decreases fuel, 3 + len - c,
{
    if c >= len {
        Some(Seq::empty())
    } else if fuel == 0 || off + c >= st.dmts_len {
        None
    } else {
        match (
            entry_view(st, st.dmts[(off + c) as int], (fuel - 1) as nat),
            types_group(st, off, len, c + 1, fuel),
        ) {
            (Some(t), Some(rest)) => Some(seq![t] + rest),
            _ => None,
        }
    }
}

/// The named field entries in use at `off + c` up to `off + len`, each read back.
pub open spec fn fields_group(st: InternState, off: nat, len: nat, c: nat, fuel: nat) -> Option<
    Seq<FieldView>,
>
    decreases fuel, 3 + len - c,
{
    if c >= len {
        Some(Seq::empty())
    } else if fuel == 0 || off + c >= st.nfs_len {
        None
    } else {
        let f = st.nfs[(off + c) as int];
        match (
            name_bytes(st, f.name),
            ref_view(st, f.ty, (fuel - 1) as nat),
            fields_group(st, off, len, c + 1, fuel),
        ) {
            (Some(nb), Some(t), Some(rest)) => Some(
                seq![FieldView { name: decode_utf8(nb), ty: t }] + rest,
            ),
            _ => None,
        }
    }
}

/// The variant entries in use at `off + c` up to `off + len`, each read back.
pub open spec fn variants_group(st: InternState, off: nat, len: nat, c: nat, fuel: nat) -> Option<
    Seq<VariantView>,
>
    decreases fuel, 3 + len - c,
{
    if c >= len {
        Some(Seq::empty())
    } else if fuel == 0 || off + c >= st.vnts_len {
        None
    } else {
        let v = st.vnts[(off + c) as int];
        match (
            name_bytes(st, v.name),
            data_read(st, v.data, (fuel - 1) as nat),
            variants_group(st, off, len, c + 1, fuel),
        ) {
            (Some(nb), Some(d), Some(rest)) => Some(
                seq![VariantView { name: decode_utf8(nb), data: d }] + rest,
            ),
            _ => None,
        }
    }
}

// ---------------------------------------------------------------------------
// Matching means reading back as the schema
// ---------------------------------------------------------------------------

/// A name matches when its bytes are those of the text, so it reads back as that text.
proof fn lemma_name(nb: Seq<u8>, s: &str)
    requires
        nb == s.spec_bytes(),
    ensures
        decode_utf8(nb) == s@,
{
    encode_utf8_decode_utf8(s@);
}

proof fn lemma_dmt(st: InternState, d: DataModelType, e: InternDataModelType, fuel: nat)
    requires
        dmt_match(st, d, e) == Some(true),
        fuel >= depth(d),
    ensures
        entry_view(st, e, fuel) == Some(unbounded_view(d)),
    decreases d, 0nat,
{
    match (e, d) {
        (InternDataModelType::Option(r), DataModelType::Option(t)) => {
            lemma_dmt(st, *t, ref_dmt(st, r).unwrap(), (fuel - 1) as nat);
        },
        (InternDataModelType::SeqOf(r), DataModelType::SeqOf { element, .. }) => {
            lemma_dmt(st, *element, ref_dmt(st, r).unwrap(), (fuel - 1) as nat);
        },
        (InternDataModelType::Tuple(g), DataModelType::Tuple(ts)) => {
            lemma_tuple(st, ts@, g.offset as nat, 0, (fuel - 1) as nat);
        },
        (InternDataModelType::Array { item, .. }, DataModelType::Array { item: di, .. }) => {
            lemma_dmt(st, *di, ref_dmt(st, item).unwrap(), (fuel - 1) as nat);
        },
        (InternDataModelType::MapOf { key, val }, DataModelType::MapOf { key: dk, val: dv, .. }) => {
            lemma_dmt(st, *dk, ref_dmt(st, key).unwrap(), (fuel - 1) as nat);
            lemma_dmt(st, *dv, ref_dmt(st, val).unwrap(), (fuel - 1) as nat);
        },
        (InternDataModelType::Struct { name, data }, DataModelType::Struct { name: dn, data: dd }) => {
            lemma_name(name_bytes(st, name).unwrap(), dn);
            lemma_data(st, dd, data, (fuel - 1) as nat);
        },
        (InternDataModelType::Enum { name, variants }, DataModelType::Enum { name: dn, variants: dv }) => {
            lemma_name(name_bytes(st, name).unwrap(), dn);
            lemma_variants(st, dv@, variants.offset as nat, 0, (fuel - 1) as nat);
        },
        _ => {},
    }
}

proof fn lemma_data(st: InternState, d: Data, i: InternData, fuel: nat)
    requires
        data_match(st, d, i) == Some(true),
        fuel >= data_depth(d),
    ensures
        data_read(st, i, fuel) == Some(unbounded_data(d)),
    decreases d, 0nat,
{
    match (d, i) {
        (Data::Newtype(t), InternData::Newtype(r)) => {
            lemma_dmt(st, *t, ref_dmt(st, r).unwrap(), (fuel - 1) as nat);
        },
        (Data::Tuple(ts), InternData::Tuple(g)) => {
            lemma_tuple(st, ts@, g.offset as nat, 0, (fuel - 1) as nat);
        },
        (Data::Struct(fs), InternData::Struct(g)) => {
            lemma_fields(st, fs@, g.offset as nat, 0, (fuel - 1) as nat);
        },
        _ => {},
    }
}

proof fn lemma_tuple(st: InternState, ts: Seq<DataModelType>, off: nat, c: nat, fuel: nat)
    requires
        tuple_match(st, ts, off, c) == Some(true),
        fuel >= 1 + types_depth(ts, c),
    ensures
        types_group(st, off, ts.len(), c, fuel) == Some(unbounded_types(ts, c)),
    decreases ts, ts.len() - c,
{
    if c < ts.len() {
        lemma_dmt(st, ts[c as int], st.dmts[(off + c) as int], (fuel - 1) as nat);
        lemma_tuple(st, ts, off, c + 1, fuel);
    }
}

proof fn lemma_fields(st: InternState, fs: Seq<NamedField>, off: nat, c: nat, fuel: nat)
    requires
        fields_match(st, fs, off, c) == Some(true),
        fuel >= 1 + fields_depth(fs, c),
    ensures
        fields_group(st, off, fs.len(), c, fuel) == Some(unbounded_fields(fs, c)),
    decreases fs, fs.len() - c,
{
    if c < fs.len() {
        let f = st.nfs[(off + c) as int];
        lemma_name(name_bytes(st, f.name).unwrap(), fs[c as int].name);
        lemma_dmt(st, fs[c as int].ty, ref_dmt(st, f.ty).unwrap(), (fuel - 1) as nat);
        lemma_fields(st, fs, off, c + 1, fuel);
        let nb = name_bytes(st, f.name).unwrap();
        assert(ref_view(st, f.ty, (fuel - 1) as nat) == Some(unbounded_view(fs[c as int].ty)));
        assert(decode_utf8(nb) == fs[c as int].name@);
        assert(fields_group(st, off, fs.len(), c, fuel) == Some(
            seq![FieldView { name: decode_utf8(nb), ty: unbounded_view(fs[c as int].ty) }]
                + unbounded_fields(fs, c + 1),
        ));
    }
}

proof fn lemma_variants(st: InternState, vs: Seq<Variant>, off: nat, c: nat, fuel: nat)
    requires
        variants_match(st, vs, off, c) == Some(true),
        fuel >= 1 + variants_depth(vs, c),
    ensures
        variants_group(st, off, vs.len(), c, fuel) == Some(unbounded_variants(vs, c)),
    decreases vs, vs.len() - c,
{
    if c < vs.len() {
        let v = st.vnts[(off + c) as int];
        lemma_name(name_bytes(st, v.name).unwrap(), vs[c as int].name);
        lemma_data(st, vs[c as int].data, v.data, (fuel - 1) as nat);
        lemma_variants(st, vs, off, c + 1, fuel);
    }
}

/// Law: an interned entry matches a schema only when it stands for that schema: read back
/// out of the tables (in as many steps as the schema is deep), it is the schema, but for
/// length bounds, which interned entries do not keep. So an array entry matches only an
/// array of the same count, a struct entry only a struct of the same name and fields, and
/// so on.
pub proof fn law_match_reads_back(st: InternState, d: DataModelType, e: InternDataModelType, fuel: nat)
    requires
        dmt_match(st, d, e) == Some(true),
        fuel >= depth(d),
    ensures
        entry_view(st, e, fuel) == Some(unbounded_view(d)),
{
    lemma_dmt(st, d, e, fuel);
}

/// Law: interning a type gives the reference of a primitive without touching the tables;
/// otherwise a reference either to the first type entry in use that the type matches, which
/// then reads back as the type and leaves the tables as they were, or, when no entry in use
/// matches, to where the type table ended before the call, with new entries added from there.
pub proof fn law_interning_finds_or_adds(st: InternState, d: DataModelType)
    requires
        st.dmts_len <= st.dmts.len() <= usize::MAX,
        intern_dmt(st, d) is Some,
    ensures
        ({
            let (st2, r) = intern_dmt(st, d).unwrap();
            match prim_ref(d) {
                Some(p) => r == p && st2 == st,
                None => r matches InternDataModelTypeRef::Ref(k) && {
                    ||| {
                        &&& k < st.dmts_len
                        &&& st2 == st
                        &&& forall|j: int| 0 <= j < k ==> #[trigger] dmt_match(st, d, st.dmts[j]) == Some(false)
                        &&& forall|fuel: nat| fuel >= depth(d) ==> entry_view(st, st.dmts[k as int], fuel)
                            == Some(unbounded_view(d))
                    }
                    ||| {
                        &&& k == st.dmts_len
                        &&& st2.dmts_len > st.dmts_len
                        &&& forall|j: int| 0 <= j < st.dmts_len ==> #[trigger] dmt_match(st, d, st.dmts[j]) == Some(false)
                    }
                },
            }
        }),
{
    if prim_ref(d) is None {
        lemma_used_match_direct(st, d, 0);
        match used_match(st, d, 0) {
            Some(Some(k)) => {
                assert(k < st.dmts_len);
                assert forall|fuel: nat| fuel >= depth(d) implies entry_view(st, st.dmts[k as int], fuel)
                    == Some(unbounded_view(d)) by {
                    lemma_dmt(st, d, st.dmts[k as int], fuel);
                }
            },
            _ => {
                assert(used_match(st, d, 0) == Some(None::<nat>));
                let (s1, e) = intern_entry(st, d).unwrap();
                super::appends::law_interning_only_appends(st, d);
                super::appends::lemma_entry_appends(st, d);
            },
        }
    }
}

/// Law: the name [`super::IntermediateSchema::get_interned_str`] gives a text points at
/// that text in the shared string, at the first place it sits.
pub proof fn law_interned_name_reads_back(st: InternState, frag: Seq<u8>)
    requires
        st.strs.len() <= usize::MAX,
        interned_str(st, frag) is Some,
    ensures
        ({
            let n = interned_str(st, frag).unwrap();
            &&& n.len == frag.len()
            &&& n.offset + n.len <= st.strs.len()
            &&& st.strs.subrange(n.offset as int, n.offset + n.len) == frag
            &&& forall|j: int| 0 <= j < n.offset ==> !#[trigger] occurs_at(st.strs, frag, j)
        }),
{
    lemma_first_occurrence_direct(st.strs, frag, 0);
    let bi = first_occurrence(st.strs, frag, 0).unwrap();
    assert(first_occurrence(st.strs, frag, 0) == Some(bi));
    assert(occurs_at(st.strs, frag, bi as int));
}

} // verus!
