//! Interning only appends: the entries already in the tables stay as they were.
use super::{
    intern_data, intern_dmt, intern_entry, intern_fields_from, intern_nf_group, intern_run,
    intern_run_from, intern_variant_group, intern_variants_from, InternState,
};
use crate::schema::{Data, DataModelType, NamedField, Variant};
use vstd::prelude::*;
use vstd::string::StringSliceAdditionalSpecFns;

verus! {

/// `later` keeps `st`: the same names and table capacities, at least as many entries in use
/// in each table, and the entries in use in `st` unchanged.
pub open spec fn extends(st: InternState, later: InternState) -> bool {
    &&& later.strs == st.strs
    &&& later.run_dmts.len() == st.run_dmts.len()
    &&& later.dmts.len() == st.dmts.len()
    &&& later.nfs.len() == st.nfs.len()
    &&& later.vnts.len() == st.vnts.len()
    &&& st.run_dmts_len <= later.run_dmts_len
    &&& st.dmts_len <= later.dmts_len
    &&& st.nfs_len <= later.nfs_len
    &&& st.vnts_len <= later.vnts_len
    &&& forall|i: int| 0 <= i < st.run_dmts_len ==> later.run_dmts[i] == st.run_dmts[i]
    &&& forall|i: int| 0 <= i < st.dmts_len ==> later.dmts[i] == st.dmts[i]
    &&& forall|i: int| 0 <= i < st.nfs_len ==> later.nfs[i] == st.nfs[i]
    &&& forall|i: int| 0 <= i < st.vnts_len ==> later.vnts[i] == st.vnts[i]
}

proof fn lemma_extends_trans(a: InternState, b: InternState, c: InternState)
    requires
        extends(a, b),
        extends(b, c),
    ensures
        extends(a, c),
{
}

proof fn lemma_dmt_appends(st: InternState, d: DataModelType)
    requires
        intern_dmt(st, d) is Some,
    ensures
        extends(st, intern_dmt(st, d).unwrap().0),
    decreases d, 1nat, 0nat,
{
    if super::prim_ref(d) is None && super::used_match(st, d, 0) == Some(None::<nat>) {
        lemma_entry_appends(st, d);
        let s1 = intern_entry(st, d).unwrap().0;
        lemma_extends_trans(st, s1, intern_dmt(st, d).unwrap().0);
    }
}

pub proof fn lemma_entry_appends(st: InternState, d: DataModelType)
    requires
        intern_entry(st, d) is Some,
    ensures
        extends(st, intern_entry(st, d).unwrap().0),
    decreases d, 0nat, 0nat,
{
    match d {
        DataModelType::Option(t) => lemma_dmt_appends(st, *t),
        DataModelType::SeqOf { element, .. } => lemma_dmt_appends(st, *element),
        DataModelType::Tuple(ts) => lemma_run_appends(st, ts@),
        DataModelType::Array { item, .. } => lemma_dmt_appends(st, *item),
        DataModelType::MapOf { key, val, .. } => {
            lemma_dmt_appends(st, *key);
            let s1 = intern_dmt(st, *key).unwrap().0;
            lemma_dmt_appends(s1, *val);
            lemma_extends_trans(st, s1, intern_dmt(s1, *val).unwrap().0);
        },
        DataModelType::Struct { data, .. } => lemma_data_appends(st, data),
        DataModelType::Enum { variants, .. } => lemma_variant_group_appends(st, variants@),
        _ => {},
    }
}

proof fn lemma_data_appends(st: InternState, d: Data)
    requires
        intern_data(st, d) is Some,
    ensures
        extends(st, intern_data(st, d).unwrap().0),
    decreases d, 1nat, 0nat,
{
    match d {
        Data::Unit => {},
        Data::Newtype(t) => lemma_dmt_appends(st, *t),
        Data::Tuple(ts) => lemma_run_appends(st, ts@),
        Data::Struct(fs) => lemma_nf_group_appends(st, fs@),
    }
}

proof fn lemma_run_appends(st: InternState, ts: Seq<DataModelType>)
    requires
        intern_run(st, ts) is Some,
    ensures
        extends(st, intern_run(st, ts).unwrap().0),
    decreases ts, 2nat, 0nat,
{
    if super::find_run(st, ts) == Some(None::<super::InternDataModelGroupRef>) {
        lemma_run_from_appends(st, ts, 0);
    }
}

proof fn lemma_run_from_appends(st: InternState, ts: Seq<DataModelType>, c: nat)
    requires
        intern_run_from(st, ts, c) is Some,
    ensures
        extends(st, intern_run_from(st, ts, c).unwrap()),
    decreases ts, 1nat, ts.len() - c,
{
    if c < ts.len() {
        assert(decreases_to!(ts => ts[c as int]));
        lemma_dmt_appends(st, ts[c as int]);
        let (s1, r) = intern_dmt(st, ts[c as int]).unwrap();
        let e = super::ref_dmt(s1, r).unwrap();
        let s2 = super::push_run(s1, e).unwrap();
        lemma_run_from_appends(s2, ts, c + 1);
        lemma_extends_trans(st, s1, s2);
        lemma_extends_trans(st, s2, intern_run_from(s2, ts, c + 1).unwrap());
    }
}

proof fn lemma_nf_group_appends(st: InternState, fs: Seq<NamedField>)
    requires
        intern_nf_group(st, fs) is Some,
    ensures
        extends(st, intern_nf_group(st, fs).unwrap().0),
    decreases fs, 2nat, 0nat,
{
    if super::find_fields(st, fs) == Some(None::<super::InternNamedFieldGroupRef>) {
        lemma_fields_from_appends(st, fs, 0);
    }
}

proof fn lemma_fields_from_appends(st: InternState, fs: Seq<NamedField>, c: nat)
    requires
        intern_fields_from(st, fs, c) is Some,
    ensures
        extends(st, intern_fields_from(st, fs, c).unwrap()),
    decreases fs, 1nat, fs.len() - c,
{
    if c < fs.len() {
        assert(decreases_to!(fs => fs[c as int].ty));
        lemma_dmt_appends(st, fs[c as int].ty);
        let n = super::interned_str(st, fs[c as int].name.spec_bytes()).unwrap();
        let (s1, r) = intern_dmt(st, fs[c as int].ty).unwrap();
        let s2 = super::push_nf(s1, super::InternNamedField { name: n, ty: r }).unwrap();
        lemma_fields_from_appends(s2, fs, c + 1);
        lemma_extends_trans(st, s1, s2);
        lemma_extends_trans(st, s2, intern_fields_from(s2, fs, c + 1).unwrap());
    }
}

proof fn lemma_variant_group_appends(st: InternState, vs: Seq<Variant>)
    requires
        intern_variant_group(st, vs) is Some,
    ensures
        extends(st, intern_variant_group(st, vs).unwrap().0),
    decreases vs, 2nat, 0nat,
{
    if super::find_variants(st, vs) == Some(None::<super::InternVariantGroupRef>) {
        lemma_variants_from_appends(st, vs, 0);
    }
}

proof fn lemma_variants_from_appends(st: InternState, vs: Seq<Variant>, c: nat)
    requires
        intern_variants_from(st, vs, c) is Some,
    ensures
        extends(st, intern_variants_from(st, vs, c).unwrap()),
    decreases vs, 1nat, vs.len() - c,
{
    if c < vs.len() {
        assert(decreases_to!(vs => vs[c as int].data));
        lemma_data_appends(st, vs[c as int].data);
        let n = super::interned_str(st, vs[c as int].name.spec_bytes()).unwrap();
        let (s1, dd) = intern_data(st, vs[c as int].data).unwrap();
        let s2 = super::push_vnt(s1, super::InternVariant { name: n, data: dd }).unwrap();
        lemma_variants_from_appends(s2, vs, c + 1);
        lemma_extends_trans(st, s1, s2);
        lemma_extends_trans(st, s2, intern_variants_from(s2, vs, c + 1).unwrap());
    }
}

/// Interning a type only appends to the tables: the names and capacities stay, and every
/// entry in use before is unchanged after.
pub proof fn law_interning_only_appends(st: InternState, d: DataModelType)
    requires
        intern_dmt(st, d) is Some,
    ensures
        extends(st, intern_dmt(st, d).unwrap().0),
{
    lemma_dmt_appends(st, d);
}

/// Interning the contents of a struct or variant only appends to the tables, as interning a
/// type does.
pub proof fn law_interning_data_only_appends(st: InternState, d: Data)
    requires
        intern_data(st, d) is Some,
    ensures
        extends(st, intern_data(st, d).unwrap().0),
{
    lemma_data_appends(st, d);
}

} // verus!
