//! The searches of interning stated directly: each finds the first place where every check
//! holds, after places where some check was false, and fails where a check could not be
//! made.
use super::str_intern::occurs_at;
use super::{
    dmt_match, fields_at, fields_found, first_occurrence, run_at, run_found, used_match,
    variants_at, variants_found, InternState,
};
use crate::schema::{DataModelType, NamedField, Variant};
use vstd::prelude::*;

verus! {

/// The type entry `k` is the first one in use, from `c` on, that `d` matches, every check
/// before it having been made and failed.
pub proof fn lemma_used_match_direct(st: InternState, d: DataModelType, c: nat)
    requires
        st.dmts_len <= st.dmts.len(),
    ensures
        forall|k: nat|
            used_match(st, d, c) == Some(Some(k)) <==> {
                &&& c <= k < st.dmts_len
                &&& dmt_match(st, d, st.dmts[k as int]) == Some(true)
                &&& forall|j: int| c <= j < k ==> #[trigger] dmt_match(st, d, st.dmts[j]) == Some(false)
            },
        used_match(st, d, c) == Some(None::<nat>) <==> forall|j: int|
            c <= j < st.dmts_len ==> #[trigger] dmt_match(st, d, st.dmts[j]) == Some(false),
    decreases st.dmts_len - c,
{
    if c < st.dmts_len {
        lemma_used_match_direct(st, d, c + 1);
        if dmt_match(st, d, st.dmts[c as int]) is None {
            assert(!(forall|j: int| c <= j < st.dmts_len ==> #[trigger] dmt_match(st, d, st.dmts[j]) == Some(false)));
        }
    }
}

/// Whether the types `ds` from the `ic`-th on match the type table from `count + ic` on,
/// stated directly: every check within the table holds (one past the table's end counts as
/// holding).
pub proof fn lemma_run_at_direct(st: InternState, ds: Seq<DataModelType>, count: nat, ic: nat)
    ensures
        run_at(st, ds, count, ic) == Some(true) <==> forall|i: int|
            ic <= i < ds.len() && count + i < st.dmts.len() ==> #[trigger] dmt_match(
                st,
                ds[i],
                st.dmts[count + i],
            ) == Some(true),
    decreases ds.len() - ic,
{
    if ic < ds.len() && count + ic < st.dmts.len() {
        lemma_run_at_direct(st, ds, count, ic + 1);
        if dmt_match(st, ds[ic as int], st.dmts[(count + ic) as int]) != Some(true) {
            assert(!(forall|i: int|
                ic <= i < ds.len() && count + i < st.dmts.len() ==> #[trigger] dmt_match(
                    st,
                    ds[i],
                    st.dmts[count + i],
                ) == Some(true)));
        }
    } else {
        assert forall|i: int|
            ic <= i < ds.len() && count + i < st.dmts.len() implies #[trigger] dmt_match(
                st,
                ds[i],
                st.dmts[count + i],
            ) == Some(true) by {
            assert(count + ic >= st.dmts.len() || ic >= ds.len());
        }
    }
}

/// [`run_found`] stated directly: the first start from `c` on, before the table's last
/// `ds.len()` slots, where the run matches, every earlier start having been checked and
/// found not to match.
pub proof fn lemma_run_found_direct(st: InternState, ds: Seq<DataModelType>, c: nat)
    ensures
        forall|k: nat|
            run_found(st, ds, c) == Some(Some(k)) <==> {
                &&& c <= k && k + ds.len() < st.dmts.len()
                &&& run_at(st, ds, k, 0) == Some(true)
                &&& forall|j: nat| c <= j < k ==> #[trigger] run_at(st, ds, j, 0) == Some(false)
            },
        run_found(st, ds, c) == Some(None::<nat>) <==> forall|j: nat|
            c <= j && j + ds.len() < st.dmts.len() ==> #[trigger] run_at(st, ds, j, 0) == Some(false),
    decreases st.dmts.len() - c,
{
    if c + ds.len() < st.dmts.len() {
        lemma_run_found_direct(st, ds, c + 1);
        if run_at(st, ds, c, 0) is None {
            assert(!(forall|j: nat|
                c <= j && j + ds.len() < st.dmts.len() ==> #[trigger] run_at(st, ds, j, 0) == Some(false)));
        }
    }
}

/// [`fields_found`] stated directly, as [`lemma_run_found_direct`] states [`run_found`].
pub proof fn lemma_fields_found_direct(st: InternState, fs: Seq<NamedField>, c: nat)
    ensures
        forall|k: nat|
            fields_found(st, fs, c) == Some(Some(k)) <==> {
                &&& c <= k && k + fs.len() < st.nfs.len()
                &&& fields_at(st, fs, k, 0) == Some(true)
                &&& forall|j: nat| c <= j < k ==> #[trigger] fields_at(st, fs, j, 0) == Some(false)
            },
        fields_found(st, fs, c) == Some(None::<nat>) <==> forall|j: nat|
            c <= j && j + fs.len() < st.nfs.len() ==> #[trigger] fields_at(st, fs, j, 0) == Some(false),
    decreases st.nfs.len() - c,
{
    if c + fs.len() < st.nfs.len() {
        lemma_fields_found_direct(st, fs, c + 1);
        if fields_at(st, fs, c, 0) is None {
            assert(!(forall|j: nat|
                c <= j && j + fs.len() < st.nfs.len() ==> #[trigger] fields_at(st, fs, j, 0) == Some(false)));
        }
    }
}

/// [`variants_found`] stated directly, as [`lemma_run_found_direct`] states [`run_found`].
pub proof fn lemma_variants_found_direct(st: InternState, vs: Seq<Variant>, c: nat)
    ensures
        forall|k: nat|
            variants_found(st, vs, c) == Some(Some(k)) <==> {
                &&& c <= k && k + vs.len() < st.vnts.len()
                &&& variants_at(st, vs, k, 0) == Some(true)
                &&& forall|j: nat| c <= j < k ==> #[trigger] variants_at(st, vs, j, 0) == Some(false)
            },
        variants_found(st, vs, c) == Some(None::<nat>) <==> forall|j: nat|
            c <= j && j + vs.len() < st.vnts.len() ==> #[trigger] variants_at(st, vs, j, 0) == Some(false),
    decreases st.vnts.len() - c,
{
    if c + vs.len() < st.vnts.len() {
        lemma_variants_found_direct(st, vs, c + 1);
        if variants_at(st, vs, c, 0) is None {
            assert(!(forall|j: nat|
                c <= j && j + vs.len() < st.vnts.len() ==> #[trigger] variants_at(st, vs, j, 0) == Some(false)));
        }
    }
}

/// [`first_occurrence`] stated directly: the smallest start from `bi` on where `needle` sits
/// in `hay`, or none where it sits nowhere from `bi` on.
pub proof fn lemma_first_occurrence_direct(hay: Seq<u8>, needle: Seq<u8>, bi: nat)
    ensures
        forall|k: nat|
            first_occurrence(hay, needle, bi) == Some(k) <==> {
                &&& bi <= k
                &&& occurs_at(hay, needle, k as int)
                &&& forall|j: int| bi <= j < k ==> !#[trigger] occurs_at(hay, needle, j)
            },
        first_occurrence(hay, needle, bi) is None <==> forall|j: int|
            bi <= j ==> !#[trigger] occurs_at(hay, needle, j),
    decreases hay.len() + 1 - bi,
{
    if bi + needle.len() <= hay.len() {
        lemma_first_occurrence_direct(hay, needle, bi + 1);
    } else {
        assert forall|j: int| bi <= j implies !#[trigger] occurs_at(hay, needle, j) by {}
    }
}

} // verus!
