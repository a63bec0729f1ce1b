//! Interning of schemas: a schema flattened into tables of types, fields and variants that
//! refer to one another by index, with every name a slice of one shared string.
pub mod appends;
pub mod direct;
pub mod read_back;
pub mod str_intern;
pub mod ty_intern;

use super::{Data, DataModelType, NamedField, Variant};
use ty_intern::str_subslice;
use str_intern::{occurs_at, streq};
use vstd::array::ArrayAdditionalExecFns;
use vstd::prelude::*;
use vstd::string::StringSliceAdditionalSpecFns;

verus! {

/// No `Schema` type occurs anywhere in `d`.
pub open spec fn schema_free(d: DataModelType) -> bool
    decreases d,
{
    match d {
        DataModelType::Schema => false,
        DataModelType::Option(t) => schema_free(*t),
        DataModelType::SeqOf { element, .. } => schema_free(*element),
        DataModelType::Tuple(ts) => forall|i: int| 0 <= i < ts@.len() ==> schema_free(#[trigger] ts@[i]),
        DataModelType::Array { item, .. } => schema_free(*item),
        DataModelType::MapOf { key, val, .. } => schema_free(*key) && schema_free(*val),
        DataModelType::Struct { data, .. } => schema_free_data(data),
        DataModelType::Enum { variants, .. } => forall|i: int|
            0 <= i < variants@.len() ==> schema_free_data(#[trigger] variants@[i].data),
        _ => true,
    }
}

/// No `Schema` type occurs anywhere in the contents of a struct or variant.
pub open spec fn schema_free_data(d: Data) -> bool
    decreases d,
{
    match d {
        Data::Unit => true,
        Data::Newtype(t) => schema_free(*t),
        Data::Tuple(ts) => forall|i: int| 0 <= i < ts@.len() ==> schema_free(#[trigger] ts@[i]),
        Data::Struct(fs) => forall|i: int| 0 <= i < fs@.len() ==> schema_free(#[trigger] fs@[i].ty),
    }
}

/// A name: `len` bytes of the shared string, starting at byte `offset`.
#[derive(Debug, Clone, Copy, PartialEq, Eq, Structural, Hash)]
pub struct InternStrRef {
    /// Where the name starts in the shared string
    pub offset: usize,
    /// The name's length in bytes
    pub len: usize,
}

/// A reference to a type: a primitive named directly, or an entry of the type table.
#[derive(Debug, Clone, Copy, PartialEq, Eq, Structural, Hash)]
pub enum InternDataModelTypeRef {
    /// The `bool` Serde Data Model Type
    Bool,
    /// The `i8` Serde Data Model Type
    I8,
    /// The `u8` Serde Data Model Type
    U8,
    /// A variably encoded i16
    I16,
    /// A variably encoded i32
    I32,
    /// A variably encoded i64
    I64,
    /// A variably encoded i128
    I128,
    /// A variably encoded u16
    U16,
    /// A variably encoded u32
    U32,
    /// A variably encoded u64
    U64,
    /// A variably encoded u128
    U128,
    /// A variably encoded usize
    Usize,
    /// A variably encoded isize
    Isize,
    /// The `f32` Serde Data Model Type
    F32,
    /// The `f64` Serde Data Model Type
    F64,
    /// The `char` Serde Data Model Type
    Char,
    /// The `String` Serde Data Model Type
    String,
    /// The `&[u8]` Serde Data Model Type
    ByteArray,
    /// The `()` Serde Data Model Type
    Unit,
    /// The entry at this index of the type table
    Ref(usize),
    /// A [`DataModelType`]/[`OwnedDataModelType`](super::owned::OwnedDataModelType)
    Schema,
}

/// A group of consecutive entries of a type table.
#[derive(Debug, Clone, Copy, PartialEq, Eq, Structural, Hash)]
pub struct InternDataModelGroupRef {
    /// The index of the first entry
    pub offset: usize,
    /// The number of entries
    pub len: usize,
}

/// A group of consecutive entries of the named field table.
#[derive(Debug, Clone, Copy, PartialEq, Eq, Structural, Hash)]
pub struct InternNamedFieldGroupRef {
    /// The index of the first entry
    pub offset: usize,
    /// The number of entries
    pub len: usize,
}

/// A group of consecutive entries of the variant table.
#[derive(Debug, Clone, Copy, PartialEq, Eq, Structural, Hash)]
pub struct InternVariantGroupRef {
    /// The index of the first entry
    pub offset: usize,
    /// The number of entries
    pub len: usize,
}

/// This enum lists which of the Data Model Types apply to a given type. This describes how the
/// type is encoded on the wire; the types inside it are references to other entries.
#[derive(Debug, Clone, Copy, PartialEq, Eq, Structural, Hash)]
pub enum InternDataModelType {
    /// The `bool` Serde Data Model Type
    Bool,
    /// The `i8` Serde Data Model Type
    I8,
    /// The `u8` Serde Data Model Type
    U8,
    /// A variably encoded i16
    I16,
    /// A variably encoded i32
    I32,
    /// A variably encoded i64
    I64,
    /// A variably encoded i128
    I128,
    /// A variably encoded u16
    U16,
    /// A variably encoded u32
    U32,
    /// A variably encoded u64
    U64,
    /// A variably encoded u128
    U128,
    /// A variably encoded usize
    Usize,
    /// A variably encoded isize
    Isize,
    /// The `f32` Serde Data Model Type
    F32,
    /// The `f64` Serde Data Model Type
    F64,
    /// The `char` Serde Data Model Type
    Char,
    /// The `String` Serde Data Model Type
    String,
    /// The `&[u8]` Serde Data Model Type
    ByteArray,
    /// The `()` Serde Data Model Type
    Unit,
    /// The `Option<T>` Serde Data Model Type
    Option(InternDataModelTypeRef),
    /// The "Sequence" Serde Data Model Type
    SeqOf(InternDataModelTypeRef),
    /// The "Tuple" Serde Data Model Type
    Tuple(InternDataModelGroupRef),
    /// The Array type: Not part of the Serde Data Model
    ///
    /// This is for fixed length arrays like [T; N].
    Array {
        /// The array element's type
        item: InternDataModelTypeRef,
        /// The number of items in the fixed size array
        count: usize,
    },
    /// The "Map" Serde Data Model Type
    MapOf {
        /// The map "Key" type
        key: InternDataModelTypeRef,
        /// The map "Value" type
        val: InternDataModelTypeRef,
    },
    /// One of the struct Serde Data Model types
    Struct {
        /// The name of this struct
        name: InternStrRef,
        /// The data contained in this struct
        data: InternData,
    },
    /// The "Enum" Serde Data Model Type (which contains any of the "Variant" types)
    Enum {
        /// The name of this enum
        name: InternStrRef,
        /// The variants contained in this enum
        variants: InternVariantGroupRef,
    },
    /// A [`DataModelType`]/[`OwnedDataModelType`](super::owned::OwnedDataModelType)
    Schema,
}

/// The contents of a struct or enum variant.
#[derive(Debug, Clone, Copy, PartialEq, Eq, Structural, Hash)]
pub enum InternData {
    /// The "Unit Struct" or "Unit Variant" Serde Data Model Type
    Unit,
    /// The "Newtype Struct" or "Newtype Variant" Serde Data Model Type
    Newtype(InternDataModelTypeRef),
    /// The "Tuple Struct" or "Tuple Variant" Serde Data Model Type
    Tuple(InternDataModelGroupRef),
    /// The "Struct" or "Struct Variant" Serde Data Model Type
    Struct(InternNamedFieldGroupRef),
}

/// This represents a named struct field.
#[derive(Debug, Clone, Copy, PartialEq, Eq, Structural, Hash)]
pub struct InternNamedField {
    /// The name of this field
    pub name: InternStrRef,
    /// The type of this field
    pub ty: InternDataModelTypeRef,
}

/// An enum variant e.g. `T::Bar(...)`
#[derive(Debug, Clone, Copy, PartialEq, Eq, Structural, Hash)]
pub struct InternVariant {
    /// The name of this variant
    pub name: InternStrRef,
    /// The data contained in this variant
    pub data: InternData,
}

/// A schema being interned: tables of types, tuple runs, named fields and variants, each of
/// a fixed capacity and filled from the front, with all names held in one string.
pub struct IntermediateSchema<
    'a,
    const DMTS: usize,
    const RUNDMTS: usize,
    const NFS: usize,
    const VNTS: usize,
> {
    strs: &'a str,
    run_dmts: [InternDataModelType; RUNDMTS],
    run_dmts_len: usize,
    dmts: [InternDataModelType; DMTS],
    dmts_len: usize,
    nfs: [InternNamedField; NFS],
    nfs_len: usize,
    vnts: [InternVariant; VNTS],
    vnts_len: usize,
}

/// The value of an [`IntermediateSchema`]: the bytes of its names, and each table, whole,
/// with the number of its entries in use.
pub struct InternState {
    /// The bytes of the shared string of names
    pub strs: Seq<u8>,
    /// The run table, at its full capacity
    pub run_dmts: Seq<InternDataModelType>,
    /// How many run entries are in use
    pub run_dmts_len: nat,
    /// The type table, at its full capacity
    pub dmts: Seq<InternDataModelType>,
    /// How many type entries are in use
    pub dmts_len: nat,
    /// The named field table, at its full capacity
    pub nfs: Seq<InternNamedField>,
    /// How many named field entries are in use
    pub nfs_len: nat,
    /// The variant table, at its full capacity
    pub vnts: Seq<InternVariant>,
    /// How many variant entries are in use
    pub vnts_len: nat,
}

impl<'a, const DMTS: usize, const RUNDMTS: usize, const NFS: usize, const VNTS: usize> View for IntermediateSchema<
    'a,
    DMTS,
    RUNDMTS,
    NFS,
    VNTS,
> {
    type V = InternState;

    closed spec fn view(&self) -> InternState {
        InternState {
            strs: self.strs.spec_bytes(),
            run_dmts: self.run_dmts@,
            run_dmts_len: self.run_dmts_len as nat,
            dmts: self.dmts@,
            dmts_len: self.dmts_len as nat,
            nfs: self.nfs@,
            nfs_len: self.nfs_len as nat,
            vnts: self.vnts@,
            vnts_len: self.vnts_len as nat,
        }
    }
}

/// The state of each table is consistent: no more entries in use than it holds.
pub open spec fn state_wf(st: InternState) -> bool {
    &&& st.run_dmts_len <= st.run_dmts.len()
    &&& st.dmts_len <= st.dmts.len()
    &&& st.nfs_len <= st.nfs.len()
    &&& st.vnts_len <= st.vnts.len()
}

/// The bytes of the name `n` in `st`, when they lie within the shared string and are UTF-8
/// text on their own; `None` where reading them fails.
pub open spec fn name_bytes(st: InternState, n: InternStrRef) -> Option<Seq<u8>> {
    if n.offset + n.len <= st.strs.len() && vstd::utf8::valid_utf8(
        st.strs.subrange(n.offset as int, n.offset + n.len),
    ) {
        Some(st.strs.subrange(n.offset as int, n.offset + n.len))
    } else {
        None
    }
}

/// The entry a type reference stands for; `None` where reading it fails (a reference past
/// the types in use, or to `Schema`).
pub open spec fn ref_dmt(st: InternState, r: InternDataModelTypeRef) -> Option<InternDataModelType> {
    match r {
        InternDataModelTypeRef::Bool => Some(InternDataModelType::Bool),
        InternDataModelTypeRef::I8 => Some(InternDataModelType::I8),
        InternDataModelTypeRef::U8 => Some(InternDataModelType::U8),
        InternDataModelTypeRef::I16 => Some(InternDataModelType::I16),
        InternDataModelTypeRef::I32 => Some(InternDataModelType::I32),
        InternDataModelTypeRef::I64 => Some(InternDataModelType::I64),
        InternDataModelTypeRef::I128 => Some(InternDataModelType::I128),
        InternDataModelTypeRef::U16 => Some(InternDataModelType::U16),
        InternDataModelTypeRef::U32 => Some(InternDataModelType::U32),
        InternDataModelTypeRef::U64 => Some(InternDataModelType::U64),
        InternDataModelTypeRef::U128 => Some(InternDataModelType::U128),
        InternDataModelTypeRef::Usize => Some(InternDataModelType::Usize),
        InternDataModelTypeRef::Isize => Some(InternDataModelType::Isize),
        InternDataModelTypeRef::F32 => Some(InternDataModelType::F32),
        InternDataModelTypeRef::F64 => Some(InternDataModelType::F64),
        InternDataModelTypeRef::Char => Some(InternDataModelType::Char),
        InternDataModelTypeRef::String => Some(InternDataModelType::String),
        InternDataModelTypeRef::ByteArray => Some(InternDataModelType::ByteArray),
        InternDataModelTypeRef::Unit => Some(InternDataModelType::Unit),
        InternDataModelTypeRef::Ref(idx) => if idx < st.dmts_len {
            Some(st.dmts[idx as int])
        } else {
            None
        },
        InternDataModelTypeRef::Schema => None,
    }
}

// ---------------------------------------------------------------------------
// Matching a schema against interned entries
// ---------------------------------------------------------------------------

/// Whether the schema `d` matches the interned entry `i` in `st`, as
/// [`IntermediateSchema::is_dmt_match`] finds it; `None` where that check fails (reads a
/// reference, an index or a name that is not there, or meets `Schema`).
pub open spec fn dmt_match(st: InternState, d: DataModelType, i: InternDataModelType) -> Option<bool>
    decreases d, 0nat,
{
    match (i, d) {
        (InternDataModelType::Bool, DataModelType::Bool) => Some(true),
        (InternDataModelType::I8, DataModelType::I8) => Some(true),
        (InternDataModelType::U8, DataModelType::U8) => Some(true),
        (InternDataModelType::I16, DataModelType::I16) => Some(true),
        (InternDataModelType::I32, DataModelType::I32) => Some(true),
        (InternDataModelType::I64, DataModelType::I64) => Some(true),
        (InternDataModelType::I128, DataModelType::I128) => Some(true),
        (InternDataModelType::U16, DataModelType::U16) => Some(true),
        (InternDataModelType::U32, DataModelType::U32) => Some(true),
        (InternDataModelType::U64, DataModelType::U64) => Some(true),
        (InternDataModelType::U128, DataModelType::U128) => Some(true),
        (InternDataModelType::Usize, DataModelType::Usize) => Some(true),
        (InternDataModelType::Isize, DataModelType::Isize) => Some(true),
        (InternDataModelType::F32, DataModelType::F32) => Some(true),
        (InternDataModelType::F64, DataModelType::F64) => Some(true),
        (InternDataModelType::Char, DataModelType::Char) => Some(true),
        (InternDataModelType::String, DataModelType::String { .. }) => Some(true),
        (InternDataModelType::ByteArray, DataModelType::ByteArray { .. }) => Some(true),
        (InternDataModelType::Option(r), DataModelType::Option(t)) => match ref_dmt(st, r) {
            Some(e) => dmt_match(st, *t, e),
            None => None,
        },
        (InternDataModelType::Unit, DataModelType::Unit) => Some(true),
        (InternDataModelType::SeqOf(r), DataModelType::SeqOf { element, .. }) => match ref_dmt(st, r) {
            Some(e) => dmt_match(st, *element, e),
            None => None,
        },
        (InternDataModelType::Tuple(g), DataModelType::Tuple(ts)) => if g.len != ts@.len() {
            Some(false)
        } else {
            tuple_match(st, ts@, g.offset as nat, 0)
        },
        (InternDataModelType::Array { item, count }, DataModelType::Array { item: di, count: dc }) => if count != dc {
            Some(false)
        } else {
            match ref_dmt(st, item) {
                Some(e) => dmt_match(st, *di, e),
                None => None,
            }
        },
        (InternDataModelType::MapOf { key, val }, DataModelType::MapOf { key: dk, val: dv, .. }) => match ref_dmt(st, key) {
            Some(ke) => match dmt_match(st, *dk, ke) {
                Some(true) => match ref_dmt(st, val) {
                    Some(ve) => dmt_match(st, *dv, ve),
                    None => None,
                },
                other => other,
            },
            None => None,
        },
        (InternDataModelType::Struct { name, data }, DataModelType::Struct { name: dn, data: dd }) => match name_bytes(st, name) {
            Some(nb) => match data_match(st, dd, data) {
                Some(m) => Some(nb == dn.spec_bytes() && m),
                None => None,
            },
            None => None,
        },
        (InternDataModelType::Enum { name, variants }, DataModelType::Enum { name: dn, variants: dv }) => match name_bytes(st, name) {
            Some(nb) => if nb != dn.spec_bytes() {
                Some(false)
            } else if variants.len != dv@.len() {
                Some(false)
            } else {
                variants_match(st, dv@, variants.offset as nat, 0)
            },
            None => None,
        },
        (InternDataModelType::Schema, DataModelType::Schema) => None,
        _ => Some(false),
    }
}

/// Whether the types `ts` from the `c`-th on match the type entries from `off + c` on, as
/// the loops of [`IntermediateSchema::is_dmt_match`] find it.
pub open spec fn tuple_match(st: InternState, ts: Seq<DataModelType>, off: nat, c: nat) -> Option<bool>
    decreases ts, ts.len() - c,
{
    if c >= ts.len() {
        Some(true)
    } else if off + c > usize::MAX || off + c >= st.dmts_len {
        None
    } else {
        match dmt_match(st, ts[c as int], st.dmts[(off + c) as int]) {
            Some(true) => tuple_match(st, ts, off, c + 1),
            other => other,
        }
    }
}

/// Whether the variants `vs` from the `c`-th on match the variant entries from `off + c` on,
/// by name and contents.
pub open spec fn variants_match(st: InternState, vs: Seq<Variant>, off: nat, c: nat) -> Option<bool>
    decreases vs, vs.len() - c,
{
    if c >= vs.len() {
        Some(true)
    } else if off + c > usize::MAX || off + c >= st.vnts_len {
        None
    } else {
        match name_bytes(st, st.vnts[(off + c) as int].name) {
            Some(nb) => if vs[c as int].name.spec_bytes() != nb {
                Some(false)
            } else {
                match data_match(st, vs[c as int].data, st.vnts[(off + c) as int].data) {
                    Some(true) => variants_match(st, vs, off, c + 1),
                    other => other,
                }
            },
            None => None,
        }
    }
}

/// Whether the fields `fs` from the `c`-th on match the named field entries from `off + c`
/// on, by name and type.
pub open spec fn fields_match(st: InternState, fs: Seq<NamedField>, off: nat, c: nat) -> Option<bool>
    decreases fs, fs.len() - c,
{
    if c >= fs.len() {
        Some(true)
    } else if off + c > usize::MAX || off + c >= st.nfs_len {
        None
    } else {
        match name_bytes(st, st.nfs[(off + c) as int].name) {
            Some(nb) => if fs[c as int].name.spec_bytes() != nb {
                Some(false)
            } else {
                match ref_dmt(st, st.nfs[(off + c) as int].ty) {
                    Some(e) => match dmt_match(st, fs[c as int].ty, e) {
                        Some(true) => fields_match(st, fs, off, c + 1),
                        other => other,
                    },
                    None => None,
                }
            },
            None => None,
        }
    }
}

/// Whether the contents `d` of a struct or variant match the interned contents `i`, as
/// [`IntermediateSchema::is_data_match`] finds it.
pub open spec fn data_match(st: InternState, d: Data, i: InternData) -> Option<bool>
    decreases d, 0nat,
{
    match (d, i) {
        (Data::Unit, InternData::Unit) => Some(true),
        (Data::Newtype(t), InternData::Newtype(r)) => match ref_dmt(st, r) {
            Some(e) => dmt_match(st, *t, e),
            None => None,
        },
        (Data::Tuple(ts), InternData::Tuple(g)) => if ts@.len() != g.len {
            Some(false)
        } else {
            tuple_match(st, ts@, g.offset as nat, 0)
        },
        (Data::Struct(fs), InternData::Struct(g)) => if fs@.len() != g.len {
            Some(false)
        } else {
            fields_match(st, fs@, g.offset as nat, 0)
        },
        _ => Some(false),
    }
}

impl<'a, const DMTS: usize, const RUNDMTS: usize, const NFS: usize, const VNTS: usize> IntermediateSchema<
    'a,
    DMTS,
    RUNDMTS,
    NFS,
    VNTS,
> {
    /// The type entries in use.
    fn dmts(&self) -> (r: &[InternDataModelType])
        requires
            state_wf(self@),
        ensures
            r@ == self@.dmts.take(self@.dmts_len as int),
    {
        let (now, _later) = self.dmts.as_slice().split_at(self.dmts_len);
        now
    }

    /// The named field entries in use.
    fn nfs(&self) -> (r: &[InternNamedField])
        requires
            state_wf(self@),
        ensures
            r@ == self@.nfs.take(self@.nfs_len as int),
    {
        let (now, _later) = self.nfs.as_slice().split_at(self.nfs_len);
        now
    }

    /// The variant entries in use.
    fn vnts(&self) -> (r: &[InternVariant])
        requires
            state_wf(self@),
        ensures
            r@ == self@.vnts.take(self@.vnts_len as int),
    {
        let (now, _later) = self.vnts.as_slice().split_at(self.vnts_len);
        now
    }

    /// The entry a type reference stands for.
    pub fn dmt_from_ref(&self, dref: &InternDataModelTypeRef) -> (r: InternDataModelType)
        requires
            state_wf(self@),
            ref_dmt(self@, *dref) is Some,
        ensures
            Some(r) == ref_dmt(self@, *dref),
    {
        match dref {
            InternDataModelTypeRef::Bool => InternDataModelType::Bool,
            InternDataModelTypeRef::I8 => InternDataModelType::I8,
            InternDataModelTypeRef::U8 => InternDataModelType::U8,
            InternDataModelTypeRef::I16 => InternDataModelType::I16,
            InternDataModelTypeRef::I32 => InternDataModelType::I32,
            InternDataModelTypeRef::I64 => InternDataModelType::I64,
            InternDataModelTypeRef::I128 => InternDataModelType::I128,
            InternDataModelTypeRef::U16 => InternDataModelType::U16,
            InternDataModelTypeRef::U32 => InternDataModelType::U32,
            InternDataModelTypeRef::U64 => InternDataModelType::U64,
            InternDataModelTypeRef::U128 => InternDataModelType::U128,
            InternDataModelTypeRef::Usize => InternDataModelType::Usize,
            InternDataModelTypeRef::Isize => InternDataModelType::Isize,
            InternDataModelTypeRef::F32 => InternDataModelType::F32,
            InternDataModelTypeRef::F64 => InternDataModelType::F64,
            InternDataModelTypeRef::Char => InternDataModelType::Char,
            InternDataModelTypeRef::String => InternDataModelType::String,
            InternDataModelTypeRef::ByteArray => InternDataModelType::ByteArray,
            InternDataModelTypeRef::Unit => InternDataModelType::Unit,
            InternDataModelTypeRef::Ref(idx) => self.dmts()[*idx],
            InternDataModelTypeRef::Schema => InternDataModelType::Schema,
        }
    }

    /// Whether the name `name` reads as the text `s`.
    fn name_is(&self, name: &InternStrRef, s: &str) -> (r: bool)
        requires
            name_bytes(self@, *name) is Some,
        ensures
            r == (name_bytes(self@, *name) == Some(s.spec_bytes())),
    {
        streq(str_subslice(self.strs, name.offset, name.len), s)
    }

    /// Whether the contents `data` of a struct or variant match the interned contents `intern`.
    pub fn is_data_match(&self, data: &Data, intern: &InternData) -> (r: bool)
        requires
            state_wf(self@),
            data_match(self@, *data, *intern) is Some,
        ensures
            Some(r) == data_match(self@, *data, *intern),
        decreases *data, 0nat,
    {
        match (data, intern) {
            (Data::Unit, InternData::Unit) => true,
            (Data::Newtype(data_model_type), InternData::Newtype(intern_data_model_type_ref)) => {
                let data = self.dmt_from_ref(intern_data_model_type_ref);
                self.is_dmt_match(&**data_model_type, &data)
            },
            (Data::Tuple(data_model_types), InternData::Tuple(intern_data_model_group_ref)) => {
                if data_model_types.len() != intern_data_model_group_ref.len {
                    return false;
                }
                self.is_tuple_match(data_model_types.as_slice(), intern_data_model_group_ref.offset)
            },
            (Data::Struct(named_fields), InternData::Struct(intern_named_field_group_ref)) => {
                if named_fields.len() != intern_named_field_group_ref.len {
                    return false;
                }
                let ghost fs = named_fields@;
                let off = intern_named_field_group_ref.offset;
                let mut count: usize = 0;
                while count < named_fields.len()
                    invariant
                        fs == named_fields@,
                        count <= fs.len(),
                        state_wf(self@),
                        fields_match(self@, fs, off as nat, count as nat) == fields_match(self@, fs, off as nat, 0),
                        fields_match(self@, fs, off as nat, 0) is Some,
                        data_match(self@, *data, *intern) == fields_match(self@, fs, off as nat, 0),
                        forall|i: int| 0 <= i < fs.len() ==> #[trigger] decreases_to!(*data => fs[i].ty),
                    decreases fs.len() - count,
                {
                    proof {
                        assert(decreases_to!(*data => fs[count as int].ty));
                    }
                    let offct = off + count;
                    let inf = &self.nfs()[offct];
                    if !streq(named_fields[count].name, str_subslice(self.strs, inf.name.offset, inf.name.len)) {
                        return false;
                    }
                    let data = self.dmt_from_ref(&inf.ty);
                    if !self.is_dmt_match(&named_fields[count].ty, &data) {
                        return false;
                    }
                    count += 1;
                }
                true
            },
            _ => false,
        }
    }

    /// Whether the types `ts` match the type entries from `offset` on.
    fn is_tuple_match(&self, ts: &[DataModelType], offset: usize) -> (r: bool)
        requires
            state_wf(self@),
            tuple_match(self@, ts@, offset as nat, 0) is Some,
        ensures
            Some(r) == tuple_match(self@, ts@, offset as nat, 0),
        decreases ts@, ts@.len() + 1,
    {
        let mut count: usize = 0;
        while count < ts.len()
            invariant
                count <= ts@.len(),
                state_wf(self@),
                tuple_match(self@, ts@, offset as nat, count as nat) == tuple_match(self@, ts@, offset as nat, 0),
                tuple_match(self@, ts@, offset as nat, 0) is Some,
            decreases ts@.len() - count,
        {
            proof {
                assert(decreases_to!(ts@ => ts@[count as int]));
            }
            let idm = offset + count;
            if !self.is_dmt_match(&ts[count], &self.dmts()[idm]) {
                return false;
            }
            count += 1;
        }
        true
    }

    /// Whether the schema `dmt` matches the interned entry `idmt`: the same shape, with the
    /// same names, reading referenced entries from the tables.
    pub fn is_dmt_match(&self, dmt: &DataModelType, idmt: &InternDataModelType) -> (r: bool)
        requires
            state_wf(self@),
            dmt_match(self@, *dmt, *idmt) is Some,
        ensures
            Some(r) == dmt_match(self@, *dmt, *idmt),
        decreases *dmt, 0nat,
    {
        match (idmt, dmt) {
            (InternDataModelType::Bool, DataModelType::Bool) => true,
            (InternDataModelType::I8, DataModelType::I8) => true,
            (InternDataModelType::U8, DataModelType::U8) => true,
            (InternDataModelType::I16, DataModelType::I16) => true,
            (InternDataModelType::I32, DataModelType::I32) => true,
            (InternDataModelType::I64, DataModelType::I64) => true,
            (InternDataModelType::I128, DataModelType::I128) => true,
            (InternDataModelType::U16, DataModelType::U16) => true,
            (InternDataModelType::U32, DataModelType::U32) => true,
            (InternDataModelType::U64, DataModelType::U64) => true,
            (InternDataModelType::U128, DataModelType::U128) => true,
            (InternDataModelType::Usize, DataModelType::Usize) => true,
            (InternDataModelType::Isize, DataModelType::Isize) => true,
            (InternDataModelType::F32, DataModelType::F32) => true,
            (InternDataModelType::F64, DataModelType::F64) => true,
            (InternDataModelType::Char, DataModelType::Char) => true,
            (InternDataModelType::String, DataModelType::String { .. }) => true,
            (InternDataModelType::ByteArray, DataModelType::ByteArray { .. }) => true,
            (InternDataModelType::Option(r), DataModelType::Option(t)) => self.is_dmt_match(
                &**t,
                &self.dmt_from_ref(r),
            ),
            (InternDataModelType::Unit, DataModelType::Unit) => true,
            (InternDataModelType::SeqOf(r), DataModelType::SeqOf { element, .. }) => self.is_dmt_match(
                &**element,
                &self.dmt_from_ref(r),
            ),
            (InternDataModelType::Tuple(g), DataModelType::Tuple(ts)) => {
                if g.len != ts.len() {
                    return false;
                }
                self.is_tuple_match(ts.as_slice(), g.offset)
            },
            (InternDataModelType::Array { item, count }, DataModelType::Array { item: ditem, count: dcount }) => (
            *count == *dcount) && self.is_dmt_match(&**ditem, &self.dmt_from_ref(item)),
            (InternDataModelType::MapOf { key, val }, DataModelType::MapOf { key: dkey, val: dval, .. }) => {
                self.is_dmt_match(&**dkey, &self.dmt_from_ref(key)) && self.is_dmt_match(
                    &**dval,
                    &self.dmt_from_ref(val),
                )
            },
            (InternDataModelType::Struct { name, data }, DataModelType::Struct { name: dname, data: ddata }) => {
                let name_match = self.name_is(name, dname);
                let data_match = self.is_data_match(ddata, data);
                name_match && data_match
            },
            (InternDataModelType::Enum { name, variants }, DataModelType::Enum { name: dname, variants: dvariants }) => {
                if !self.name_is(name, dname) {
                    return false;
                }
                if variants.len != dvariants.len() {
                    return false;
                }
                let ghost vs = dvariants@;
                let mut count: usize = 0;
                while count < dvariants.len()
                    invariant
                        vs == dvariants@,
                        count <= vs.len(),
                        state_wf(self@),
                        variants_match(self@, vs, variants.offset as nat, count as nat) == variants_match(self@, vs, variants.offset as nat, 0),
                        variants_match(self@, vs, variants.offset as nat, 0) is Some,
                        dmt_match(self@, *dmt, *idmt) == variants_match(self@, vs, variants.offset as nat, 0),
                        forall|i: int| 0 <= i < vs.len() ==> #[trigger] decreases_to!(*dmt => vs[i].data),
                    decreases vs.len() - count,
                {
                    proof {
                        assert(decreases_to!(*dmt => vs[count as int].data));
                    }
                    let ivar = &self.vnts()[variants.offset + count];
                    if !streq(dvariants[count].name, str_subslice(self.strs, ivar.name.offset, ivar.name.len)) {
                        return false;
                    }
                    if !self.is_data_match(&dvariants[count].data, &ivar.data) {
                        return false;
                    }
                    count += 1;
                }
                true
            },
            _ => false,
        }
    }
}

// ---------------------------------------------------------------------------
// Finding names and groups
// ---------------------------------------------------------------------------

/// The first byte from `bi` on where `needle` sits in `hay`.
pub open spec fn first_occurrence(hay: Seq<u8>, needle: Seq<u8>, bi: nat) -> Option<nat>
    decreases hay.len() + 1 - bi,
{
    if bi + needle.len() > hay.len() {
        None
    } else if occurs_at(hay, needle, bi as int) {
        Some(bi)
    } else {
        first_occurrence(hay, needle, bi + 1)
    }
}

/// The name [`IntermediateSchema::get_interned_str`] gives the text `frag`: its first
/// occurrence in the shared string. `None` where there is none, or `frag` is empty.
pub open spec fn interned_str(st: InternState, frag: Seq<u8>) -> Option<InternStrRef> {
    if frag.len() > st.strs.len() || frag.len() == 0 {
        None
    } else {
        match first_occurrence(st.strs, frag, 0) {
            Some(bi) => Some(InternStrRef { offset: bi as usize, len: frag.len() as usize }),
            None => None,
        }
    }
}

/// Whether the types `ds` from the `ic`-th on match the type table, in use or not, from
/// `count + ic` on.
pub open spec fn run_at(st: InternState, ds: Seq<DataModelType>, count: nat, ic: nat) -> Option<bool>
    decreases ds.len() - ic,
{
    if ic >= ds.len() || count + ic >= st.dmts.len() {
        Some(true)
    } else {
        match dmt_match(st, ds[ic as int], st.dmts[(count + ic) as int]) {
            Some(true) => run_at(st, ds, count, ic + 1),
            other => other,
        }
    }
}

/// The first start from `count` on, before the table's last `ds.len()` slots, where the types
/// `ds` match the type table.
pub open spec fn run_found(st: InternState, ds: Seq<DataModelType>, count: nat) -> Option<Option<nat>>
    decreases st.dmts.len() - count,
{
    if count + ds.len() >= st.dmts.len() {
        Some(None)
    } else {
        match run_at(st, ds, count, 0) {
            Some(true) => Some(Some(count)),
            Some(false) => run_found(st, ds, count + 1),
            None => None,
        }
    }
}

/// What [`IntermediateSchema::find_run_dmt`] finds for `ds`; `None` where it fails.
pub open spec fn find_run(st: InternState, ds: Seq<DataModelType>) -> Option<Option<InternDataModelGroupRef>> {
    if st.dmts.len() < ds.len() {
        Some(None)
    } else if ds.len() == 0 {
        None
    } else {
        match run_found(st, ds, 0) {
            Some(Some(c)) => Some(Some(InternDataModelGroupRef { offset: c as usize, len: ds.len() as usize })),
            Some(None) => Some(None),
            None => None,
        }
    }
}

/// Whether the fields `fs` from the `ic`-th on match the named field table, in use or not,
/// from `count + ic` on.
pub open spec fn fields_at(st: InternState, fs: Seq<NamedField>, count: nat, ic: nat) -> Option<bool>
    decreases fs.len() - ic,
{
    if ic >= fs.len() || count + ic >= st.nfs.len() {
        Some(true)
    } else {
        let e = st.nfs[(count + ic) as int];
        match name_bytes(st, e.name) {
            Some(nb) => if fs[ic as int].name.spec_bytes() != nb {
                Some(false)
            } else {
                match ref_dmt(st, e.ty) {
                    Some(t) => match dmt_match(st, fs[ic as int].ty, t) {
                        Some(true) => fields_at(st, fs, count, ic + 1),
                        other => other,
                    },
                    None => None,
                }
            },
            None => None,
        }
    }
}

/// The first start from `count` on where the fields `fs` match the named field table.
pub open spec fn fields_found(st: InternState, fs: Seq<NamedField>, count: nat) -> Option<Option<nat>>
    decreases st.nfs.len() - count,
{
    if count + fs.len() >= st.nfs.len() {
        Some(None)
    } else {
        match fields_at(st, fs, count, 0) {
            Some(true) => Some(Some(count)),
            Some(false) => fields_found(st, fs, count + 1),
            None => None,
        }
    }
}

/// What [`IntermediateSchema::find_named_field_group`] finds for `fs`; `None` where it fails.
pub open spec fn find_fields(st: InternState, fs: Seq<NamedField>) -> Option<Option<InternNamedFieldGroupRef>> {
    if st.nfs.len() < fs.len() {
        Some(None)
    } else if fs.len() == 0 {
        None
    } else {
        match fields_found(st, fs, 0) {
            Some(Some(c)) => Some(Some(InternNamedFieldGroupRef { offset: c as usize, len: fs.len() as usize })),
            Some(None) => Some(None),
            None => None,
        }
    }
}

/// Whether the variants `vs` from the `ic`-th on match the variant table, in use or not,
/// from `count + ic` on.
pub open spec fn variants_at(st: InternState, vs: Seq<Variant>, count: nat, ic: nat) -> Option<bool>
    decreases vs.len() - ic,
{
    if ic >= vs.len() || count + ic >= st.vnts.len() {
        Some(true)
    } else {
        let e = st.vnts[(count + ic) as int];
        match name_bytes(st, e.name) {
            Some(nb) => if vs[ic as int].name.spec_bytes() != nb {
                Some(false)
            } else {
                match data_match(st, vs[ic as int].data, e.data) {
                    Some(true) => variants_at(st, vs, count, ic + 1),
                    other => other,
                }
            },
            None => None,
        }
    }
}

/// The first start from `count` on where the variants `vs` match the variant table.
pub open spec fn variants_found(st: InternState, vs: Seq<Variant>, count: nat) -> Option<Option<nat>>
    decreases st.vnts.len() - count,
{
    if count + vs.len() >= st.vnts.len() {
        Some(None)
    } else {
        match variants_at(st, vs, count, 0) {
            Some(true) => Some(Some(count)),
            Some(false) => variants_found(st, vs, count + 1),
            None => None,
        }
    }
}

/// What [`IntermediateSchema::find_variant_group`] finds for `vs`; `None` where it fails.
pub open spec fn find_variants(st: InternState, vs: Seq<Variant>) -> Option<Option<InternVariantGroupRef>> {
    if st.vnts.len() < vs.len() {
        Some(None)
    } else if vs.len() == 0 {
        None
    } else {
        match variants_found(st, vs, 0) {
            Some(Some(c)) => Some(Some(InternVariantGroupRef { offset: c as usize, len: vs.len() as usize })),
            Some(None) => Some(None),
            None => None,
        }
    }
}

impl<'a, const DMTS: usize, const RUNDMTS: usize, const NFS: usize, const VNTS: usize> IntermediateSchema<
    'a,
    DMTS,
    RUNDMTS,
    NFS,
    VNTS,
> {
    /// The name of the text `frag`: where it first occurs in the shared string.
    pub fn get_interned_str(&self, frag: &str) -> (r: InternStrRef)
        requires
            interned_str(self@, frag.spec_bytes()) is Some,
        ensures
            Some(r) == interned_str(self@, frag.spec_bytes()),
    {
        let strs = self.strs.as_bytes();
        let fb = frag.as_bytes();
        let slen = strs.len();
        let mut bi: usize = 0;
        loop
            invariant
                strs@ == self@.strs,
                strs@.len() == slen,
                fb@ == frag.spec_bytes(),
                0 < fb@.len() <= strs@.len(),
                bi + fb@.len() <= strs@.len(),
                first_occurrence(strs@, fb@, bi as nat) == first_occurrence(strs@, fb@, 0),
                first_occurrence(strs@, fb@, 0) is Some,
            decreases strs@.len() - bi,
        {
            let mut off: usize = 0;
            let mut matched = true;
            while matched && off < fb.len()
                invariant
                    bi + fb@.len() <= strs@.len(),
                    strs@.len() == slen,
                    off <= fb@.len(),
                    forall|k: int| 0 <= k < off ==> strs@[bi + k] == #[trigger] fb@[k],
                    !matched ==> off < fb@.len() && strs@[bi + off] != fb@[off as int],
                decreases (fb@.len() - off) * 2 + if matched { 1int } else { 0int },
            {
                if fb[off] != strs[off + bi] {
                    matched = false;
                } else {
                    off += 1;
                }
            }
            if matched {
                assert(strs@.subrange(bi as int, bi + fb@.len()) =~= fb@);
                return InternStrRef { offset: bi, len: fb.len() };
            }
            assert(!occurs_at(strs@, fb@, bi as int)) by {
                if occurs_at(strs@, fb@, bi as int) {
                    assert(strs@.subrange(bi as int, bi + fb@.len())[off as int] == fb@[off as int]);
                }
            }
            bi += 1;
        }
    }

    /// Where the types `dmts` occur, in order, in the type table.
    pub fn find_run_dmt(&self, dmts: &[DataModelType]) -> (r: Option<InternDataModelGroupRef>)
        requires
            state_wf(self@),
            find_run(self@, dmts@) is Some,
        ensures
            Some(r) == find_run(self@, dmts@),
    {
        if DMTS < dmts.len() {
            return None;
        }
        let mut count: usize = 0;
        while count < DMTS - dmts.len()
            invariant
                state_wf(self@),
                self@.dmts.len() == DMTS,
                0 < dmts@.len() <= DMTS,
                count + dmts@.len() <= DMTS,
                find_run(self@, dmts@) == (match run_found(self@, dmts@, count as nat) {
                    Some(Some(c)) => Some(Some(InternDataModelGroupRef { offset: c as usize, len: dmts@.len() as usize })),
                    Some(None) => Some(None),
                    None => None,
                }),
                find_run(self@, dmts@) is Some,
            decreases DMTS - count,
        {
            let mut icount: usize = 0;
            let mut matched = true;
            while matched && icount < dmts.len()
                invariant
                    state_wf(self@),
                    self@.dmts.len() == DMTS,
                    count + dmts@.len() < DMTS,
                    icount <= dmts@.len(),
                    run_at(self@, dmts@, count as nat, 0) is Some,
                    matched ==> run_at(self@, dmts@, count as nat, icount as nat) == run_at(self@, dmts@, count as nat, 0),
                    !matched ==> run_at(self@, dmts@, count as nat, 0) == Some(false),
                decreases (dmts@.len() - icount) * 2 + if matched { 1int } else { 0int },
            {
                if !self.is_dmt_match(&dmts[icount], &self.dmts[count + icount]) {
                    matched = false;
                } else {
                    icount += 1;
                }
            }
            if matched {
                return Some(InternDataModelGroupRef { offset: count, len: dmts.len() });
            }
            count += 1;
        }
        None
    }

    /// Where the fields `nfs` occur, in order, in the named field table.
    pub fn find_named_field_group(&self, nfs: &[NamedField]) -> (r: Option<InternNamedFieldGroupRef>)
        requires
            state_wf(self@),
            find_fields(self@, nfs@) is Some,
        ensures
            Some(r) == find_fields(self@, nfs@),
    {
        if NFS < nfs.len() {
            return None;
        }
        let mut count: usize = 0;
        while count < NFS - nfs.len()
            invariant
                state_wf(self@),
                self@.nfs.len() == NFS,
                0 < nfs@.len() <= NFS,
                count + nfs@.len() <= NFS,
                find_fields(self@, nfs@) == (match fields_found(self@, nfs@, count as nat) {
                    Some(Some(c)) => Some(Some(InternNamedFieldGroupRef { offset: c as usize, len: nfs@.len() as usize })),
                    Some(None) => Some(None),
                    None => None,
                }),
                find_fields(self@, nfs@) is Some,
            decreases NFS - count,
        {
            let mut icount: usize = 0;
            let mut matched = true;
            while matched && icount < nfs.len()
                invariant
                    state_wf(self@),
                    self@.nfs.len() == NFS,
                    count + nfs@.len() < NFS,
                    icount <= nfs@.len(),
                    fields_at(self@, nfs@, count as nat, 0) is Some,
                    matched ==> fields_at(self@, nfs@, count as nat, icount as nat) == fields_at(self@, nfs@, count as nat, 0),
                    !matched ==> fields_at(self@, nfs@, count as nat, 0) == Some(false),
                decreases (nfs@.len() - icount) * 2 + if matched { 1int } else { 0int },
            {
                let e = &self.nfs[count + icount];
                if !streq(nfs[icount].name, str_subslice(self.strs, e.name.offset, e.name.len)) {
                    matched = false;
                } else if !self.is_dmt_match(&nfs[icount].ty, &self.dmt_from_ref(&e.ty)) {
                    matched = false;
                } else {
                    icount += 1;
                }
            }
            if matched {
                return Some(InternNamedFieldGroupRef { offset: count, len: nfs.len() });
            }
            count += 1;
        }
        None
    }

    /// Where the variants `vnts` occur, in order, in the variant table.
    pub fn find_variant_group(&self, vnts: &[Variant]) -> (r: Option<InternVariantGroupRef>)
        requires
            state_wf(self@),
            find_variants(self@, vnts@) is Some,
        ensures
            Some(r) == find_variants(self@, vnts@),
    {
        if VNTS < vnts.len() {
            return None;
        }
        let mut count: usize = 0;
        while count < VNTS - vnts.len()
            invariant
                state_wf(self@),
                self@.vnts.len() == VNTS,
                0 < vnts@.len() <= VNTS,
                count + vnts@.len() <= VNTS,
                find_variants(self@, vnts@) == (match variants_found(self@, vnts@, count as nat) {
                    Some(Some(c)) => Some(Some(InternVariantGroupRef { offset: c as usize, len: vnts@.len() as usize })),
                    Some(None) => Some(None),
                    None => None,
                }),
                find_variants(self@, vnts@) is Some,
            decreases VNTS - count,
        {
            let mut icount: usize = 0;
            let mut matched = true;
            while matched && icount < vnts.len()
                invariant
                    state_wf(self@),
                    self@.vnts.len() == VNTS,
                    count + vnts@.len() < VNTS,
                    icount <= vnts@.len(),
                    variants_at(self@, vnts@, count as nat, 0) is Some,
                    matched ==> variants_at(self@, vnts@, count as nat, icount as nat) == variants_at(self@, vnts@, count as nat, 0),
                    !matched ==> variants_at(self@, vnts@, count as nat, 0) == Some(false),
                decreases (vnts@.len() - icount) * 2 + if matched { 1int } else { 0int },
            {
                let e = &self.vnts[count + icount];
                if !streq(vnts[icount].name, str_subslice(self.strs, e.name.offset, e.name.len)) {
                    matched = false;
                } else if !self.is_data_match(&vnts[icount].data, &e.data) {
                    matched = false;
                } else {
                    icount += 1;
                }
            }
            if matched {
                return Some(InternVariantGroupRef { offset: count, len: vnts.len() });
            }
            count += 1;
        }
        None
    }
}

// ---------------------------------------------------------------------------
// Interning
// ---------------------------------------------------------------------------

/// The reference to a primitive type, or `None` for a type that needs a table entry.
pub open spec fn prim_ref(d: DataModelType) -> Option<InternDataModelTypeRef> {
    match d {
        DataModelType::Bool => Some(InternDataModelTypeRef::Bool),
        DataModelType::I8 => Some(InternDataModelTypeRef::I8),
        DataModelType::U8 => Some(InternDataModelTypeRef::U8),
        DataModelType::I16 => Some(InternDataModelTypeRef::I16),
        DataModelType::I32 => Some(InternDataModelTypeRef::I32),
        DataModelType::I64 => Some(InternDataModelTypeRef::I64),
        DataModelType::I128 => Some(InternDataModelTypeRef::I128),
        DataModelType::U16 => Some(InternDataModelTypeRef::U16),
        DataModelType::U32 => Some(InternDataModelTypeRef::U32),
        DataModelType::U64 => Some(InternDataModelTypeRef::U64),
        DataModelType::U128 => Some(InternDataModelTypeRef::U128),
        DataModelType::Usize => Some(InternDataModelTypeRef::Usize),
        DataModelType::Isize => Some(InternDataModelTypeRef::Isize),
        DataModelType::F32 => Some(InternDataModelTypeRef::F32),
        DataModelType::F64 => Some(InternDataModelTypeRef::F64),
        DataModelType::Char => Some(InternDataModelTypeRef::Char),
        DataModelType::String { .. } => Some(InternDataModelTypeRef::String),
        DataModelType::ByteArray { .. } => Some(InternDataModelTypeRef::ByteArray),
        DataModelType::Unit => Some(InternDataModelTypeRef::Unit),
        _ => None,
    }
}

/// The first type entry in use, from `count` on, that `d` matches.
pub open spec fn used_match(st: InternState, d: DataModelType, count: nat) -> Option<Option<nat>>
    decreases st.dmts_len - count,
{
    if count >= st.dmts_len || count >= st.dmts.len() {
        Some(None)
    } else {
        match dmt_match(st, d, st.dmts[count as int]) {
            Some(true) => Some(Some(count)),
            Some(false) => used_match(st, d, count + 1),
            None => None,
        }
    }
}

/// `st` with `e` added to the type table.
pub open spec fn push_dmt(st: InternState, e: InternDataModelType) -> Option<InternState> {
    if st.dmts_len < st.dmts.len() {
        Some(InternState { dmts: st.dmts.update(st.dmts_len as int, e), dmts_len: st.dmts_len + 1, ..st })
    } else {
        None
    }
}

/// `st` with `e` added to the run table.
pub open spec fn push_run(st: InternState, e: InternDataModelType) -> Option<InternState> {
    if st.run_dmts_len < st.run_dmts.len() {
        Some(InternState { run_dmts: st.run_dmts.update(st.run_dmts_len as int, e), run_dmts_len: st.run_dmts_len + 1, ..st })
    } else {
        None
    }
}

/// `st` with `e` added to the named field table.
pub open spec fn push_nf(st: InternState, e: InternNamedField) -> Option<InternState> {
    if st.nfs_len < st.nfs.len() {
        Some(InternState { nfs: st.nfs.update(st.nfs_len as int, e), nfs_len: st.nfs_len + 1, ..st })
    } else {
        None
    }
}

/// `st` with `e` added to the variant table.
pub open spec fn push_vnt(st: InternState, e: InternVariant) -> Option<InternState> {
    if st.vnts_len < st.vnts.len() {
        Some(InternState { vnts: st.vnts.update(st.vnts_len as int, e), vnts_len: st.vnts_len + 1, ..st })
    } else {
        None
    }
}

/// The state and reference [`IntermediateSchema::get_or_insert_interned_dmt`] gives for `d`:
/// a primitive's reference; else the first type entry in use that matches; else a new entry,
/// made after the types inside `d` are interned and written at the end of the table, with a
/// reference to the index where the table ended when the call began. `None` where it fails.
pub open spec fn intern_dmt(st: InternState, d: DataModelType) -> Option<(InternState, InternDataModelTypeRef)>
    decreases d, 1nat, 0nat,
{
    match prim_ref(d) {
        Some(r) => Some((st, r)),
        None => match used_match(st, d, 0) {
            Some(Some(k)) => Some((st, InternDataModelTypeRef::Ref(k as usize))),
            Some(None) => match intern_entry(st, d) {
                Some((s1, e)) => match push_dmt(s1, e) {
                    Some(s2) => Some((s2, InternDataModelTypeRef::Ref(st.dmts_len as usize))),
                    None => None,
                },
                None => None,
            },
            None => None,
        },
    }
}

/// The entry made for the type `d` that is not a primitive, with the state after interning
/// the types inside it.
pub open spec fn intern_entry(st: InternState, d: DataModelType) -> Option<(InternState, InternDataModelType)>
    decreases d, 0nat, 0nat,
{
    match d {
        DataModelType::Option(t) => match intern_dmt(st, *t) {
            Some((s1, r)) => Some((s1, InternDataModelType::Option(r))),
            None => None,
        },
        DataModelType::SeqOf { element, .. } => match intern_dmt(st, *element) {
            Some((s1, r)) => Some((s1, InternDataModelType::SeqOf(r))),
            None => None,
        },
        DataModelType::Tuple(ts) => match intern_run(st, ts@) {
            Some((s1, g)) => Some((s1, InternDataModelType::Tuple(g))),
            None => None,
        },
        DataModelType::Array { item, count } => match intern_dmt(st, *item) {
            Some((s1, r)) => Some((s1, InternDataModelType::Array { item: r, count })),
            None => None,
        },
        DataModelType::MapOf { key, val, .. } => match intern_dmt(st, *key) {
            Some((s1, k)) => match intern_dmt(s1, *val) {
                Some((s2, v)) => Some((s2, InternDataModelType::MapOf { key: k, val: v })),
                None => None,
            },
            None => None,
        },
        DataModelType::Struct { name, data } => match interned_str(st, name.spec_bytes()) {
            Some(n) => match intern_data(st, data) {
                Some((s1, dd)) => Some((s1, InternDataModelType::Struct { name: n, data: dd })),
                None => None,
            },
            None => None,
        },
        DataModelType::Enum { name, variants } => match interned_str(st, name.spec_bytes()) {
            Some(n) => match intern_variant_group(st, variants@) {
                Some((s1, g)) => Some((s1, InternDataModelType::Enum { name: n, variants: g })),
                None => None,
            },
            None => None,
        },
        _ => None,
    }
}

/// The state and interned contents [`IntermediateSchema::get_or_insert_interned_data`] gives.
pub open spec fn intern_data(st: InternState, d: Data) -> Option<(InternState, InternData)>
    decreases d, 1nat, 0nat,
{
    match d {
        Data::Unit => Some((st, InternData::Unit)),
        Data::Newtype(t) => match intern_dmt(st, *t) {
            Some((s1, r)) => Some((s1, InternData::Newtype(r))),
            None => None,
        },
        Data::Tuple(ts) => match intern_run(st, ts@) {
            Some((s1, g)) => Some((s1, InternData::Tuple(g))),
            None => None,
        },
        Data::Struct(fs) => match intern_nf_group(st, fs@) {
            Some((s1, g)) => Some((s1, InternData::Struct(g))),
            None => None,
        },
    }
}

/// The state and group [`IntermediateSchema::get_or_insert_run_dmt`] gives: a run of type
/// entries already there, or the types of `ts` added to the run table.
pub open spec fn intern_run(st: InternState, ts: Seq<DataModelType>) -> Option<(InternState, InternDataModelGroupRef)>
    decreases ts, 2nat, 0nat,
{
    match find_run(st, ts) {
        Some(Some(g)) => Some((st, g)),
        Some(None) => match intern_run_from(st, ts, 0) {
            Some(s1) => Some((s1, InternDataModelGroupRef { offset: st.run_dmts_len as usize, len: ts.len() as usize })),
            None => None,
        },
        None => None,
    }
}

/// The state after adding the entries of the types of `ts`, from the `c`-th on, to the run
/// table.
pub open spec fn intern_run_from(st: InternState, ts: Seq<DataModelType>, c: nat) -> Option<InternState>
    decreases ts, 1nat, ts.len() - c,
{
    if c >= ts.len() {
        Some(st)
    } else {
        match intern_dmt(st, ts[c as int]) {
            Some((s1, r)) => match ref_dmt(s1, r) {
                Some(e) => match push_run(s1, e) {
                    Some(s2) => intern_run_from(s2, ts, c + 1),
                    None => None,
                },
                None => None,
            },
            None => None,
        }
    }
}

/// The state and group [`IntermediateSchema::get_or_insert_nf_group`] gives: a group of named
/// field entries already there, or the fields of `fs` added to the table.
pub open spec fn intern_nf_group(st: InternState, fs: Seq<NamedField>) -> Option<(InternState, InternNamedFieldGroupRef)>
    decreases fs, 2nat, 0nat,
{
    match find_fields(st, fs) {
        Some(Some(g)) => Some((st, g)),
        Some(None) => match intern_fields_from(st, fs, 0) {
            Some(s1) => Some((s1, InternNamedFieldGroupRef { offset: st.nfs_len as usize, len: fs.len() as usize })),
            None => None,
        },
        None => None,
    }
}

/// The state after adding the fields of `fs`, from the `c`-th on, to the named field table.
pub open spec fn intern_fields_from(st: InternState, fs: Seq<NamedField>, c: nat) -> Option<InternState>
    decreases fs, 1nat, fs.len() - c,
{
    if c >= fs.len() {
        Some(st)
    } else {
        match interned_str(st, fs[c as int].name.spec_bytes()) {
            Some(n) => match intern_dmt(st, fs[c as int].ty) {
                Some((s1, r)) => match push_nf(s1, InternNamedField { name: n, ty: r }) {
                    Some(s2) => intern_fields_from(s2, fs, c + 1),
                    None => None,
                },
                None => None,
            },
            None => None,
        }
    }
}

/// The state and group [`IntermediateSchema::get_or_insert_variant_group`] gives: a group of
/// variant entries already there, or the variants of `vs` added to the table.
pub open spec fn intern_variant_group(st: InternState, vs: Seq<Variant>) -> Option<(InternState, InternVariantGroupRef)>
    decreases vs, 2nat, 0nat,
{
    match find_variants(st, vs) {
        Some(Some(g)) => Some((st, g)),
        Some(None) => match intern_variants_from(st, vs, 0) {
            Some(s1) => Some((s1, InternVariantGroupRef { offset: st.vnts_len as usize, len: vs.len() as usize })),
            None => None,
        },
        None => None,
    }
}

/// The state after adding the variants of `vs`, from the `c`-th on, to the variant table.
pub open spec fn intern_variants_from(st: InternState, vs: Seq<Variant>, c: nat) -> Option<InternState>
    decreases vs, 1nat, vs.len() - c,
{
    if c >= vs.len() {
        Some(st)
    } else {
        match interned_str(st, vs[c as int].name.spec_bytes()) {
            Some(n) => match intern_data(st, vs[c as int].data) {
                Some((s1, dd)) => match push_vnt(s1, InternVariant { name: n, data: dd }) {
                    Some(s2) => intern_variants_from(s2, vs, c + 1),
                    None => None,
                },
                None => None,
            },
            None => None,
        }
    }
}

/// The state of a new [`IntermediateSchema`] over the names `strs`, with tables of the given
/// capacities: nothing in use, and each unused slot a placeholder.
pub open spec fn fresh_state(strs: Seq<u8>, run: nat, dmts: nat, nfs: nat, vnts: nat) -> InternState {
    InternState {
        strs,
        run_dmts: Seq::new(run, |i: int| InternDataModelType::Schema),
        run_dmts_len: 0,
        dmts: Seq::new(dmts, |i: int| InternDataModelType::Schema),
        dmts_len: 0,
        nfs: Seq::new(
            nfs,
            |i: int|
                InternNamedField {
                    name: InternStrRef { offset: 0, len: 0 },
                    ty: InternDataModelTypeRef::Schema,
                },
        ),
        nfs_len: 0,
        vnts: Seq::new(
            vnts,
            |i: int|
                InternVariant { name: InternStrRef { offset: 0, len: 0 }, data: InternData::Unit },
        ),
        vnts_len: 0,
    }
}

impl<'a, const DMTS: usize, const RUNDMTS: usize, const NFS: usize, const VNTS: usize> IntermediateSchema<
    'a,
    DMTS,
    RUNDMTS,
    NFS,
    VNTS,
> {
    /// A new intermediate schema over the names in `s`, with every table empty.
    fn new(s: &'a str) -> (r: Self)
        ensures
            r@ == fresh_state(s.spec_bytes(), RUNDMTS as nat, DMTS as nat, NFS as nat, VNTS as nat),
            state_wf(r@),
    {
        let nullstr = InternStrRef { offset: 0, len: 0 };
        let r = Self {
            strs: s,
            run_dmts: [InternDataModelType::Schema; RUNDMTS],
            run_dmts_len: 0,
            dmts: [InternDataModelType::Schema; DMTS],
            dmts_len: 0,
            nfs: [InternNamedField { name: nullstr, ty: InternDataModelTypeRef::Schema }; NFS],
            nfs_len: 0,
            vnts: [InternVariant { name: nullstr, data: InternData::Unit }; VNTS],
            vnts_len: 0,
        };
        assert(r@.run_dmts =~= Seq::new(RUNDMTS as nat, |i: int| InternDataModelType::Schema));
        assert(r@.dmts =~= Seq::new(DMTS as nat, |i: int| InternDataModelType::Schema));
        assert(r@.nfs =~= Seq::new(
            NFS as nat,
            |i: int| InternNamedField { name: nullstr, ty: InternDataModelTypeRef::Schema },
        ));
        assert(r@.vnts =~= Seq::new(
            VNTS as nat,
            |i: int| InternVariant { name: nullstr, data: InternData::Unit },
        ));
        r
    }

    /// Intern the schema `dmt` into a new intermediate schema over the names in `s`.
    pub fn blammo(s: &'a str, dmt: &DataModelType) -> (r: Self)
        requires
            intern_dmt(
                fresh_state(s.spec_bytes(), RUNDMTS as nat, DMTS as nat, NFS as nat, VNTS as nat),
                *dmt,
            ) is Some,
        ensures
            state_wf(r@),
            intern_dmt(
                fresh_state(s.spec_bytes(), RUNDMTS as nat, DMTS as nat, NFS as nat, VNTS as nat),
                *dmt,
            ) matches Some((st, _)) && r@ == st,
    {
        let mut me = Self::new(s);
        let _ = me.get_or_insert_interned_dmt(dmt);
        me
    }

    /// The reference for the schema `dmt`: a primitive's own, or an entry of the type table
    /// that matches, added if there is none.
    pub fn get_or_insert_interned_dmt(&mut self, dmt: &DataModelType) -> (r: InternDataModelTypeRef)
        requires
            state_wf(old(self)@),
            intern_dmt(old(self)@, *dmt) is Some,
        ensures
            state_wf(final(self)@),
            intern_dmt(old(self)@, *dmt) == Some((final(self)@, r)),
        decreases *dmt, 1nat, 0nat,
    {
        match dmt {
            DataModelType::Bool => return InternDataModelTypeRef::Bool,
            DataModelType::I8 => return InternDataModelTypeRef::I8,
            DataModelType::U8 => return InternDataModelTypeRef::U8,
            DataModelType::I16 => return InternDataModelTypeRef::I16,
            DataModelType::I32 => return InternDataModelTypeRef::I32,
            DataModelType::I64 => return InternDataModelTypeRef::I64,
            DataModelType::I128 => return InternDataModelTypeRef::I128,
            DataModelType::U16 => return InternDataModelTypeRef::U16,
            DataModelType::U32 => return InternDataModelTypeRef::U32,
            DataModelType::U64 => return InternDataModelTypeRef::U64,
            DataModelType::U128 => return InternDataModelTypeRef::U128,
            DataModelType::Usize => return InternDataModelTypeRef::Usize,
            DataModelType::Isize => return InternDataModelTypeRef::Isize,
            DataModelType::F32 => return InternDataModelTypeRef::F32,
            DataModelType::F64 => return InternDataModelTypeRef::F64,
            DataModelType::Char => return InternDataModelTypeRef::Char,
            DataModelType::String { .. } => return InternDataModelTypeRef::String,
            DataModelType::ByteArray { .. } => return InternDataModelTypeRef::ByteArray,
            DataModelType::Unit => return InternDataModelTypeRef::Unit,
            _ => {},
        }
        let mut count: usize = 0;
        while count < self.dmts().len()
            invariant
                state_wf(self@),
                self@ == old(self)@,
                prim_ref(*dmt) is None,
                used_match(self@, *dmt, count as nat) == used_match(self@, *dmt, 0),
                used_match(self@, *dmt, 0) is Some,
            decreases self@.dmts_len - count,
        {
            if self.is_dmt_match(dmt, &self.dmts[count]) {
                return InternDataModelTypeRef::Ref(count);
            }
            count += 1;
        }
        let ghost s0 = self@;
        assert(used_match(s0, *dmt, 0) == Some(None::<nat>));
        let old_len = self.dmts_len;
        let entry = match dmt {
            DataModelType::Option(data_model_type) => {
                let rf = self.get_or_insert_interned_dmt(&**data_model_type);
                InternDataModelType::Option(rf)
            },
            DataModelType::SeqOf { element, .. } => {
                InternDataModelType::SeqOf(self.get_or_insert_interned_dmt(&**element))
            },
            DataModelType::Tuple(data_model_types) => {
                InternDataModelType::Tuple(self.get_or_insert_run_dmt(data_model_types.as_slice()))
            },
            DataModelType::Array { item, count } => InternDataModelType::Array {
                item: self.get_or_insert_interned_dmt(&**item),
                count: *count,
            },
            DataModelType::MapOf { key, val, .. } => InternDataModelType::MapOf {
                key: self.get_or_insert_interned_dmt(&**key),
                val: self.get_or_insert_interned_dmt(&**val),
            },
            DataModelType::Struct { name, data } => InternDataModelType::Struct {
                name: self.get_interned_str(name),
                data: self.get_or_insert_interned_data(data),
            },
            DataModelType::Enum { name, variants } => InternDataModelType::Enum {
                name: self.get_interned_str(name),
                variants: self.get_or_insert_variant_group(variants.as_slice()),
            },
            _ => {
                proof {
                    assert(false);
                }
                InternDataModelType::Schema
            },
        };
        assert(intern_entry(s0, *dmt) == Some((self@, entry)));
        self.dmts[self.dmts_len] = entry;
        self.dmts_len += 1;
        InternDataModelTypeRef::Ref(old_len)
    }

    /// The interned contents of a struct or variant, adding what is not there yet.
    pub fn get_or_insert_interned_data(&mut self, data: &Data) -> (r: InternData)
        requires
            state_wf(old(self)@),
            intern_data(old(self)@, *data) is Some,
        ensures
            state_wf(final(self)@),
            intern_data(old(self)@, *data) == Some((final(self)@, r)),
        decreases *data, 1nat, 0nat,
    {
        match data {
            Data::Unit => InternData::Unit,
            Data::Newtype(data_model_type) => {
                let rf = self.get_or_insert_interned_dmt(&**data_model_type);
                InternData::Newtype(rf)
            },
            Data::Tuple(data_model_types) => {
                InternData::Tuple(self.get_or_insert_run_dmt(data_model_types.as_slice()))
            },
            Data::Struct(named_fields) => {
                InternData::Struct(self.get_or_insert_nf_group(named_fields.as_slice()))
            },
        }
    }

    /// The group of run entries for the types `dmts`: one already there, or the types added
    /// to the run table.
    pub fn get_or_insert_run_dmt(&mut self, dmts: &[DataModelType]) -> (r: InternDataModelGroupRef)
        requires
            state_wf(old(self)@),
            intern_run(old(self)@, dmts@) is Some,
        ensures
            state_wf(final(self)@),
            intern_run(old(self)@, dmts@) == Some((final(self)@, r)),
        decreases dmts@, 2nat, 0nat,
    {
        if let Some(rdmts) = self.find_run_dmt(dmts) {
            return rdmts;
        }
        let ghost goal = intern_run_from(self@, dmts@, 0);
        let mut count: usize = 0;
        let start = self.run_dmts_len;
        while count < dmts.len()
            invariant
                state_wf(self@),
                count <= dmts@.len(),
                intern_run_from(self@, dmts@, count as nat) == goal,
                goal is Some,
            decreases dmts@.len() - count,
        {
            proof {
                assert(decreases_to!(dmts@ => dmts@[count as int]));
            }
            let dr = self.get_or_insert_interned_dmt(&dmts[count]);
            self.run_dmts[self.run_dmts_len] = self.dmt_from_ref(&dr);
            self.run_dmts_len += 1;
            count += 1;
        }
        InternDataModelGroupRef { offset: start, len: dmts.len() }
    }

    /// The group of named field entries for the fields `nfs`: one already there, or the
    /// fields added to the table.
    pub fn get_or_insert_nf_group(&mut self, nfs: &[NamedField]) -> (r: InternNamedFieldGroupRef)
        requires
            state_wf(old(self)@),
            intern_nf_group(old(self)@, nfs@) is Some,
        ensures
            state_wf(final(self)@),
            intern_nf_group(old(self)@, nfs@) == Some((final(self)@, r)),
        decreases nfs@, 2nat, 0nat,
    {
        if let Some(nfg) = self.find_named_field_group(nfs) {
            return nfg;
        }
        let ghost goal = intern_fields_from(self@, nfs@, 0);
        let mut count: usize = 0;
        let start = self.nfs_len;
        while count < nfs.len()
            invariant
                state_wf(self@),
                count <= nfs@.len(),
                intern_fields_from(self@, nfs@, count as nat) == goal,
                goal is Some,
            decreases nfs@.len() - count,
        {
            proof {
                assert(decreases_to!(nfs@ => nfs@[count as int].ty));
            }
            let field = InternNamedField {
                name: self.get_interned_str(nfs[count].name),
                ty: self.get_or_insert_interned_dmt(&nfs[count].ty),
            };
            self.nfs[self.nfs_len] = field;
            self.nfs_len += 1;
            count += 1;
        }
        InternNamedFieldGroupRef { offset: start, len: nfs.len() }
    }

    /// The group of variant entries for the variants `vnts`: one already there, or the
    /// variants added to the table.
    pub fn get_or_insert_variant_group(&mut self, vnts: &[Variant]) -> (r: InternVariantGroupRef)
        requires
            state_wf(old(self)@),
            intern_variant_group(old(self)@, vnts@) is Some,
        ensures
            state_wf(final(self)@),
            intern_variant_group(old(self)@, vnts@) == Some((final(self)@, r)),
        decreases vnts@, 2nat, 0nat,
    {
        if let Some(vnt) = self.find_variant_group(vnts) {
            return vnt;
        }
        let ghost goal = intern_variants_from(self@, vnts@, 0);
        let mut count: usize = 0;
        let start = self.vnts_len;
        while count < vnts.len()
            invariant
                state_wf(self@),
                count <= vnts@.len(),
                intern_variants_from(self@, vnts@, count as nat) == goal,
                goal is Some,
            decreases vnts@.len() - count,
        {
            proof {
                assert(decreases_to!(vnts@ => vnts@[count as int].data));
            }
            let variant = InternVariant {
                name: self.get_interned_str(vnts[count].name),
                data: self.get_or_insert_interned_data(&vnts[count].data),
            };
            self.vnts[self.vnts_len] = variant;
            self.vnts_len += 1;
            count += 1;
        }
        InternVariantGroupRef { offset: start, len: vnts.len() }
    }
}

/// An interned schema: the names, and the tables of types, named fields and variants.
pub struct InternedSchema<'a, const DMTS: usize, const NFS: usize, const VNTS: usize> {
    strs: &'a str,
    dmts: [InternDataModelType; DMTS],
    nfs: [InternNamedField; NFS],
    vnts: [InternVariant; VNTS],
}

} // verus!
