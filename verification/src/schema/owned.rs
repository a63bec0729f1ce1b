//! Owned Schema version: the same data model, owning the names of its structs, enums,
//! fields and variants.
use super::{
    data_max_size, data_ok, discriminant_size, fields_max_size, fields_ok, max_size_of, max_size_ok,
    size_result, sum_max_sizes, sum_ok, variants_max_size, variants_ok, varint_size, Data,
    DataModelType, NamedField, Variant,
};
use crate::de::usize_varint_len;
use super::size_as_varint_usize;
use vstd::prelude::*;

verus! {


/// This enum lists which of the Data Model Types apply to a given type. This describes how the
/// type is encoded on the wire.
///
/// This enum contains all Serde Data Model types as well as a "Schema" Type,
/// which corresponds to [`OwnedDataModelType`] itself.
#[derive(Debug, PartialEq, Eq, Hash)]
pub enum OwnedDataModelType {
    /// The `bool` Serde Data Model Type
    Bool,
    /// The `i8` Serde Data Model Type
    I8,
    /// The `u8` Serde Data Model Type
    U8,
    /// A variably encoded i16
    I16,
    /// A variably encoded i32
    I32,
    /// A variably encoded i64
    I64,
    /// A variably encoded i128
    I128,
    /// A variably encoded u16
    U16,
    /// A variably encoded u32
    U32,
    /// A variably encoded u64
    U64,
    /// A variably encoded u128
    U128,
    /// A variably encoded usize
    Usize,
    /// A variably encoded isize
    Isize,
    /// The `f32` Serde Data Model Type
    F32,
    /// The `f64` Serde Data Model Type
    F64,
    /// The `char` Serde Data Model Type
    Char,
    /// The `String` Serde Data Model Type
    String {
        /// Maximum length (in bytes) of the string
        max_len: Option<usize>,
    },
    /// The `&[u8]` Serde Data Model Type
    ByteArray {
        /// Maximum length of the byte array
        max_len: Option<usize>,
    },
    /// The `Option<T>` Serde Data Model Type
    Option(Box<OwnedDataModelType>),
    /// The `()` Serde Data Model Type
    Unit,
    /// The "Sequence" Serde Data Model Type
    SeqOf {
        /// Items in the sequence
        element: Box<OwnedDataModelType>,
        /// Maximum length of the sequence
        max_len: Option<usize>,
    },
    /// The "Tuple" Serde Data Model Type
    Tuple(Vec<OwnedDataModelType>),
    /// A fixed length array like `[T; N]`: `count` items, without a length prefix
    Array {
        /// The array element's type
        item: Box<OwnedDataModelType>,
        /// The number of items in the fixed size array
        count: usize,
    },
    /// The "Map" Serde Data Model Type
    MapOf {
        /// The map "Key" type
        key: Box<OwnedDataModelType>,
        /// The map "Value" type
        val: Box<OwnedDataModelType>,
        /// Maximum number of K:V pairs
        max_len: Option<usize>,
    },
    /// One of the struct Serde Data Model types
    Struct {
        /// The name of this struct
        name: String,
        /// The data contained in this struct
        data: OwnedData,
    },
    /// The "Enum" Serde Data Model Type (which contains any of the "Variant" types)
    Enum {
        /// The name of this enum
        name: String,
        /// The variants contained in this enum
        variants: Vec<OwnedVariant>,
    },
    /// A [`super::DataModelType`]/[`OwnedDataModelType`]
    Schema,
}

/// The contents of a struct or enum variant.
#[derive(Debug, PartialEq, Eq, Hash)]
pub enum OwnedData {
    /// The "Unit Struct" or "Unit Variant" Serde Data Model Type
    Unit,
    /// The "Newtype Struct" or "Newtype Variant" Serde Data Model Type
    Newtype(Box<OwnedDataModelType>),
    /// The "Tuple Struct" or "Tuple Variant" Serde Data Model Type
    Tuple(Vec<OwnedDataModelType>),
    /// The "Struct" or "Struct Variant" Serde Data Model Type
    Struct(Vec<OwnedNamedField>),
}

/// This represents a named struct field.
///
/// For example, in `struct Ex { a: u32 }` the field `a` would be reflected as
/// `OwnedNamedField { name: "a", ty: OwnedDataModelType::U32 }`.
#[derive(Debug, PartialEq, Eq, Hash)]
pub struct OwnedNamedField {
    /// The name of this field
    pub name: String,
    /// The type of this field
    pub ty: OwnedDataModelType,
}

/// An enum variant e.g. `T::Bar(...)`
#[derive(Debug, PartialEq, Eq, Hash)]
pub struct OwnedVariant {
    /// The name of this variant
    pub name: String,
    /// The data contained in this variant
    pub data: OwnedData,
}

// ---------------------------------------------------------------------------
// Maximum serialized size
// ---------------------------------------------------------------------------

/// The largest number of bytes a value of the schema `d` is serialized to, or `None` when
/// there is no bound.
pub open spec fn owned_max_size_of(d: OwnedDataModelType) -> Option<nat>
    decreases d,
{
    match d {
        OwnedDataModelType::Bool => Some(1),
        OwnedDataModelType::I8 => Some(1),
        OwnedDataModelType::U8 => Some(1),
        OwnedDataModelType::I16 => Some(3),
        OwnedDataModelType::I32 => Some(5),
        OwnedDataModelType::I64 => Some(10),
        OwnedDataModelType::I128 => Some(19),
        OwnedDataModelType::U16 => Some(3),
        OwnedDataModelType::U32 => Some(5),
        OwnedDataModelType::U64 => Some(10),
        OwnedDataModelType::U128 => Some(19),
        OwnedDataModelType::Usize => Some(usize_varint_len()),
        OwnedDataModelType::Isize => Some(usize_varint_len()),
        OwnedDataModelType::F32 => Some(4),
        OwnedDataModelType::F64 => Some(8),
        OwnedDataModelType::Char => Some(5),
        OwnedDataModelType::String { max_len } => match max_len {
            Some(b) => Some(varint_size(b as nat) + b as nat),
            None => None,
        },
        OwnedDataModelType::ByteArray { max_len } => match max_len {
            Some(b) => Some(varint_size(b as nat) + b as nat),
            None => None,
        },
        OwnedDataModelType::Option(t) => match owned_max_size_of(*t) {
            Some(s) => Some(1 + s),
            None => None,
        },
        OwnedDataModelType::Unit => Some(0),
        OwnedDataModelType::SeqOf { element, max_len } => match max_len {
            Some(b) => match owned_max_size_of(*element) {
                Some(s) => Some(varint_size(b as nat) + b as nat * s),
                None => None,
            },
            None => None,
        },
        OwnedDataModelType::Tuple(ts) => owned_sum_max_sizes(ts@),
        OwnedDataModelType::Array { item, count } => match owned_max_size_of(*item) {
            Some(s) => Some(count as nat * s),
            None => None,
        },
        OwnedDataModelType::MapOf { key, val, max_len } => match max_len {
            Some(b) => match owned_max_size_of(*key) {
                Some(k) => match owned_max_size_of(*val) {
                    Some(v) => Some(varint_size(b as nat) + b as nat * (k + v)),
                    None => None,
                },
                None => None,
            },
            None => None,
        },
        OwnedDataModelType::Struct { name, data } => owned_data_max_size(data),
        OwnedDataModelType::Enum { name, variants } => match owned_variants_max_size(variants@) {
            Some(m) => Some(discriminant_size(variants@.len()) + m),
            None => None,
        },
        OwnedDataModelType::Schema => None,
    }
}

/// The largest size of the contents of a struct or variant.
pub open spec fn owned_data_max_size(d: OwnedData) -> Option<nat>
    decreases d,
{
    match d {
        OwnedData::Unit => Some(0),
        OwnedData::Newtype(t) => owned_max_size_of(*t),
        OwnedData::Tuple(ts) => owned_sum_max_sizes(ts@),
        OwnedData::Struct(fs) => owned_fields_max_size(fs@),
    }
}

/// The sum of the largest sizes of `ts`, or `None` when one of them is unbounded.
pub open spec fn owned_sum_max_sizes(ts: Seq<OwnedDataModelType>) -> Option<nat>
    decreases ts,
{
    if ts.len() == 0 {
        Some(0)
    } else {
        match owned_sum_max_sizes(ts.drop_last()) {
            Some(p) => match owned_max_size_of(ts.last()) {
                Some(s) => Some(p + s),
                None => None,
            },
            None => None,
        }
    }
}

/// The sum of the largest sizes of the types of `fs`.
pub open spec fn owned_fields_max_size(fs: Seq<OwnedNamedField>) -> Option<nat>
    decreases fs,
{
    if fs.len() == 0 {
        Some(0)
    } else {
        match owned_fields_max_size(fs.drop_last()) {
            Some(p) => match owned_max_size_of(fs.last().ty) {
                Some(s) => Some(p + s),
                None => None,
            },
            None => None,
        }
    }
}

/// The largest of the largest sizes of the contents of `vs`.
pub open spec fn owned_variants_max_size(vs: Seq<OwnedVariant>) -> Option<nat>
    decreases vs,
{
    if vs.len() == 0 {
        Some(0)
    } else {
        match owned_variants_max_size(vs.drop_last()) {
            Some(m) => match owned_data_max_size(vs.last().data) {
                Some(s) => Some(
                    if s > m {
                        s
                    } else {
                        m
                    },
                ),
                None => None,
            },
            None => None,
        }
    }
}

/// Computing the largest size of `d` reaches no `Schema` and no number beyond `usize`:
/// every running total, up to the first unbounded part, fits.
pub open spec fn owned_max_size_ok(d: OwnedDataModelType) -> bool
    decreases d,
{
    match d {
        OwnedDataModelType::String { max_len } => match max_len {
            Some(b) => varint_size(b as nat) + b <= usize::MAX,
            None => true,
        },
        OwnedDataModelType::ByteArray { max_len } => match max_len {
            Some(b) => varint_size(b as nat) + b <= usize::MAX,
            None => true,
        },
        OwnedDataModelType::Option(t) => owned_max_size_ok(*t) && (owned_max_size_of(*t) matches Some(s) ==> 1 + s
            <= usize::MAX),
        OwnedDataModelType::SeqOf { element, max_len } => match max_len {
            Some(b) => owned_max_size_ok(*element) && (owned_max_size_of(*element) matches Some(s) ==> b * s
                <= usize::MAX && varint_size(b as nat) + b * s <= usize::MAX),
            None => true,
        },
        OwnedDataModelType::Tuple(ts) => owned_sum_ok(ts@),
        OwnedDataModelType::Array { item, count } => owned_max_size_ok(*item) && (owned_max_size_of(*item) matches Some(
            s,
        ) ==> count * s <= usize::MAX),
        OwnedDataModelType::MapOf { key, val, max_len } => match max_len {
            Some(b) => owned_max_size_ok(*key) && (owned_max_size_of(*key) matches Some(k) ==> owned_max_size_ok(*val)
                && (owned_max_size_of(*val) matches Some(v) ==> k + v <= usize::MAX && b * (k + v)
                <= usize::MAX && varint_size(b as nat) + b * (k + v) <= usize::MAX)),
            None => true,
        },
        OwnedDataModelType::Struct { name, data } => owned_data_ok(data),
        OwnedDataModelType::Enum { name, variants } => owned_variants_ok(variants@) && (owned_variants_max_size(
            variants@,
        ) matches Some(m) ==> discriminant_size(variants@.len()) + m <= usize::MAX),
        OwnedDataModelType::Schema => false,
        _ => true,
    }
}

/// [`owned_max_size_ok`] for the contents of a struct or variant.
pub open spec fn owned_data_ok(d: OwnedData) -> bool
    decreases d,
{
    match d {
        OwnedData::Unit => true,
        OwnedData::Newtype(t) => owned_max_size_ok(*t),
        OwnedData::Tuple(ts) => owned_sum_ok(ts@),
        OwnedData::Struct(fs) => owned_fields_ok(fs@),
    }
}

/// [`owned_max_size_ok`] for a sum over `ts`.
pub open spec fn owned_sum_ok(ts: Seq<OwnedDataModelType>) -> bool
    decreases ts,
{
    if ts.len() == 0 {
        true
    } else {
        owned_sum_ok(ts.drop_last()) && (owned_sum_max_sizes(ts.drop_last()) matches Some(p) ==> owned_max_size_ok(
            ts.last(),
        ) && (owned_max_size_of(ts.last()) matches Some(s) ==> p + s <= usize::MAX))
    }
}

/// [`owned_max_size_ok`] for a sum over the types of `fs`.
pub open spec fn owned_fields_ok(fs: Seq<OwnedNamedField>) -> bool
    decreases fs,
{
    if fs.len() == 0 {
        true
    } else {
        owned_fields_ok(fs.drop_last()) && (owned_fields_max_size(fs.drop_last()) matches Some(p) ==> owned_max_size_ok(
            fs.last().ty,
        ) && (owned_max_size_of(fs.last().ty) matches Some(s) ==> p + s <= usize::MAX))
    }
}

/// [`owned_max_size_ok`] for the largest over the contents of `vs`.
pub open spec fn owned_variants_ok(vs: Seq<OwnedVariant>) -> bool
    decreases vs,
{
    if vs.len() == 0 {
        true
    } else {
        owned_variants_ok(vs.drop_last()) && (owned_variants_max_size(vs.drop_last()) is Some ==> owned_data_ok(
            vs.last().data,
        ))
    }
}


// Facts about prefixes of the sums and maxima above.

/// The checks of a sequence hold of its prefixes, and an unbounded prefix makes the whole
/// unbounded.
pub proof fn owned_lemma_sum_prefix(ts: Seq<OwnedDataModelType>, i: int)
    requires
        0 <= i <= ts.len(),
    ensures
        owned_sum_ok(ts) ==> owned_sum_ok(ts.take(i)),
        owned_sum_max_sizes(ts.take(i)) is None ==> owned_sum_max_sizes(ts) is None,
    decreases ts.len() - i,
{
    if i < ts.len() {
        owned_lemma_sum_prefix(ts.drop_last(), i);
        assert(ts.drop_last().take(i) == ts.take(i));
    } else {
        assert(ts.take(i) == ts);
    }
}

/// [`owned_lemma_sum_prefix`] for fields.
pub proof fn owned_lemma_fields_prefix(fs: Seq<OwnedNamedField>, i: int)
    requires
        0 <= i <= fs.len(),
    ensures
        owned_fields_ok(fs) ==> owned_fields_ok(fs.take(i)),
        owned_fields_max_size(fs.take(i)) is None ==> owned_fields_max_size(fs) is None,
    decreases fs.len() - i,
{
    if i < fs.len() {
        owned_lemma_fields_prefix(fs.drop_last(), i);
        assert(fs.drop_last().take(i) == fs.take(i));
    } else {
        assert(fs.take(i) == fs);
    }
}

/// [`owned_lemma_sum_prefix`] for variants.
pub proof fn owned_lemma_variants_prefix(vs: Seq<OwnedVariant>, i: int)
    requires
        0 <= i <= vs.len(),
    ensures
        owned_variants_ok(vs) ==> owned_variants_ok(vs.take(i)),
        owned_variants_max_size(vs.take(i)) is None ==> owned_variants_max_size(vs) is None,
    decreases vs.len() - i,
{
    if i < vs.len() {
        owned_lemma_variants_prefix(vs.drop_last(), i);
        assert(vs.drop_last().take(i) == vs.take(i));
    } else {
        assert(vs.take(i) == vs);
    }
}

/// The sum of the largest sizes of `data_model_types`, or `None` when one is unbounded.
pub fn owned_arr_max_size(data_model_types: &[OwnedDataModelType]) -> (r: Option<usize>)
    requires
        owned_sum_ok(data_model_types@),
    ensures
        size_result(owned_sum_max_sizes(data_model_types@), r),
    decreases data_model_types@,
{
    let ghost ts = data_model_types@;
    let mut idx: usize = 0;
    let mut sum: usize = 0;
    assert(ts.take(0) == Seq::<OwnedDataModelType>::empty());
    while idx < data_model_types.len()
        invariant
            ts == data_model_types@,
            owned_sum_ok(ts),
            idx <= ts.len(),
            owned_sum_max_sizes(ts.take(idx as int)) == Some(sum as nat),
        decreases ts.len() - idx,
    {
        proof {
            owned_lemma_sum_prefix(ts, idx + 1);
            assert(ts.take(idx + 1).drop_last() == ts.take(idx as int));
            assert(ts.take(idx + 1).last() == ts[idx as int]);
            assert(decreases_to!(ts => ts[idx as int]));
        }
        let size = match data_model_types[idx].max_size() {
            Some(size) => size,
            None => {
                proof {
                    owned_lemma_sum_prefix(ts, idx + 1);
                }
                return None;
            },
        };
        sum += size;
        idx += 1;
    }
    assert(ts.take(idx as int) == ts);
    Some(sum)
}

impl OwnedDataModelType {
    /// Max serialized size
    pub fn max_size(&self) -> (r: Option<usize>)
        requires
            owned_max_size_ok(*self),
        ensures
            size_result(owned_max_size_of(*self), r),
        decreases self,
    {
        match self {
            OwnedDataModelType::Bool => Some(1),
            OwnedDataModelType::I8 => Some(1),
            OwnedDataModelType::U8 => Some(1),
            OwnedDataModelType::I16 => Some(crate::varint::varint_max::<i16>()),
            OwnedDataModelType::I32 => Some(crate::varint::varint_max::<i32>()),
            OwnedDataModelType::I64 => Some(crate::varint::varint_max::<i64>()),
            OwnedDataModelType::I128 => Some(crate::varint::varint_max::<i128>()),
            OwnedDataModelType::U16 => Some(crate::varint::varint_max::<u16>()),
            OwnedDataModelType::U32 => Some(crate::varint::varint_max::<i32>()),
            OwnedDataModelType::U64 => Some(crate::varint::varint_max::<u64>()),
            OwnedDataModelType::U128 => Some(crate::varint::varint_max::<u128>()),
            OwnedDataModelType::Usize => Some(crate::varint::varint_max::<usize>()),
            OwnedDataModelType::Isize => Some(crate::varint::varint_max::<isize>()),
            OwnedDataModelType::F32 => Some(4),
            OwnedDataModelType::F64 => Some(8),
            OwnedDataModelType::Char => Some(5),
            OwnedDataModelType::String { max_len } => {
                if let Some(bound) = max_len {
                    Some(size_as_varint_usize(*bound) + *bound)
                } else {
                    None
                }
            },
            OwnedDataModelType::ByteArray { max_len } => {
                if let Some(bound) = max_len {
                    Some(size_as_varint_usize(*bound) + *bound)
                } else {
                    None
                }
            },
            OwnedDataModelType::Option(data_model_type) => {
                if let Some(bound) = data_model_type.max_size() {
                    Some(1 + bound)
                } else {
                    None
                }
            },
            OwnedDataModelType::Unit => Some(0),
            OwnedDataModelType::SeqOf { element, max_len } => {
                let bound = match max_len {
                    Some(bound) => *bound,
                    None => return None,
                };
                let size = match element.max_size() {
                    Some(size) => size,
                    None => return None,
                };
                Some(size_as_varint_usize(bound) + bound * size)
            },
            OwnedDataModelType::Tuple(data_model_types) => owned_arr_max_size(data_model_types.as_slice()),
            OwnedDataModelType::Array { item, count } => {
                let size = match item.max_size() {
                    Some(size) => size,
                    None => return None,
                };
                Some(*count * size)
            },
            OwnedDataModelType::MapOf { key, val, max_len } => {
                let bound = match max_len {
                    Some(bound) => *bound,
                    None => return None,
                };
                let ksize = match key.max_size() {
                    Some(ksize) => ksize,
                    None => return None,
                };
                let vsize = match val.max_size() {
                    Some(vsize) => vsize,
                    None => return None,
                };
                let pair = ksize + vsize;
                let pairs = bound * pair;
                Some(size_as_varint_usize(bound) + pairs)
            },
            OwnedDataModelType::Struct { name: _, data } => data.max_size(),
            OwnedDataModelType::Enum { name: _, variants } => {
                let ghost vs = variants@;
                let mut idx: usize = 0;
                let disc = if variants.len() == 0 {
                    1
                } else {
                    size_as_varint_usize(variants.len() - 1)
                };
                let mut max: usize = 0;
                assert(vs.take(0) == Seq::<OwnedVariant>::empty());
                #[verifier::loop_isolation(false)]
                while idx < variants.len()
                    invariant
                        vs == variants@,
                        owned_variants_ok(vs),
                        idx <= vs.len(),
                        owned_variants_max_size(vs.take(idx as int)) == Some(max as nat),
                        disc == discriminant_size(vs.len()),
                        decreases_to!(*self => vs),
                    decreases vs.len() - idx,
                {
                    proof {
                        owned_lemma_variants_prefix(vs, idx + 1);
                        assert(vs.take(idx + 1).drop_last() == vs.take(idx as int));
                        assert(vs.take(idx + 1).last() == vs[idx as int]);
                        assert(decreases_to!(*self => vs[idx as int].data));
                    }
                    let size = match variants[idx].data.max_size() {
                        Some(size) => size,
                        None => {
                            proof {
                                owned_lemma_variants_prefix(vs, idx + 1);
                                assert(owned_variants_max_size(vs.take(idx + 1)) is None);
                                assert(owned_variants_max_size(vs) is None);
                            }
                            return None;
                        },
                    };
                    if size > max {
                        max = size;
                    }
                    idx += 1;
                }
                assert(vs.take(idx as int) == vs);
                Some(disc + max)
            },
            OwnedDataModelType::Schema => {
                proof {
                    assert(false);
                }
                None
            },
        }
    }
}

impl OwnedData {
    /// Max serialized size
    pub fn max_size(&self) -> (r: Option<usize>)
        requires
            owned_data_ok(*self),
        ensures
            size_result(owned_data_max_size(*self), r),
        decreases self,
    {
        match self {
            OwnedData::Unit => Some(0),
            OwnedData::Newtype(data_model_type) => data_model_type.max_size(),
            OwnedData::Tuple(data_model_types) => owned_arr_max_size(data_model_types.as_slice()),
            OwnedData::Struct(named_fields) => {
                let ghost fs = named_fields@;
                let mut idx: usize = 0;
                let mut sum: usize = 0;
                assert(fs.take(0) == Seq::<OwnedNamedField>::empty());
                #[verifier::loop_isolation(false)]
                while idx < named_fields.len()
                    invariant
                        fs == named_fields@,
                        owned_fields_ok(fs),
                        idx <= fs.len(),
                        owned_fields_max_size(fs.take(idx as int)) == Some(sum as nat),
                        decreases_to!(*self => fs),
                    decreases fs.len() - idx,
                {
                    proof {
                        owned_lemma_fields_prefix(fs, idx + 1);
                        assert(fs.take(idx + 1).drop_last() == fs.take(idx as int));
                        assert(fs.take(idx + 1).last() == fs[idx as int]);
                        assert(decreases_to!(*self => fs[idx as int].ty));
                    }
                    let size = match named_fields[idx].ty.max_size() {
                        Some(size) => size,
                        None => {
                            proof {
                                owned_lemma_fields_prefix(fs, idx + 1);
                                assert(owned_fields_max_size(fs.take(idx + 1)) is None);
                                assert(owned_fields_max_size(fs) is None);
                            }
                            return None;
                        },
                    };
                    sum += size;
                    idx += 1;
                }
                assert(fs.take(idx as int) == fs);
                Some(sum)
            },
        }
    }
}


// ---------------------------------------------------------------------------
// Owned copies of borrowed schemas
// ---------------------------------------------------------------------------

/// `o` is the owned copy of `d`: the same shape, with names holding the same text.
pub open spec fn copy_of(o: OwnedDataModelType, d: DataModelType) -> bool
    decreases d,
{
    match d {
        DataModelType::Bool => o is Bool,
        DataModelType::I8 => o is I8,
        DataModelType::U8 => o is U8,
        DataModelType::I16 => o is I16,
        DataModelType::I32 => o is I32,
        DataModelType::I64 => o is I64,
        DataModelType::I128 => o is I128,
        DataModelType::U16 => o is U16,
        DataModelType::U32 => o is U32,
        DataModelType::U64 => o is U64,
        DataModelType::U128 => o is U128,
        DataModelType::Usize => o is Usize,
        DataModelType::Isize => o is Isize,
        DataModelType::F32 => o is F32,
        DataModelType::F64 => o is F64,
        DataModelType::Char => o is Char,
        DataModelType::Unit => o is Unit,
        DataModelType::Schema => o is Schema,
        DataModelType::String { max_len } => o matches OwnedDataModelType::String { max_len: m }
            && m == max_len,
        DataModelType::ByteArray { max_len } => o matches OwnedDataModelType::ByteArray {
            max_len: m,
        } && m == max_len,
        DataModelType::Option(t) => o matches OwnedDataModelType::Option(u) && copy_of(*u, *t),
        DataModelType::SeqOf { element, max_len } => o matches OwnedDataModelType::SeqOf {
            element: e,
            max_len: m,
        } && m == max_len && copy_of(*e, *element),
        DataModelType::Tuple(ts) => o matches OwnedDataModelType::Tuple(us) && copies_of(us@, ts@),
        DataModelType::Array { item, count } => o matches OwnedDataModelType::Array {
            item: i,
            count: c,
        } && c == count && copy_of(*i, *item),
        DataModelType::MapOf { key, val, max_len } => o matches OwnedDataModelType::MapOf {
            key: k,
            val: v,
            max_len: m,
        } && m == max_len && copy_of(*k, *key) && copy_of(*v, *val),
        DataModelType::Struct { name, data } => o matches OwnedDataModelType::Struct {
            name: n,
            data: e,
        } && n@ == name@ && data_copy_of(e, data),
        DataModelType::Enum { name, variants } => o matches OwnedDataModelType::Enum {
            name: n,
            variants: vs,
        } && n@ == name@ && variants_copy_of(vs@, variants@),
    }
}

/// [`copy_of`] for the contents of a struct or variant.
pub open spec fn data_copy_of(o: OwnedData, d: Data) -> bool
    decreases d,
{
    match d {
        Data::Unit => o is Unit,
        Data::Newtype(t) => o matches OwnedData::Newtype(u) && copy_of(*u, *t),
        Data::Tuple(ts) => o matches OwnedData::Tuple(us) && copies_of(us@, ts@),
        Data::Struct(fs) => o matches OwnedData::Struct(gs) && fields_copy_of(gs@, fs@),
    }
}

/// [`copy_of`] element by element.
pub open spec fn copies_of(os: Seq<OwnedDataModelType>, ds: Seq<DataModelType>) -> bool
    decreases ds,
{
    os.len() == ds.len() && (ds.len() > 0 ==> copies_of(os.drop_last(), ds.drop_last()) && copy_of(
        os.last(),
        ds.last(),
    ))
}

/// [`copy_of`] for fields, element by element.
pub open spec fn fields_copy_of(os: Seq<OwnedNamedField>, ds: Seq<NamedField>) -> bool
    decreases ds,
{
    os.len() == ds.len() && (ds.len() > 0 ==> fields_copy_of(os.drop_last(), ds.drop_last())
        && os.last().name@ == ds.last().name@ && copy_of(os.last().ty, ds.last().ty))
}

/// [`copy_of`] for variants, element by element.
pub open spec fn variants_copy_of(os: Seq<OwnedVariant>, ds: Seq<Variant>) -> bool
    decreases ds,
{
    os.len() == ds.len() && (ds.len() > 0 ==> variants_copy_of(os.drop_last(), ds.drop_last())
        && os.last().name@ == ds.last().name@ && data_copy_of(os.last().data, ds.last().data))
}

/// Owned copies of the types in `ts`.
fn copy_types(ts: &Vec<DataModelType>) -> (r: Vec<OwnedDataModelType>)
    ensures
        copies_of(r@, ts@),
    decreases ts@,
{
    let mut out: Vec<OwnedDataModelType> = Vec::new();
    let mut i: usize = 0;
    while i < ts.len()
        invariant
            i <= ts@.len(),
            copies_of(out@, ts@.take(i as int)),
        decreases ts@.len() - i,
    {
        proof {
            assert(decreases_to!(ts@ => ts@[i as int]));
        }
        let ghost before = out@;
        out.push(OwnedDataModelType::from(&ts[i]));
        assert(out@.drop_last() == before);
        assert(ts@.take(i + 1).drop_last() == ts@.take(i as int));
        i += 1;
    }
    assert(ts@.take(i as int) == ts@);
    out
}

/// Owned copies of the fields in `fs`.
fn copy_fields(fs: &Vec<NamedField>) -> (r: Vec<OwnedNamedField>)
    ensures
        fields_copy_of(r@, fs@),
    decreases fs@,
{
    let mut out: Vec<OwnedNamedField> = Vec::new();
    let mut i: usize = 0;
    while i < fs.len()
        invariant
            i <= fs@.len(),
            fields_copy_of(out@, fs@.take(i as int)),
        decreases fs@.len() - i,
    {
        proof {
            assert(decreases_to!(fs@ => fs@[i as int]));
        }
        let ghost before = out@;
        out.push(OwnedNamedField::from(&fs[i]));
        assert(out@.drop_last() == before);
        assert(fs@.take(i + 1).drop_last() == fs@.take(i as int));
        i += 1;
    }
    assert(fs@.take(i as int) == fs@);
    out
}

/// Owned copies of the variants in `vs`.
fn copy_variants(vs: &Vec<Variant>) -> (r: Vec<OwnedVariant>)
    ensures
        variants_copy_of(r@, vs@),
    decreases vs@,
{
    let mut out: Vec<OwnedVariant> = Vec::new();
    let mut i: usize = 0;
    while i < vs.len()
        invariant
            i <= vs@.len(),
            variants_copy_of(out@, vs@.take(i as int)),
        decreases vs@.len() - i,
    {
        proof {
            assert(decreases_to!(vs@ => vs@[i as int]));
        }
        let ghost before = out@;
        out.push(OwnedVariant::from(&vs[i]));
        assert(out@.drop_last() == before);
        assert(vs@.take(i + 1).drop_last() == vs@.take(i as int));
        i += 1;
    }
    assert(vs@.take(i as int) == vs@);
    out
}

impl OwnedDataModelType {
    /// The owned copy of a borrowed schema.
    pub fn from(other: &DataModelType) -> (r: Self)
        ensures
            copy_of(r, *other),
            r@ == super::shape::dmt_view(*other),
        decreases *other,
    {
        let r = match other {
            DataModelType::Bool => Self::Bool,
            DataModelType::I8 => Self::I8,
            DataModelType::U8 => Self::U8,
            DataModelType::I16 => Self::I16,
            DataModelType::I32 => Self::I32,
            DataModelType::I64 => Self::I64,
            DataModelType::I128 => Self::I128,
            DataModelType::U16 => Self::U16,
            DataModelType::U32 => Self::U32,
            DataModelType::U64 => Self::U64,
            DataModelType::U128 => Self::U128,
            DataModelType::Usize => Self::Usize,
            DataModelType::Isize => Self::Isize,
            DataModelType::F32 => Self::F32,
            DataModelType::F64 => Self::F64,
            DataModelType::Char => Self::Char,
            DataModelType::String { max_len } => Self::String { max_len: *max_len },
            DataModelType::ByteArray { max_len } => Self::ByteArray { max_len: *max_len },
            DataModelType::Option(o) => Self::Option(Box::new(Self::from(&**o))),
            DataModelType::Unit => Self::Unit,
            DataModelType::SeqOf { element, max_len } => Self::SeqOf {
                element: Box::new(Self::from(&**element)),
                max_len: *max_len,
            },
            DataModelType::Tuple(t) => Self::Tuple(copy_types(t)),
            DataModelType::Array { item, count } => Self::Array {
                item: Box::new(Self::from(&**item)),
                count: *count,
            },
            DataModelType::MapOf { key, val, max_len } => Self::MapOf {
                key: Box::new(Self::from(&**key)),
                val: Box::new(Self::from(&**val)),
                max_len: *max_len,
            },
            DataModelType::Struct { name, data } => Self::Struct {
                name: (*name).to_owned(),
                data: OwnedData::from(data),
            },
            DataModelType::Enum { name, variants } => Self::Enum {
                name: (*name).to_owned(),
                variants: copy_variants(variants),
            },
            DataModelType::Schema => Self::Schema,
        };
        proof {
            super::shape::lemma_copy_iff_same_view(r, *other);
        }
        r
    }
}

impl OwnedData {
    /// The owned copy of the contents of a struct or variant.
    pub fn from(data: &Data) -> (r: Self)
        ensures
            data_copy_of(r, *data),
        decreases *data,
    {
        match data {
            Data::Unit => Self::Unit,
            Data::Newtype(d) => Self::Newtype(Box::new(OwnedDataModelType::from(&**d))),
            Data::Tuple(d) => Self::Tuple(copy_types(d)),
            Data::Struct(d) => Self::Struct(copy_fields(d)),
        }
    }
}

impl OwnedNamedField {
    /// The owned copy of a named field.
    pub fn from(value: &NamedField) -> (r: Self)
        ensures
            r.name@ == value.name@,
            copy_of(r.ty, value.ty),
        decreases *value,
    {
        Self { name: value.name.to_owned(), ty: OwnedDataModelType::from(&value.ty) }
    }
}

impl OwnedVariant {
    /// The owned copy of a variant.
    pub fn from(value: &Variant) -> (r: Self)
        ensures
            r.name@ == value.name@,
            data_copy_of(r.data, value.data),
        decreases *value,
    {
        Self { name: value.name.to_owned(), data: OwnedData::from(&value.data) }
    }
}


/// Law: an owned copy of a schema bounds its values by the same number of bytes as the
/// borrowed schema it was copied from.
pub proof fn law_copy_keeps_max_size(o: OwnedDataModelType, d: DataModelType)
    requires
        copy_of(o, d),
    ensures
        owned_max_size_of(o) == max_size_of(d),
        owned_max_size_ok(o) == max_size_ok(d),
    decreases d,
{
    match d {
        DataModelType::Option(t) => {
            if let OwnedDataModelType::Option(u) = o {
                law_copy_keeps_max_size(*u, *t);
            }
        },
        DataModelType::SeqOf { element, max_len } => {
            if let OwnedDataModelType::SeqOf { element: e, .. } = o {
                law_copy_keeps_max_size(*e, *element);
            }
        },
        DataModelType::Tuple(ts) => {
            if let OwnedDataModelType::Tuple(us) = o {
                lemma_copies_keep_sizes(us@, ts@);
            }
        },
        DataModelType::Array { item, count } => {
            if let OwnedDataModelType::Array { item: i, .. } = o {
                law_copy_keeps_max_size(*i, *item);
            }
        },
        DataModelType::MapOf { key, val, max_len } => {
            if let OwnedDataModelType::MapOf { key: k, val: v, .. } = o {
                law_copy_keeps_max_size(*k, *key);
                law_copy_keeps_max_size(*v, *val);
            }
        },
        DataModelType::Struct { name, data } => {
            if let OwnedDataModelType::Struct { data: e, .. } = o {
                law_data_copy_keeps_max_size(e, data);
            }
        },
        DataModelType::Enum { name, variants } => {
            if let OwnedDataModelType::Enum { variants: vs, .. } = o {
                lemma_variant_copies_keep_sizes(vs@, variants@);
                assert(variants_copy_of(vs@, variants@));
            }
        },
        _ => {},
    }
}

/// Law: an owned copy of the contents of a struct or variant bounds its values by the same
/// number of bytes as the borrowed contents it was copied from.
pub proof fn law_data_copy_keeps_max_size(o: OwnedData, d: Data)
    requires
        data_copy_of(o, d),
    ensures
        owned_data_max_size(o) == data_max_size(d),
        owned_data_ok(o) == data_ok(d),
    decreases d,
{
    match d {
        Data::Unit => {},
        Data::Newtype(t) => {
            if let OwnedData::Newtype(u) = o {
                law_copy_keeps_max_size(*u, *t);
            }
        },
        Data::Tuple(ts) => {
            if let OwnedData::Tuple(us) = o {
                lemma_copies_keep_sizes(us@, ts@);
            }
        },
        Data::Struct(fs) => {
            if let OwnedData::Struct(gs) = o {
                lemma_field_copies_keep_sizes(gs@, fs@);
            }
        },
    }
}

/// [`law_copy_keeps_max_size`] element by element.
proof fn lemma_copies_keep_sizes(os: Seq<OwnedDataModelType>, ds: Seq<DataModelType>)
    requires
        copies_of(os, ds),
    ensures
        owned_sum_max_sizes(os) == sum_max_sizes(ds),
        owned_sum_ok(os) == sum_ok(ds),
    decreases ds,
{
    if ds.len() > 0 {
        lemma_copies_keep_sizes(os.drop_last(), ds.drop_last());
        law_copy_keeps_max_size(os.last(), ds.last());
    }
}

/// [`law_copy_keeps_max_size`] for fields.
proof fn lemma_field_copies_keep_sizes(os: Seq<OwnedNamedField>, ds: Seq<NamedField>)
    requires
        fields_copy_of(os, ds),
    ensures
        owned_fields_max_size(os) == fields_max_size(ds),
        owned_fields_ok(os) == fields_ok(ds),
    decreases ds,
{
    if ds.len() > 0 {
        lemma_field_copies_keep_sizes(os.drop_last(), ds.drop_last());
        law_copy_keeps_max_size(os.last().ty, ds.last().ty);
    }
}

/// [`law_copy_keeps_max_size`] for variants.
proof fn lemma_variant_copies_keep_sizes(os: Seq<OwnedVariant>, ds: Seq<Variant>)
    requires
        variants_copy_of(os, ds),
    ensures
        owned_variants_max_size(os) == variants_max_size(ds),
        owned_variants_ok(os) == variants_ok(ds),
    decreases ds,
{
    if ds.len() > 0 {
        lemma_variant_copies_keep_sizes(os.drop_last(), ds.drop_last());
        law_data_copy_keeps_max_size(os.last().data, ds.last().data);
    }
}

} // verus!
