//! ## Schema types
//!
//! The types in this module are used to define the schema of a given data type.
//!
//! The **Postcard Data Model** is nearly identical to the **Serde Data Model**, however
//! Postcard also allows for one additional type, `Schema`, which maps to the
//! [`DataModelType`] type, allowing the schema of types to also be sent over the wire.
//!
//! [`DataModelType`] names its structs, enums, fields and variants with `&'static str`s;
//! the [`owned`] module holds copies of these types that own their names.
pub mod fmt;
pub mod intern;
pub mod owned;
pub mod shape;
pub mod used;
pub mod view;

use crate::de::usize_varint_len;
use crate::varint::varint_encode;
use vstd::arithmetic::power2::{lemma2_to64, lemma_pow2_strictly_increases, pow2};
use vstd::prelude::*;

verus! {

/// This enum lists which of the Data Model Types apply to a given type. This describes how the
/// type is encoded on the wire.
///
/// This enum contains all Serde Data Model types as well as a "Schema" Type,
/// which corresponds to [`DataModelType`] itself.
#[derive(Debug, PartialEq, Eq, Hash)]
pub enum DataModelType {
    /// The `bool` Serde Data Model Type
    Bool,
    /// The `i8` Serde Data Model Type
    I8,
    /// The `u8` Serde Data Model Type
    U8,
    /// A variably encoded i16
    I16,
    /// A variably encoded i32
    I32,
    /// A variably encoded i64
    I64,
    /// A variably encoded i128
    I128,
    /// A variably encoded u16
    U16,
    /// A variably encoded u32
    U32,
    /// A variably encoded u64
    U64,
    /// A variably encoded u128
    U128,
    /// A variably encoded usize
    Usize,
    /// A variably encoded isize
    Isize,
    /// The `f32` Serde Data Model Type
    F32,
    /// The `f64` Serde Data Model Type
    F64,
    /// The `char` Serde Data Model Type
    Char,
    /// The `String` Serde Data Model Type
    String {
        /// Maximum length (in bytes) of the string
        max_len: Option<usize>,
    },
    /// The `&[u8]` Serde Data Model Type
    ByteArray {
        /// Maximum length of the byte array
        max_len: Option<usize>,
    },
    /// The `Option<T>` Serde Data Model Type
    Option(Box<DataModelType>),
    /// The `()` Serde Data Model Type
    Unit,
    /// The "Sequence" Serde Data Model Type
    SeqOf {
        /// Items in the sequence
        element: Box<DataModelType>,
        /// Maximum length of the sequence
        max_len: Option<usize>,
    },
    /// The "Tuple" Serde Data Model Type
    Tuple(Vec<DataModelType>),
    /// A fixed length array like `[T; N]`: `count` items, without a length prefix
    Array {
        /// The array element's type
        item: Box<DataModelType>,
        /// The number of items in the fixed size array
        count: usize,
    },
    /// The "Map" Serde Data Model Type
    MapOf {
        /// The map "Key" type
        key: Box<DataModelType>,
        /// The map "Value" type
        val: Box<DataModelType>,
        /// Maximum number of K:V pairs
        max_len: Option<usize>,
    },
    /// One of the struct Serde Data Model types
    Struct {
        /// The name of this struct
        name: &'static str,
        /// The data contained in this struct
        data: Data,
    },
    /// The "Enum" Serde Data Model Type (which contains any of the "Variant" types)
    Enum {
        /// The name of this enum
        name: &'static str,
        /// The variants contained in this enum
        variants: Vec<Variant>,
    },
    /// A [`DataModelType`]/[`owned::OwnedDataModelType`]
    Schema,
}

/// The contents of a struct or enum variant.
#[derive(Debug, PartialEq, Eq, Hash)]
pub enum Data {
    /// The "Unit Struct" or "Unit Variant" Serde Data Model Type
    Unit,
    /// The "Newtype Struct" or "Newtype Variant" Serde Data Model Type
    Newtype(Box<DataModelType>),
    /// The "Tuple Struct" or "Tuple Variant" Serde Data Model Type
    Tuple(Vec<DataModelType>),
    /// The "Struct" or "Struct Variant" Serde Data Model Type
    Struct(Vec<NamedField>),
}

/// This represents a named struct field.
///
/// For example, in `struct Ex { a: u32 }` the field `a` would be reflected as
/// `NamedField { name: "a", ty: DataModelType::U32 }`.
#[derive(Debug, PartialEq, Eq, Hash)]
pub struct NamedField {
    /// The name of this field
    pub name: &'static str,
    /// The type of this field
    pub ty: DataModelType,
}

/// An enum variant e.g. `T::Bar(...)`
#[derive(Debug, PartialEq, Eq, Hash)]
pub struct Variant {
    /// The name of this variant
    pub name: &'static str,
    /// The data contained in this variant
    pub data: Data,
}

// ---------------------------------------------------------------------------
// Maximum serialized size
// ---------------------------------------------------------------------------

/// The number of bytes of `varint(n)`.
pub open spec fn varint_size(n: nat) -> nat {
    varint_encode(n).len()
}

/// The bytes an enum discriminant may take, for an enum with `n` variants.
pub open spec fn discriminant_size(n: nat) -> nat {
    if n == 0 {
        1
    } else {
        varint_size((n - 1) as nat)
    }
}

/// The largest number of bytes a value of the schema `d` is serialized to, or `None` when
/// there is no bound.
pub open spec fn max_size_of(d: DataModelType) -> Option<nat>
    decreases d,
{
    match d {
        DataModelType::Bool => Some(1),
        DataModelType::I8 => Some(1),
        DataModelType::U8 => Some(1),
        DataModelType::I16 => Some(3),
        DataModelType::I32 => Some(5),
        DataModelType::I64 => Some(10),
        DataModelType::I128 => Some(19),
        DataModelType::U16 => Some(3),
        DataModelType::U32 => Some(5),
        DataModelType::U64 => Some(10),
        DataModelType::U128 => Some(19),
        DataModelType::Usize => Some(usize_varint_len()),
        DataModelType::Isize => Some(usize_varint_len()),
        DataModelType::F32 => Some(4),
        DataModelType::F64 => Some(8),
        DataModelType::Char => Some(5),
        DataModelType::String { max_len } => match max_len {
            Some(b) => Some(varint_size(b as nat) + b as nat),
            None => None,
        },
        DataModelType::ByteArray { max_len } => match max_len {
            Some(b) => Some(varint_size(b as nat) + b as nat),
            None => None,
        },
        DataModelType::Option(t) => match max_size_of(*t) {
            Some(s) => Some(1 + s),
            None => None,
        },
        DataModelType::Unit => Some(0),
        DataModelType::SeqOf { element, max_len } => match max_len {
            Some(b) => match max_size_of(*element) {
                Some(s) => Some(varint_size(b as nat) + b as nat * s),
                None => None,
            },
            None => None,
        },
        DataModelType::Tuple(ts) => sum_max_sizes(ts@),
        DataModelType::Array { item, count } => match max_size_of(*item) {
            Some(s) => Some(count as nat * s),
            None => None,
        },
        DataModelType::MapOf { key, val, max_len } => match max_len {
            Some(b) => match max_size_of(*key) {
                Some(k) => match max_size_of(*val) {
                    Some(v) => Some(varint_size(b as nat) + b as nat * (k + v)),
                    None => None,
                },
                None => None,
            },
            None => None,
        },
        DataModelType::Struct { name, data } => data_max_size(data),
        DataModelType::Enum { name, variants } => match variants_max_size(variants@) {
            Some(m) => Some(discriminant_size(variants@.len()) + m),
            None => None,
        },
        DataModelType::Schema => None,
    }
}

/// The largest size of the contents of a struct or variant.
pub open spec fn data_max_size(d: Data) -> Option<nat>
    decreases d,
{
    match d {
        Data::Unit => Some(0),
        Data::Newtype(t) => max_size_of(*t),
        Data::Tuple(ts) => sum_max_sizes(ts@),
        Data::Struct(fs) => fields_max_size(fs@),
    }
}

/// The sum of the largest sizes of `ts`, or `None` when one of them is unbounded.
pub open spec fn sum_max_sizes(ts: Seq<DataModelType>) -> Option<nat>
    decreases ts,
{
    if ts.len() == 0 {
        Some(0)
    } else {
        match sum_max_sizes(ts.drop_last()) {
            Some(p) => match max_size_of(ts.last()) {
                Some(s) => Some(p + s),
                None => None,
            },
            None => None,
        }
    }
}

/// The sum of the largest sizes of the types of `fs`.
pub open spec fn fields_max_size(fs: Seq<NamedField>) -> Option<nat>
    decreases fs,
{
    if fs.len() == 0 {
        Some(0)
    } else {
        match fields_max_size(fs.drop_last()) {
            Some(p) => match max_size_of(fs.last().ty) {
                Some(s) => Some(p + s),
                None => None,
            },
            None => None,
        }
    }
}

/// The largest of the largest sizes of the contents of `vs`.
pub open spec fn variants_max_size(vs: Seq<Variant>) -> Option<nat>
    decreases vs,
{
    if vs.len() == 0 {
        Some(0)
    } else {
        match variants_max_size(vs.drop_last()) {
            Some(m) => match data_max_size(vs.last().data) {
                Some(s) => Some(
                    if s > m {
                        s
                    } else {
                        m
                    },
                ),
                None => None,
            },
            None => None,
        }
    }
}

/// Computing the largest size of `d` reaches no `Schema` and no number beyond `usize`:
/// every running total, up to the first unbounded part, fits.
pub open spec fn max_size_ok(d: DataModelType) -> bool
    decreases d,
{
    match d {
        DataModelType::String { max_len } => match max_len {
            Some(b) => varint_size(b as nat) + b <= usize::MAX,
            None => true,
        },
        DataModelType::ByteArray { max_len } => match max_len {
            Some(b) => varint_size(b as nat) + b <= usize::MAX,
            None => true,
        },
        DataModelType::Option(t) => max_size_ok(*t) && (max_size_of(*t) matches Some(s) ==> 1 + s
            <= usize::MAX),
        DataModelType::SeqOf { element, max_len } => match max_len {
            Some(b) => max_size_ok(*element) && (max_size_of(*element) matches Some(s) ==> b * s
                <= usize::MAX && varint_size(b as nat) + b * s <= usize::MAX),
            None => true,
        },
        DataModelType::Tuple(ts) => sum_ok(ts@),
        DataModelType::Array { item, count } => max_size_ok(*item) && (max_size_of(*item) matches Some(
            s,
        ) ==> count * s <= usize::MAX),
        DataModelType::MapOf { key, val, max_len } => match max_len {
            Some(b) => max_size_ok(*key) && (max_size_of(*key) matches Some(k) ==> max_size_ok(*val)
                && (max_size_of(*val) matches Some(v) ==> k + v <= usize::MAX && b * (k + v)
                <= usize::MAX && varint_size(b as nat) + b * (k + v) <= usize::MAX)),
            None => true,
        },
        DataModelType::Struct { name, data } => data_ok(data),
        DataModelType::Enum { name, variants } => variants_ok(variants@) && (variants_max_size(
            variants@,
        ) matches Some(m) ==> discriminant_size(variants@.len()) + m <= usize::MAX),
        DataModelType::Schema => false,
        _ => true,
    }
}

/// [`max_size_ok`] for the contents of a struct or variant.
pub open spec fn data_ok(d: Data) -> bool
    decreases d,
{
    match d {
        Data::Unit => true,
        Data::Newtype(t) => max_size_ok(*t),
        Data::Tuple(ts) => sum_ok(ts@),
        Data::Struct(fs) => fields_ok(fs@),
    }
}

/// [`max_size_ok`] for a sum over `ts`.
pub open spec fn sum_ok(ts: Seq<DataModelType>) -> bool
    decreases ts,
{
    if ts.len() == 0 {
        true
    } else {
        sum_ok(ts.drop_last()) && (sum_max_sizes(ts.drop_last()) matches Some(p) ==> max_size_ok(
            ts.last(),
        ) && (max_size_of(ts.last()) matches Some(s) ==> p + s <= usize::MAX))
    }
}

/// [`max_size_ok`] for a sum over the types of `fs`.
pub open spec fn fields_ok(fs: Seq<NamedField>) -> bool
    decreases fs,
{
    if fs.len() == 0 {
        true
    } else {
        fields_ok(fs.drop_last()) && (fields_max_size(fs.drop_last()) matches Some(p) ==> max_size_ok(
            fs.last().ty,
        ) && (max_size_of(fs.last().ty) matches Some(s) ==> p + s <= usize::MAX))
    }
}

/// [`max_size_ok`] for the largest over the contents of `vs`.
pub open spec fn variants_ok(vs: Seq<Variant>) -> bool
    decreases vs,
{
    if vs.len() == 0 {
        true
    } else {
        variants_ok(vs.drop_last()) && (variants_max_size(vs.drop_last()) is Some ==> data_ok(
            vs.last().data,
        ))
    }
}

/// `r` is the size `o`: the same number when bounded, `None` when not.
pub open spec fn size_result(o: Option<nat>, r: Option<usize>) -> bool {
    match o {
        Some(s) => r matches Some(v) && v == s,
        None => r is None,
    }
}

/// The number of bytes the varint of an enum's largest discriminant `max_n` takes: its
/// significant bits, seven to a byte, rounded up (none for `0`).
pub fn varint_size_discriminant(max_n: u32) -> (r: u32)
    ensures
        r == (32 - vstd::std_specs::bits::u32_leading_zeros(max_n) + 6) / 7,
{
    proof {
        vstd::std_specs::bits::axiom_u32_leading_zeros(max_n);
    }
    let bits_per_byte: u32 = 8;
    let bits_per_varint_byte: u32 = 7;

    // How many data bits do we need for `max_n`.
    let bits = 4 * bits_per_byte - max_n.leading_zeros();

    let roundup_bits = bits + (bits_per_varint_byte - 1);

    // Apply division, using normal "round down" integer division
    roundup_bits / bits_per_varint_byte
}

/// Law: for a discriminant of at least one, [`varint_size_discriminant`] is the length of
/// its varint encoding.
pub proof fn law_discriminant_size_is_varint_len(n: u32)
    requires
        n >= 1,
    ensures
        (32 - vstd::std_specs::bits::u32_leading_zeros(n) + 6) / 7 == varint_size(n as nat),
{
    vstd::std_specs::bits::axiom_u32_leading_zeros(n);
    let lz = vstd::std_specs::bits::u32_leading_zeros(n);
    let bits: nat = (32 - lz) as nat;
    let k: nat = (bits + 6) / 7;
    let s: u32 = (31 - lz) as u32;
    lemma2_to64();
    // The top bit is bit `bits - 1`: `2^(bits - 1) <= n`
    assert((n >> s) & 1u32 != 0u32);
    assert(s < 32 && (n >> s) & 1u32 != 0u32 ==> n >= (1u32 << s)) by (bit_vector);
    vstd::bits::lemma_u32_pow2_no_overflow(s as nat);
    vstd::bits::lemma_u32_shl_is_mul(1, s);
    assert(n >= pow2(s as nat));
    // No bit at or above `bits`: `n < 2^bits`
    if lz > 0 {
        let t: u32 = (32 - lz) as u32;
        assert(n >> t == 0);
        assert(t < 32 && n >> t == 0 ==> n < (1u32 << t)) by (bit_vector);
        vstd::bits::lemma_u32_pow2_no_overflow(t as nat);
        vstd::bits::lemma_u32_shl_is_mul(1, t);
    }
    assert(n < pow2(bits));
    if bits < 7 * k {
        lemma_pow2_strictly_increases(bits, 7 * k);
    }
    crate::varint::lemma_varint_encode_len(n as nat, k);
    let m: nat = (k - 1) as nat;
    if 7 * m < s {
        lemma_pow2_strictly_increases(7 * m, s as nat);
    }
    crate::varint::lemma_varint_encode_len_lower(n as nat, m);
}

/// The number of bytes a `varint(usize)` of `n` takes.
pub fn size_as_varint_usize(n: usize) -> (r: usize)
    ensures
        r == varint_size(n as nat),
{
    let mut value = n;
    let mut count: usize = 1;
    proof {
        vstd::arithmetic::power2::lemma2_to64();
        vstd::arithmetic::power2::lemma_pow2_strictly_increases(64, 70);
        crate::varint::lemma_varint_encode_len(n as nat, 10);
    }
    while value >= 128
        invariant
            count + varint_size(value as nat) == varint_size(n as nat) + 1,
            varint_size(n as nat) <= 10,
        decreases value,
    {
        proof {
            crate::varint::lemma_varint_encode_value(value as nat, seq![]);
        }
        value = value / 128;
        count = count + 1;
    }
    proof {
        crate::varint::lemma_varint_encode_value(value as nat, seq![]);
    }
    count
}


// Facts about prefixes of the sums and maxima above.

/// The checks of a sequence hold of its prefixes, and an unbounded prefix makes the whole
/// unbounded.
pub proof fn lemma_sum_prefix(ts: Seq<DataModelType>, i: int)
    requires
        0 <= i <= ts.len(),
    ensures
        sum_ok(ts) ==> sum_ok(ts.take(i)),
        sum_max_sizes(ts.take(i)) is None ==> sum_max_sizes(ts) is None,
    decreases ts.len() - i,
{
    if i < ts.len() {
        lemma_sum_prefix(ts.drop_last(), i);
        assert(ts.drop_last().take(i) == ts.take(i));
    } else {
        assert(ts.take(i) == ts);
    }
}

/// [`lemma_sum_prefix`] for fields.
pub proof fn lemma_fields_prefix(fs: Seq<NamedField>, i: int)
    requires
        0 <= i <= fs.len(),
    ensures
        fields_ok(fs) ==> fields_ok(fs.take(i)),
        fields_max_size(fs.take(i)) is None ==> fields_max_size(fs) is None,
    decreases fs.len() - i,
{
    if i < fs.len() {
        lemma_fields_prefix(fs.drop_last(), i);
        assert(fs.drop_last().take(i) == fs.take(i));
    } else {
        assert(fs.take(i) == fs);
    }
}

/// [`lemma_sum_prefix`] for variants.
pub proof fn lemma_variants_prefix(vs: Seq<Variant>, i: int)
    requires
        0 <= i <= vs.len(),
    ensures
        variants_ok(vs) ==> variants_ok(vs.take(i)),
        variants_max_size(vs.take(i)) is None ==> variants_max_size(vs) is None,
    decreases vs.len() - i,
{
    if i < vs.len() {
        lemma_variants_prefix(vs.drop_last(), i);
        assert(vs.drop_last().take(i) == vs.take(i));
    } else {
        assert(vs.take(i) == vs);
    }
}

/// The sum of the largest sizes of `data_model_types`, or `None` when one is unbounded.
pub fn arr_max_size(data_model_types: &[DataModelType]) -> (r: Option<usize>)
    requires
        sum_ok(data_model_types@),
    ensures
        size_result(sum_max_sizes(data_model_types@), r),
    decreases data_model_types@,
{
    let ghost ts = data_model_types@;
    let mut idx: usize = 0;
    let mut sum: usize = 0;
    assert(ts.take(0) == Seq::<DataModelType>::empty());
    while idx < data_model_types.len()
        invariant
            ts == data_model_types@,
            sum_ok(ts),
            idx <= ts.len(),
            sum_max_sizes(ts.take(idx as int)) == Some(sum as nat),
        decreases ts.len() - idx,
    {
        proof {
            lemma_sum_prefix(ts, idx + 1);
            assert(ts.take(idx + 1).drop_last() == ts.take(idx as int));
            assert(ts.take(idx + 1).last() == ts[idx as int]);
            assert(decreases_to!(ts => ts[idx as int]));
        }
        let size = match data_model_types[idx].max_size() {
            Some(size) => size,
            None => {
                proof {
                    lemma_sum_prefix(ts, idx + 1);
                }
                return None;
            },
        };
        sum += size;
        idx += 1;
    }
    assert(ts.take(idx as int) == ts);
    Some(sum)
}

impl DataModelType {
    /// Max serialized size
    pub fn max_size(&self) -> (r: Option<usize>)
        requires
            max_size_ok(*self),
        ensures
            size_result(max_size_of(*self), r),
        decreases self,
    {
        match self {
            DataModelType::Bool => Some(1),
            DataModelType::I8 => Some(1),
            DataModelType::U8 => Some(1),
            DataModelType::I16 => Some(crate::varint::varint_max::<i16>()),
            DataModelType::I32 => Some(crate::varint::varint_max::<i32>()),
            DataModelType::I64 => Some(crate::varint::varint_max::<i64>()),
            DataModelType::I128 => Some(crate::varint::varint_max::<i128>()),
            DataModelType::U16 => Some(crate::varint::varint_max::<u16>()),
            DataModelType::U32 => Some(crate::varint::varint_max::<i32>()),
            DataModelType::U64 => Some(crate::varint::varint_max::<u64>()),
            DataModelType::U128 => Some(crate::varint::varint_max::<u128>()),
            DataModelType::Usize => Some(crate::varint::varint_max::<usize>()),
            DataModelType::Isize => Some(crate::varint::varint_max::<isize>()),
            DataModelType::F32 => Some(4),
            DataModelType::F64 => Some(8),
            DataModelType::Char => Some(5),
            DataModelType::String { max_len } => {
                if let Some(bound) = max_len {
                    Some(size_as_varint_usize(*bound) + *bound)
                } else {
                    None
                }
            },
            DataModelType::ByteArray { max_len } => {
                if let Some(bound) = max_len {
                    Some(size_as_varint_usize(*bound) + *bound)
                } else {
                    None
                }
            },
            DataModelType::Option(data_model_type) => {
                if let Some(bound) = data_model_type.max_size() {
                    Some(1 + bound)
                } else {
                    None
                }
            },
            DataModelType::Unit => Some(0),
            DataModelType::SeqOf { element, max_len } => {
                let bound = match max_len {
                    Some(bound) => *bound,
                    None => return None,
                };
                let size = match element.max_size() {
                    Some(size) => size,
                    None => return None,
                };
                Some(size_as_varint_usize(bound) + bound * size)
            },
            DataModelType::Tuple(data_model_types) => arr_max_size(data_model_types.as_slice()),
            DataModelType::Array { item, count } => {
                let size = match item.max_size() {
                    Some(size) => size,
                    None => return None,
                };
                Some(*count * size)
            },
            DataModelType::MapOf { key, val, max_len } => {
                let bound = match max_len {
                    Some(bound) => *bound,
                    None => return None,
                };
                let ksize = match key.max_size() {
                    Some(ksize) => ksize,
                    None => return None,
                };
                let vsize = match val.max_size() {
                    Some(vsize) => vsize,
                    None => return None,
                };
                let pair = ksize + vsize;
                let pairs = bound * pair;
                Some(size_as_varint_usize(bound) + pairs)
            },
            DataModelType::Struct { name: _, data } => data.max_size(),
            DataModelType::Enum { name: _, variants } => {
                let ghost vs = variants@;
                let mut idx: usize = 0;
                let disc = if variants.len() == 0 {
                    1
                } else {
                    size_as_varint_usize(variants.len() - 1)
                };
                let mut max: usize = 0;
                assert(vs.take(0) == Seq::<Variant>::empty());
                #[verifier::loop_isolation(false)]
                while idx < variants.len()
                    invariant
                        vs == variants@,
                        variants_ok(vs),
                        idx <= vs.len(),
                        variants_max_size(vs.take(idx as int)) == Some(max as nat),
                        disc == discriminant_size(vs.len()),
                        decreases_to!(*self => vs),
                    decreases vs.len() - idx,
                {
                    proof {
                        lemma_variants_prefix(vs, idx + 1);
                        assert(vs.take(idx + 1).drop_last() == vs.take(idx as int));
                        assert(vs.take(idx + 1).last() == vs[idx as int]);
                        assert(decreases_to!(*self => vs[idx as int].data));
                    }
                    let size = match variants[idx].data.max_size() {
                        Some(size) => size,
                        None => {
                            proof {
                                lemma_variants_prefix(vs, idx + 1);
                                assert(variants_max_size(vs.take(idx + 1)) is None);
                                assert(variants_max_size(vs) is None);
                            }
                            return None;
                        },
                    };
                    if size > max {
                        max = size;
                    }
                    idx += 1;
                }
                assert(vs.take(idx as int) == vs);
                Some(disc + max)
            },
            DataModelType::Schema => {
                proof {
                    assert(false);
                }
                None
            },
        }
    }
}

impl Data {
    /// Max serialized size
    pub fn max_size(&self) -> (r: Option<usize>)
        requires
            data_ok(*self),
        ensures
            size_result(data_max_size(*self), r),
        decreases self,
    {
        match self {
            Data::Unit => Some(0),
            Data::Newtype(data_model_type) => data_model_type.max_size(),
            Data::Tuple(data_model_types) => arr_max_size(data_model_types.as_slice()),
            Data::Struct(named_fields) => {
                let ghost fs = named_fields@;
                let mut idx: usize = 0;
                let mut sum: usize = 0;
                assert(fs.take(0) == Seq::<NamedField>::empty());
                #[verifier::loop_isolation(false)]
                while idx < named_fields.len()
                    invariant
                        fs == named_fields@,
                        fields_ok(fs),
                        idx <= fs.len(),
                        fields_max_size(fs.take(idx as int)) == Some(sum as nat),
                        decreases_to!(*self => fs),
                    decreases fs.len() - idx,
                {
                    proof {
                        lemma_fields_prefix(fs, idx + 1);
                        assert(fs.take(idx + 1).drop_last() == fs.take(idx as int));
                        assert(fs.take(idx + 1).last() == fs[idx as int]);
                        assert(decreases_to!(*self => fs[idx as int].ty));
                    }
                    let size = match named_fields[idx].ty.max_size() {
                        Some(size) => size,
                        None => {
                            proof {
                                lemma_fields_prefix(fs, idx + 1);
                                assert(fields_max_size(fs.take(idx + 1)) is None);
                                assert(fields_max_size(fs) is None);
                            }
                            return None;
                        },
                    };
                    sum += size;
                    idx += 1;
                }
                assert(fs.take(idx as int) == fs);
                Some(sum)
            },
        }
    }
}

} // verus!
