//! URI and Schema Hashing
//!
//! We use `FNV1a` hashes with a digest size of 64 bits to represent dispatch keys.
//!
//! Rather than hashing through `core::hash::Hash`, whose results are not portable, a schema
//! is hashed by feeding a canonical sequence of bytes, [`schema_bytes`], through the FNV-1a
//! function, [`fnv1a`].
pub mod bounds;
pub mod fnv1a64;
pub mod kinds;
pub mod fnv1a64_owned;

use crate::schema::{Data, DataModelType, NamedField, Variant};
use crate::varint::varint_encode;
use vstd::prelude::*;
use vstd::string::StringSliceAdditionalSpecFns;

verus! {

/// The FNV-1a offset basis for 64-bit digests.
pub const BASIS: u64 = 0xcbf2_9ce4_8422_2325;

/// The FNV-1a prime for 64-bit digests.
pub const PRIME: u64 = 0x0000_0100_0000_01b3;

/// One FNV-1a round: xor in the byte, then multiply by the prime, wrapping.
pub open spec fn fnv1a_step(state: u64, b: u8) -> u64 {
    vstd::wrapping::u64_specs::wrapping_mul(state ^ (b as u64), PRIME)
}

/// The FNV-1a state after feeding `bytes`, in order, starting from `state`.
pub open spec fn fnv1a(state: u64, bytes: Seq<u8>) -> u64
    decreases bytes.len(),
{
    if bytes.len() == 0 {
        state
    } else {
        fnv1a_step(fnv1a(state, bytes.drop_last()), bytes.last())
    }
}

/// Feeding `a + b` is feeding `a`, then `b`.
pub proof fn lemma_fnv1a_append(state: u64, a: Seq<u8>, b: Seq<u8>)
    ensures
        fnv1a(state, a + b) == fnv1a(fnv1a(state, a), b),
    decreases b.len(),
{
    if b.len() == 0 {
        assert(a + b =~= a);
    } else {
        lemma_fnv1a_append(state, a, b.drop_last());
        assert((a + b).drop_last() =~= a + b.drop_last());
        assert((a + b).last() == b.last());
    }
}

/// The little-endian bytes of `x`.
pub open spec fn u64_le_bytes(x: u64) -> Seq<u8> {
    Seq::new(8, |i: int| (x >> ((8 * i) as u64)) as u8)
}

/// The little-endian bytes of `x`, as an array.
pub fn to_le_bytes(x: u64) -> (r: [u8; 8])
    ensures
        r@ == u64_le_bytes(x),
{
    let r = [
        x as u8,
        (x >> 8u64) as u8,
        (x >> 16u64) as u8,
        (x >> 24u64) as u8,
        (x >> 32u64) as u8,
        (x >> 40u64) as u8,
        (x >> 48u64) as u8,
        (x >> 56u64) as u8,
    ];
    assert(x >> 0u64 == x) by (bit_vector);
    assert(r@ =~= u64_le_bytes(x));
    r
}

/// A const compatible Fnv1a64 hasher
pub struct Fnv1a64Hasher {
    state: u64,
}

impl View for Fnv1a64Hasher {
    type V = u64;

    /// The hasher's running state.
    closed spec fn view(&self) -> u64 {
        self.state
    }
}

impl Fnv1a64Hasher {
    /// Create a new hasher with the default basis as state contents
    pub fn new() -> (r: Self)
        ensures
            r@ == BASIS,
    {
        Self { state: BASIS }
    }

    /// Calculate the hash for each of the given data bytes
    pub fn update(&mut self, data: &[u8])
        ensures
            final(self)@ == fnv1a(old(self)@, data@),
    {
        let ghost start = self.state;
        let mut i: usize = 0;
        while i < data.len()
            invariant
                i <= data@.len(),
                self.state == fnv1a(start, data@.take(i as int)),
            decreases data@.len() - i,
        {
            let ext = u64::from(data[i]);
            self.state = self.state ^ ext;
            self.state = self.state.wrapping_mul(PRIME);
            assert(data@.take(i + 1).drop_last() =~= data@.take(i as int));
            i += 1;
        }
        assert(data@.take(i as int) =~= data@);
    }

    /// Extract the current state for finalizing the hash
    pub fn digest(self) -> (r: u64)
        ensures
            r == self@,
    {
        self.state
    }

    /// Same as digest but as bytes
    pub fn digest_bytes(self) -> (r: [u8; 8])
        ensures
            r@ == u64_le_bytes(self@),
    {
        to_le_bytes(self.digest())
    }
}

impl Default for Fnv1a64Hasher {
    fn default() -> (r: Self)
        ensures
            r@ == BASIS,
    {
        Self::new()
    }
}

/// Options for hashing
///
/// All options start as disabled; the default value is obtained with
/// `HashOptions::default()`.
#[non_exhaustive]
#[derive(Debug, Copy, Clone)]
pub struct HashOptions {
    /// Include the type's max serialized size as part of the hash
    pub hash_max_size: bool,
}

impl Default for HashOptions {
    fn default() -> (r: Self)
        ensures
            r == default_options(),
    {
        HashOptions { hash_max_size: false }
    }
}

/// The default options: bounds are not hashed.
pub open spec fn default_options() -> HashOptions {
    HashOptions { hash_max_size: false }
}

/// A hashable item, used for hashing a series of items together at once
#[non_exhaustive]
pub enum HashItem<'a> {
    /// A type's schema
    Schema(&'a DataModelType),
    /// A string
    String(&'a str),
}

// ---------------------------------------------------------------------------
// The bytes a schema is hashed as
// ---------------------------------------------------------------------------

/// The bytes hashed for a length bound: a marker, then the bound as a varint when there is one.
pub open spec fn max_len_bytes(max_len: Option<usize>) -> Seq<u8> {
    seq![0x2Bu8] + match max_len {
        Some(b) => varint_encode(b as nat),
        None => Seq::empty(),
    }
}

/// The bytes hashed for a length bound under `opt`: none unless bounds are hashed.
pub open spec fn bound_bytes(opt: HashOptions, max_len: Option<usize>) -> Seq<u8> {
    if opt.hash_max_size {
        max_len_bytes(max_len)
    } else {
        Seq::empty()
    }
}

/// `s` repeated `n` times.
pub open spec fn repeat_bytes(s: Seq<u8>, n: nat) -> Seq<u8>
    decreases n,
{
    if n == 0 {
        Seq::empty()
    } else {
        repeat_bytes(s, (n - 1) as nat) + s
    }
}

/// The bytes a schema is hashed as.
///
/// Each kind of type has its own tag byte. The names of structs and enums are not hashed, so
/// that types with the same wire format hash alike; the names of fields and variants are.
/// A byte array hashes as a sequence of `u8`, and a fixed size array as a tuple of its items,
/// as both are the same on the wire.
pub open spec fn schema_bytes(opt: HashOptions, d: DataModelType) -> Seq<u8>
    decreases d,
{
    match d {
        DataModelType::Bool => seq![0x11u8],
        DataModelType::I8 => seq![0xC5u8],
        DataModelType::U8 => seq![0x3Du8],
        DataModelType::I16 => seq![0x1Du8],
        DataModelType::I32 => seq![0x0Du8],
        DataModelType::I64 => seq![0x0Bu8],
        DataModelType::I128 => seq![0x02u8],
        DataModelType::U16 => seq![0x83u8],
        DataModelType::U32 => seq![0xD3u8],
        DataModelType::U64 => seq![0x13u8],
        DataModelType::U128 => seq![0x8Bu8],
        DataModelType::Usize => seq![0x6Bu8],
        DataModelType::Isize => seq![0xADu8],
        DataModelType::F32 => seq![0xEFu8],
        DataModelType::F64 => seq![0x71u8],
        DataModelType::Char => seq![0xC1u8],
        DataModelType::String { max_len } => seq![0x25u8] + bound_bytes(opt, max_len),
        DataModelType::ByteArray { max_len } => seq![0x03u8, 0x3Du8] + bound_bytes(opt, max_len),
        DataModelType::Option(t) => seq![0x6Du8] + schema_bytes(opt, *t),
        DataModelType::Unit => seq![0x47u8],
        DataModelType::SeqOf { element, max_len } => seq![0x03u8] + schema_bytes(opt, *element)
            + bound_bytes(opt, max_len),
        DataModelType::Tuple(ts) => seq![0xA7u8] + types_bytes(opt, ts@),
        DataModelType::Array { item, count } => seq![0xA7u8] + repeat_bytes(
            schema_bytes(opt, *item),
            count as nat,
        ),
        DataModelType::MapOf { key, val, max_len } => seq![0x4Fu8] + schema_bytes(opt, *key)
            + schema_bytes(opt, *val) + bound_bytes(opt, max_len),
        DataModelType::Struct { name, data } => struct_bytes(opt, data),
        DataModelType::Enum { name, variants } => seq![0xE9u8] + variants_bytes(opt, variants@),
        DataModelType::Schema => seq![0xE5u8],
    }
}

/// The bytes the contents of a struct are hashed as.
pub open spec fn struct_bytes(opt: HashOptions, d: Data) -> Seq<u8>
    decreases d,
{
    match d {
        Data::Unit => seq![0xBFu8],
        Data::Newtype(t) => seq![0x9Du8] + schema_bytes(opt, *t),
        Data::Tuple(ts) => seq![0x05u8] + types_bytes(opt, ts@),
        Data::Struct(fs) => seq![0x7Fu8] + fields_bytes(opt, fs@),
    }
}

/// The bytes of each type of `ts`, in order.
pub open spec fn types_bytes(opt: HashOptions, ts: Seq<DataModelType>) -> Seq<u8>
    decreases ts,
{
    if ts.len() == 0 {
        Seq::empty()
    } else {
        types_bytes(opt, ts.drop_last()) + schema_bytes(opt, ts.last())
    }
}

/// The bytes a named field is hashed as: its name, then its type.
pub open spec fn field_bytes(opt: HashOptions, f: NamedField) -> Seq<u8>
    decreases f,
{
    f.name.spec_bytes() + schema_bytes(opt, f.ty)
}

/// The bytes of each field of `fs`, in order.
pub open spec fn fields_bytes(opt: HashOptions, fs: Seq<NamedField>) -> Seq<u8>
    decreases fs,
{
    if fs.len() == 0 {
        Seq::empty()
    } else {
        fields_bytes(opt, fs.drop_last()) + field_bytes(opt, fs.last())
    }
}

/// The bytes an enum variant is hashed as: its name, a tag for its kind, then its contents.
pub open spec fn variant_bytes(opt: HashOptions, v: Variant) -> Seq<u8>
    decreases v,
{
    v.name.spec_bytes() + match v.data {
        Data::Unit => seq![0xB5u8],
        Data::Newtype(t) => seq![0xDFu8] + schema_bytes(opt, *t),
        Data::Tuple(ts) => seq![0xC7u8] + types_bytes(opt, ts@),
        Data::Struct(fs) => seq![0x67u8] + fields_bytes(opt, fs@),
    }
}

/// The bytes of each variant of `vs`, in order.
pub open spec fn variants_bytes(opt: HashOptions, vs: Seq<Variant>) -> Seq<u8>
    decreases vs,
{
    if vs.len() == 0 {
        Seq::empty()
    } else {
        variants_bytes(opt, vs.drop_last()) + variant_bytes(opt, vs.last())
    }
}

/// The bytes a hash item is hashed as: a string's UTF-8 bytes, or a schema's [`schema_bytes`].
pub open spec fn item_bytes(opt: HashOptions, item: HashItem) -> Seq<u8> {
    match item {
        HashItem::Schema(d) => schema_bytes(opt, *d),
        HashItem::String(s) => s.spec_bytes(),
    }
}

/// The bytes of each item of `items`, in order.
pub open spec fn items_bytes(opt: HashOptions, items: Seq<HashItem>) -> Seq<u8>
    decreases items.len(),
{
    if items.len() == 0 {
        Seq::empty()
    } else {
        items_bytes(opt, items.drop_last()) + item_bytes(opt, items.last())
    }
}

/// Law: the name of a struct is not hashed, so structs with the same contents hash alike
/// (type punning between, say, a `Vec<u8>` wrapper and a `&[u8]` wrapper).
pub proof fn law_struct_name_not_hashed(opt: HashOptions, a: &'static str, b: &'static str, data: Data)
    ensures
        schema_bytes(opt, DataModelType::Struct { name: a, data }) == schema_bytes(
            opt,
            DataModelType::Struct { name: b, data },
        ),
{
}

/// Law: the name of an enum is not hashed, so enums with the same variants hash alike.
pub proof fn law_enum_name_not_hashed(
    opt: HashOptions,
    a: &'static str,
    b: &'static str,
    variants: Vec<Variant>,
)
    ensures
        schema_bytes(opt, DataModelType::Enum { name: a, variants }) == schema_bytes(
            opt,
            DataModelType::Enum { name: b, variants },
        ),
{
}

/// Law: a byte array hashes as a sequence of `u8` with the same bound, as both are the same
/// on the wire.
pub proof fn law_byte_array_hashes_as_seq_of_u8(opt: HashOptions, max_len: Option<usize>)
    ensures
        schema_bytes(opt, DataModelType::ByteArray { max_len }) == schema_bytes(
            opt,
            DataModelType::SeqOf { element: Box::new(DataModelType::U8), max_len },
        ),
{
    let u8_schema = DataModelType::U8;
    assert(schema_bytes(opt, u8_schema) == seq![0x3Du8]);
    assert(seq![0x03u8, 0x3Du8] + bound_bytes(opt, max_len) =~= seq![0x03u8] + seq![0x3Du8]
        + bound_bytes(opt, max_len));
}

} // verus!
