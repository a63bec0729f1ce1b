//! Serializing tools: pushing postcard-encoded primitives into a [`Flavor`].
use crate::varint::{
    varint_encode, varint_u128, varint_u16, varint_u32, varint_u64, varint_usize, zig_zag_i128,
    zig_zag_i16, zig_zag_i32, zig_zag_i64, zigzag,
};
use vstd::prelude::*;
use vstd::string::StringSliceAdditionalSpecFns;

verus! {

/// The serialization buffer is full
#[derive(Debug, PartialEq, Eq, Clone, Copy)]
pub struct BufferFull;

impl BufferFull {
    /// The text of this error.
    pub fn message(&self) -> (r: &'static str)
        ensures
            r@ == "BufferFull"@,
    {
        "BufferFull"
    }
}

/// What pushing `bytes` onto a flavor that had accepted `before`, and has accepted
/// `after` since, means: all of `bytes` when it succeeded, a strict prefix of them when it
/// failed.
pub open spec fn pushed<E>(before: Seq<u8>, after: Seq<u8>, bytes: Seq<u8>, r: Result<(), E>) -> bool {
    &&& r is Ok ==> after == before + bytes
    &&& r is Err ==> exists|k: int| 0 <= k < bytes.len() && after == before + #[trigger] bytes.take(k)
}

/// What a push of `bytes` onto the flavor `before`, leaving it as `after` with result `r`,
/// means: [`pushed`] for the bytes; success whenever the flavor always accepts; an error
/// that is the flavor's own, [`Flavor::push_error`]; and whether it always accepts is kept.
pub open spec fn push_outcome<F: Flavor>(before: F, after: F, bytes: Seq<u8>, r: Result<(), F::PushError>) -> bool {
    &&& pushed(before.written(), after.written(), bytes, r)
    &&& before.always_accepts() ==> r is Ok
    &&& r matches Err(e) ==> e == after.push_error()
    &&& after.always_accepts() == before.always_accepts()
}

/// The serialization Flavor trait
///
/// This is used as the primary way to encode serialized data into some kind of buffer,
/// or modify that data in a middleware style pattern.
///
/// A flavor is described by [`Flavor::written`]: the bytes it has accepted so far.
pub trait Flavor: Sized {
    /// The `Output` type is what this storage "resolves" to when the serialization is complete,
    /// such as a slice or a Vec of some sort.
    type Output;

    /// The error type specific to pushing methods.
    type PushError;

    /// The error type specific to [`Self::finalize`].
    type FinalizeError;

    /// The bytes accepted so far, in order.
    spec fn written(&self) -> Seq<u8>;

    /// Whether every push onto this flavor succeeds.
    spec fn always_accepts(&self) -> bool;

    /// The error a push that fails in this state gives.
    spec fn push_error(&self) -> Self::PushError;

    /// Push several bytes at once. The default pushes them one at a time, stopping at
    /// the first failure.
    fn try_extend(&mut self, data: &[u8]) -> (r: Result<(), Self::PushError>)
        ensures
            pushed(old(self).written(), final(self).written(), data@, r),
            old(self).always_accepts() ==> r is Ok,
            r matches Err(e) ==> e == final(self).push_error(),
            final(self).always_accepts() == old(self).always_accepts(),
    {
        let mut i: usize = 0;
        while i < data.len()
            invariant
                i <= data@.len(),
                self.written() == old(self).written() + data@.take(i as int),
                self.always_accepts() == old(self).always_accepts(),
            decreases data@.len() - i,
        {
            match self.try_push(data[i]) {
                Ok(()) => {},
                Err(e) => {
                    return Err(e);
                },
            }
            assert(data@.take(i + 1) == data@.take(i as int).push(data@[i as int]));
            i += 1;
        }
        assert(data@.take(i as int) == data@);
        Ok(())
    }

    /// Push a single byte to be modified and/or stored.
    fn try_push(&mut self, data: u8) -> (r: Result<(), Self::PushError>)
        ensures
            r is Ok ==> final(self).written() == old(self).written().push(data),
            r is Err ==> final(self).written() == old(self).written(),
            old(self).always_accepts() ==> r is Ok,
            r matches Err(e) ==> e == old(self).push_error() && final(self).push_error()
                == old(self).push_error(),
            final(self).always_accepts() == old(self).always_accepts(),
    ;

    /// Finalize the serialization process.
    fn finalize(self) -> Result<Self::Output, Self::FinalizeError>;
}

/// A flavor that collects the bytes in a growable vector; pushing never fails.
pub struct AllocVec {
    vec: Vec<u8>,
}

impl AllocVec {
    /// An empty vector flavor.
    pub fn new() -> (r: Self)
        ensures
            r.written() == Seq::<u8>::empty(),
    {
        AllocVec { vec: Vec::new() }
    }
}

impl Flavor for AllocVec {
    type Output = Vec<u8>;

    type PushError = BufferFull;

    type FinalizeError = BufferFull;

    closed spec fn written(&self) -> Seq<u8> {
        self.vec@
    }

    open spec fn always_accepts(&self) -> bool {
        true
    }

    open spec fn push_error(&self) -> BufferFull {
        BufferFull
    }

    fn try_extend(&mut self, data: &[u8]) -> (r: Result<(), BufferFull>)
        ensures
            r is Ok,
    {
        let mut i: usize = 0;
        while i < data.len()
            invariant
                i <= data@.len(),
                self.vec@ == old(self).vec@ + data@.take(i as int),
            decreases data@.len() - i,
        {
            self.vec.push(data[i]);
            assert(data@.take(i + 1) == data@.take(i as int).push(data@[i as int]));
            i += 1;
        }
        assert(data@.take(i as int) == data@);
        Ok(())
    }

    fn try_push(&mut self, data: u8) -> (r: Result<(), BufferFull>)
        ensures
            r is Ok,
    {
        self.vec.push(data);
        Ok(())
    }

    /// The bytes written.
    fn finalize(self) -> (r: Result<Vec<u8>, BufferFull>)
        ensures
            r matches Ok(v) && v@ == self.written(),
    {
        Ok(self.vec)
    }
}

/// A flavor that collects at most `capacity` bytes; pushing past that fails with
/// [`BufferFull`].
pub struct Bounded {
    vec: Vec<u8>,
    capacity: usize,
}

impl Bounded {
    /// An empty flavor that accepts at most `capacity` bytes.
    pub fn new(capacity: usize) -> (r: Self)
        ensures
            r.written() == Seq::<u8>::empty(),
            r.capacity() == capacity,
    {
        Bounded { vec: Vec::new(), capacity }
    }

    /// The most bytes this flavor accepts.
    pub closed spec fn capacity(&self) -> nat {
        self.capacity as nat
    }

    /// The well-formedness of the flavor: it holds no more than its capacity.
    pub closed spec fn wf(&self) -> bool {
        self.vec@.len() <= self.capacity
    }
}

impl Flavor for Bounded {
    type Output = Vec<u8>;

    type PushError = BufferFull;

    type FinalizeError = BufferFull;

    closed spec fn written(&self) -> Seq<u8> {
        self.vec@
    }

    open spec fn always_accepts(&self) -> bool {
        false
    }

    open spec fn push_error(&self) -> BufferFull {
        BufferFull
    }

    fn try_push(&mut self, data: u8) -> (r: Result<(), BufferFull>)
        ensures
            r is Ok <==> old(self).written().len() < old(self).capacity(),
            final(self).capacity() == old(self).capacity(),
    {
        if self.vec.len() >= self.capacity {
            Err(BufferFull)
        } else {
            self.vec.push(data);
            Ok(())
        }
    }

    /// The bytes written.
    fn finalize(self) -> (r: Result<Vec<u8>, BufferFull>)
        ensures
            r matches Ok(v) && v@ == self.written(),
    {
        Ok(self.vec)
    }
}

// ---------------------------------------------------------------------------
// Primitives
// ---------------------------------------------------------------------------

/// The byte a bool is written as: 1 for `true`, 0 for `false`.
pub open spec fn bool_byte(b: bool) -> u8 {
    if b {
        1
    } else {
        0
    }
}

/// Attempt to push a [bool]: 1 for `true`, 0 for `false`.
pub fn try_push_bool<F: Flavor>(f: &mut F, b: bool) -> (r: Result<(), F::PushError>)
    ensures
        push_outcome(*old(f), *final(f), seq![bool_byte(b)], r),
{
    let u = if b {
        1
    } else {
        0
    };
    try_push_u8(f, u)
}

/// Attempt to push a [u8]: the byte itself.
pub fn try_push_u8<F: Flavor>(f: &mut F, u: u8) -> (r: Result<(), F::PushError>)
    ensures
        push_outcome(*old(f), *final(f), seq![u], r),
{
    let r = f.try_push(u);
    proof {
        if r is Err {
            assert(seq![u].take(0) == Seq::<u8>::empty());
            assert(f.written() == old(f).written() + seq![u].take(0));
        } else {
            assert(f.written() == old(f).written() + seq![u]);
        }
    }
    r
}

/// Push the first `used` bytes of `buf`.
fn extend_prefix<F: Flavor>(f: &mut F, buf: &[u8], used: usize) -> (r: Result<(), F::PushError>)
    requires
        used <= buf@.len(),
    ensures
        push_outcome(*old(f), *final(f), buf@.take(used as int), r),
{
    let part = vstd::slice::slice_subrange(buf, 0, used);
    f.try_extend(part)
}

/// Attempt to push a [u16], as a varint.
pub fn try_push_u16<F: Flavor>(f: &mut F, u: u16) -> (r: Result<(), F::PushError>)
    ensures
        push_outcome(*old(f), *final(f), varint_encode(u as nat), r),
{
    let mut buf = [0u8; 3];
    let used = varint_u16(u, &mut buf);
    extend_prefix(f, buf.as_slice(), used)
}

/// Attempt to push a [u32], as a varint.
pub fn try_push_u32<F: Flavor>(f: &mut F, u: u32) -> (r: Result<(), F::PushError>)
    ensures
        push_outcome(*old(f), *final(f), varint_encode(u as nat), r),
{
    let mut buf = [0u8; 5];
    let used = varint_u32(u, &mut buf);
    extend_prefix(f, buf.as_slice(), used)
}

/// Attempt to push a [u64], as a varint.
pub fn try_push_u64<F: Flavor>(f: &mut F, u: u64) -> (r: Result<(), F::PushError>)
    ensures
        push_outcome(*old(f), *final(f), varint_encode(u as nat), r),
{
    let mut buf = [0u8; 10];
    let used = varint_u64(u, &mut buf);
    extend_prefix(f, buf.as_slice(), used)
}

/// Attempt to push a [u128], as a varint.
pub fn try_push_u128<F: Flavor>(f: &mut F, u: u128) -> (r: Result<(), F::PushError>)
    ensures
        push_outcome(*old(f), *final(f), varint_encode(u as nat), r),
{
    let mut buf = [0u8; 19];
    let used = varint_u128(u, &mut buf);
    extend_prefix(f, buf.as_slice(), used)
}

/// Attempt to push a [usize], as a varint.
pub fn try_push_usize<F: Flavor>(f: &mut F, u: usize) -> (r: Result<(), F::PushError>)
    ensures
        push_outcome(*old(f), *final(f), varint_encode(u as nat), r),
{
    let mut buf = [0u8; 10];
    let used = varint_usize(u, &mut buf);
    extend_prefix(f, buf.as_slice(), used)
}

/// Attempt to push an [i8]: its two's complement byte.
pub fn try_push_i8<F: Flavor>(f: &mut F, i: i8) -> (r: Result<(), F::PushError>)
    ensures
        push_outcome(*old(f), *final(f), seq![i as u8], r),
{
    let u = i as u8;
    try_push_u8(f, u)
}

/// Attempt to push an [i16], zig-zag encoded as a varint.
pub fn try_push_i16<F: Flavor>(f: &mut F, i: i16) -> (r: Result<(), F::PushError>)
    ensures
        push_outcome(*old(f), *final(f), varint_encode(zigzag(i as int)), r),
{
    let u = zig_zag_i16(i);
    try_push_u16(f, u)
}

/// Attempt to push an [i32], zig-zag encoded as a varint.
pub fn try_push_i32<F: Flavor>(f: &mut F, i: i32) -> (r: Result<(), F::PushError>)
    ensures
        push_outcome(*old(f), *final(f), varint_encode(zigzag(i as int)), r),
{
    let u = zig_zag_i32(i);
    try_push_u32(f, u)
}

/// Attempt to push an [i64], zig-zag encoded as a varint.
pub fn try_push_i64<F: Flavor>(f: &mut F, i: i64) -> (r: Result<(), F::PushError>)
    ensures
        push_outcome(*old(f), *final(f), varint_encode(zigzag(i as int)), r),
{
    let u = zig_zag_i64(i);
    try_push_u64(f, u)
}

/// Attempt to push an [i128], zig-zag encoded as a varint.
pub fn try_push_i128<F: Flavor>(f: &mut F, i: i128) -> (r: Result<(), F::PushError>)
    ensures
        push_outcome(*old(f), *final(f), varint_encode(zigzag(i as int)), r),
{
    let u = zig_zag_i128(i);
    try_push_u128(f, u)
}

/// Attempt to push an [isize], zig-zag encoded as a varint.
pub fn try_push_isize<F: Flavor>(f: &mut F, i: isize) -> (r: Result<(), F::PushError>)
    ensures
        push_outcome(*old(f), *final(f), varint_encode(zigzag(i as int)), r),
{
    let u = if usize::BITS == 64 {
        zig_zag_i64(i as i64) as usize
    } else {
        zig_zag_i32(i as i32) as usize
    };
    try_push_usize(f, u)
}

/// The wire form of a byte array: its length as a varint, then its bytes.
pub open spec fn length_prefixed(b: Seq<u8>) -> Seq<u8> {
    varint_encode(b.len()) + b
}

/// Attempt to push a [byte array]: its length, then its bytes.
pub fn try_push_bytes<F: Flavor>(f: &mut F, b: &[u8]) -> (r: Result<(), F::PushError>)
    ensures
        push_outcome(*old(f), *final(f), length_prefixed(b@), r),
{
    let ghost enc = varint_encode(b@.len());
    match try_push_length(f, b.len()) {
        Ok(()) => {},
        Err(e) => {
            proof {
                let k = choose|k: int| 0 <= k < enc.len() && final(f).written() == old(f).written() + #[trigger] enc.take(k);
                assert((enc + b@).take(k) == enc.take(k));
            }
            return Err(e);
        },
    }
    let ghost mid = f.written();
    let r = f.try_extend(b);
    proof {
        if r is Ok {
            assert(final(f).written() == old(f).written() + (enc + b@));
        } else {
            let k = choose|k: int| 0 <= k < b@.len() && final(f).written() == mid + #[trigger] b@.take(k);
            assert((enc + b@).take(enc.len() + k) == enc + b@.take(k));
            assert(final(f).written() == old(f).written() + (enc + b@).take(enc.len() + k));
        }
    }
    r
}

/// Attempt to push a [string]: the length of its UTF-8 bytes, then those bytes.
pub fn try_push_str<F: Flavor>(f: &mut F, b: &str) -> (r: Result<(), F::PushError>)
    ensures
        push_outcome(*old(f), *final(f), length_prefixed(b.spec_bytes()), r),
{
    let bytes = b.as_bytes();
    try_push_bytes(f, bytes)
}

/// Attempt to push an [option] discriminant for `None`: the byte 0.
pub fn try_push_option_none<F: Flavor>(f: &mut F) -> (r: Result<(), F::PushError>)
    ensures
        push_outcome(*old(f), *final(f), seq![0u8], r),
{
    try_push_u8(f, 0)
}

/// Attempt to push an [option] discriminant for `Some`: the byte 1.
pub fn try_push_option_some<F: Flavor>(f: &mut F) -> (r: Result<(), F::PushError>)
    ensures
        push_outcome(*old(f), *final(f), seq![1u8], r),
{
    try_push_u8(f, 1)
}

/// Attempt to push a discriminant, for unit, newtype, tuple and struct variants: a
/// `varint(u32)`.
pub fn try_push_discriminant<F: Flavor>(f: &mut F, v: u32) -> (r: Result<(), F::PushError>)
    ensures
        push_outcome(*old(f), *final(f), varint_encode(v as nat), r),
{
    try_push_u32(f, v)
}

/// Attempt to push a length, for seqs, maps, byte arrays and strings: a `varint(usize)`.
pub fn try_push_length<F: Flavor>(f: &mut F, v: usize) -> (r: Result<(), F::PushError>)
    ensures
        push_outcome(*old(f), *final(f), varint_encode(v as nat), r),
{
    try_push_usize(f, v)
}

/// The UTF-8 encoding of `c` into `buf`, returning how many leading bytes of `buf` it
/// takes.
fn encode_char_utf8(c: char, buf: &mut [u8; 4]) -> (used: usize)
    ensures
        used <= 4,
        final(buf)@.take(used as int) == vstd::utf8::encode_utf8(seq![c]),
{
    let v = c as u32;
    proof {
        vstd::utf8::char_is_scalar(c);
        assert(vstd::utf8::encode_utf8(seq![c]) == vstd::utf8::encode_scalar(v) + vstd::utf8::encode_utf8(seq![c].drop_first()));
        assert(seq![c].drop_first() == Seq::<char>::empty());
        assert(vstd::utf8::encode_utf8(seq![c]) == vstd::utf8::encode_scalar(v));
    }
    if v <= 0x7F {
        buf[0] = (v & 0x7F) as u8;
        assert(buf@.take(1) == seq![buf@[0]]);
        1
    } else if v <= 0x7FF {
        assert(((v >> 6) & 0x1F) <= 0xff && (v & 0x3F) <= 0xff) by (bit_vector);
        buf[0] = 0xC0 | ((v >> 6) & 0x1F) as u8;
        buf[1] = 0x80 | (v & 0x3F) as u8;
        assert(buf@.take(2) == seq![buf@[0], buf@[1]]);
        2
    } else if v <= 0xFFFF {
        assert(((v >> 12) & 0x0F) <= 0xff && ((v >> 6) & 0x3F) <= 0xff && (v & 0x3F) <= 0xff) by (bit_vector);
        buf[0] = 0xE0 | ((v >> 12) & 0x0F) as u8;
        buf[1] = 0x80 | ((v >> 6) & 0x3F) as u8;
        buf[2] = 0x80 | (v & 0x3F) as u8;
        assert(buf@.take(3) == seq![buf@[0], buf@[1], buf@[2]]);
        3
    } else {
        assert(((v >> 18) & 0x7) <= 0xff && ((v >> 12) & 0x3F) <= 0xff && ((v >> 6) & 0x3F) <= 0xff && (v & 0x3F) <= 0xff) by (bit_vector);
        buf[0] = 0xF0 | ((v >> 18) & 0x7) as u8;
        buf[1] = 0x80 | ((v >> 12) & 0x3F) as u8;
        buf[2] = 0x80 | ((v >> 6) & 0x3F) as u8;
        buf[3] = 0x80 | (v & 0x3F) as u8;
        assert(buf@.take(4) == seq![buf@[0], buf@[1], buf@[2], buf@[3]]);
        4
    }
}

/// The UTF-8 bytes of a character.
pub open spec fn char_bytes(c: char) -> Seq<u8> {
    vstd::utf8::encode_utf8(seq![c])
}

/// Attempt to push a [char]: the string holding just that character.
pub fn try_push_char<F: Flavor>(f: &mut F, v: char) -> (r: Result<(), F::PushError>)
    ensures
        push_outcome(*old(f), *final(f), length_prefixed(char_bytes(v)), r),
{
    let mut buf = [0u8; 4];
    let used = encode_char_utf8(v, &mut buf);
    let bytes = vstd::slice::slice_subrange(buf.as_slice(), 0, used);
    try_push_bytes(f, bytes)
}

} // verus!
