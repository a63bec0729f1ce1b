//! Deserializing tools: taking postcard-encoded primitives from a [`Flavor`].
use crate::varint::{
    lemma_varint_read_encode, lemma_zigzag_inverse, unzigzag, varint_encode, zigzag,
    lemma_group_fits, lemma_or_shl_u16, lemma_or_shl_u32, lemma_or_shl_u64, lemma_or_shl_u128, lemma_varint_read_skips, lemma_varint_value_bound, varint_read, varint_value,
    VarintRead,
};
use vstd::arithmetic::power2::{lemma2_to64, lemma_pow2_adds, pow2};
use vstd::prelude::*;
use vstd::string::StringSliceAdditionalSpecFns;

verus! {

/// Unexpectedly reached the end of the deserialization buffer
#[derive(Debug, PartialEq, Eq, Clone, Copy)]
pub struct UnexpectedEnd;

impl UnexpectedEnd {
    /// The text of this error.
    pub fn message(&self) -> (r: &'static str)
        ensures
            r@ == "UnexpectedEnd"@,
    {
        "UnexpectedEnd"
    }
}

/// The deserialization Flavor trait
///
/// This is used as the primary way to decode serialized data from some kind of buffer,
/// or modify that data in a middleware style pattern.
///
/// A flavor is described by [`Flavor::remaining`]: the bytes it will still hand out, in
/// order, before it has none left to give.
pub trait Flavor<'de>: Sized {
    /// The remaining data of this flavor after deserializing has completed.
    type Remainder;

    /// The source of data retrieved for deserialization.
    type Source;

    /// The error type specific to taking bytes.
    type PopError;

    /// The error type specific to [`Self::finalize`].
    type FinalizeError;

    /// The bytes this flavor will still yield, in order.
    spec fn remaining(&self) -> Seq<u8>;

    /// Whether taking bytes fails only when too few remain (a flavor reading from a stream
    /// may also fail for other reasons).
    spec fn reliable(&self) -> bool;

    /// The error a take that fails in this state gives.
    spec fn pop_error(&self) -> Self::PopError;

    /// Obtain the next byte for deserialization
    fn pop(&mut self) -> (r: Result<u8, Self::PopError>)
        ensures
            r matches Ok(b) ==> {
                &&& old(self).remaining().len() > 0
                &&& b == old(self).remaining()[0]
                &&& final(self).remaining() == old(self).remaining().drop_first()
            },
            old(self).remaining().len() == 0 ==> r is Err,
            old(self).reliable() && old(self).remaining().len() > 0 ==> r is Ok,
            r matches Err(e) ==> e == old(self).pop_error() && final(self).pop_error()
                == old(self).pop_error(),
            final(self).reliable() == old(self).reliable(),
    ;

    /// Returns the number of bytes remaining in the message, if known.
    ///
    /// It is not enforced that this number is exactly correct: it is a hint for
    /// optimizations such as reserving space. The default implementation returns `None`.
    fn size_hint(&self) -> (r: Option<usize>)
        ensures
            true,
        default_ensures
            r is None,
    {
        None
    }

    /// Attempt to take the next `ct` bytes from the serialized message.
    ///
    /// This variant borrows the data from the input for zero-copy deserialization.
    fn try_take_n(&mut self, ct: usize) -> (r: Result<&'de [u8], Self::PopError>)
        ensures
            r matches Ok(s) ==> {
                &&& ct <= old(self).remaining().len()
                &&& s@ == old(self).remaining().take(ct as int)
                &&& final(self).remaining() == old(self).remaining().skip(ct as int)
            },
            old(self).remaining().len() < ct ==> r is Err,
            old(self).reliable() && ct <= old(self).remaining().len() ==> r is Ok,
            r matches Err(e) ==> e == old(self).pop_error() && final(self).pop_error()
                == old(self).pop_error(),
            final(self).reliable() == old(self).reliable(),
    ;

    /// Attempt to take the next `ct` bytes from the serialized message, without the
    /// guarantee that they are borrowed from the input.
    fn try_take_n_temp<'a>(&'a mut self, ct: usize) -> (r: Result<&'a [u8], Self::PopError>) where
        'de: 'a,

        ensures
            r matches Ok(s) ==> {
                &&& ct <= old(self).remaining().len()
                &&& s@ == old(self).remaining().take(ct as int)
                &&& final(self).remaining() == old(self).remaining().skip(ct as int)
            },
            old(self).remaining().len() < ct ==> r is Err,
            old(self).reliable() && ct <= old(self).remaining().len() ==> r is Ok,
            r matches Err(e) ==> e == old(self).pop_error() && final(self).pop_error()
                == old(self).pop_error(),
            final(self).reliable() == old(self).reliable(),
    {
        self.try_take_n(ct)
    }

    /// Complete the deserialization process.
    fn finalize(self) -> Result<Self::Remainder, Self::FinalizeError>;
}

/// A flavor that reads from a borrowed byte slice.
pub struct Slice<'de> {
    bytes: &'de [u8],
}

impl<'de> Slice<'de> {
    /// A flavor yielding the bytes of `bytes`.
    pub fn new(bytes: &'de [u8]) -> (r: Self)
        ensures
            r.remaining() == bytes@,
    {
        Slice { bytes }
    }
}

impl<'de> Flavor<'de> for Slice<'de> {
    type Remainder = &'de [u8];

    type Source = &'de [u8];

    type PopError = UnexpectedEnd;

    type FinalizeError = UnexpectedEnd;

    closed spec fn remaining(&self) -> Seq<u8> {
        self.bytes@
    }

    open spec fn reliable(&self) -> bool {
        true
    }

    open spec fn pop_error(&self) -> UnexpectedEnd {
        UnexpectedEnd
    }

    fn pop(&mut self) -> (r: Result<u8, UnexpectedEnd>) {
        if self.bytes.len() == 0 {
            Err(UnexpectedEnd)
        } else {
            let b = self.bytes[0];
            self.bytes = vstd::slice::slice_subrange(self.bytes, 1, self.bytes.len());
            assert(self.bytes@ == old(self).bytes@.drop_first());
            Ok(b)
        }
    }

    fn size_hint(&self) -> (r: Option<usize>)
        ensures
            r == Some(self.remaining().len() as usize),
    {
        Some(self.bytes.len())
    }

    fn try_take_n(&mut self, ct: usize) -> (r: Result<&'de [u8], UnexpectedEnd>) {
        if ct > self.bytes.len() {
            Err(UnexpectedEnd)
        } else {
            let taken = vstd::slice::slice_subrange(self.bytes, 0, ct);
            self.bytes = vstd::slice::slice_subrange(self.bytes, ct, self.bytes.len());
            Ok(taken)
        }
    }

    /// The unread bytes.
    fn finalize(self) -> (r: Result<&'de [u8], UnexpectedEnd>)
        ensures
            r matches Ok(s) && s@ == self.remaining(),
    {
        Ok(self.bytes)
    }
}

// ---------------------------------------------------------------------------
// Primitives
// ---------------------------------------------------------------------------

/// The bool a byte reads as: 0 is `false`, 1 is `true`, and any other byte is no bool.
pub open spec fn byte_bool(x: u8) -> Option<bool> {
    if x == 0 {
        Some(false)
    } else if x == 1 {
        Some(true)
    } else {
        None
    }
}

/// Attempt to take a [bool]: the byte 0 is `false`, 1 is `true`, anything else is not a
/// bool (`Ok(None)`).
pub fn try_take_bool<'de, F: Flavor<'de>>(f: &mut F) -> (r: Result<Option<bool>, F::PopError>)
    ensures
        old(f).remaining().len() == 0 ==> r is Err,
        old(f).reliable() && old(f).remaining().len() > 0 ==> r is Ok,
        r matches Err(e) ==> e == final(f).pop_error(),
        final(f).reliable() == old(f).reliable(),
        r is Ok ==> final(f).remaining() == old(f).remaining().drop_first(),
        r matches Ok(o) ==> o == byte_bool(old(f).remaining()[0]),
{
    match f.pop() {
        Ok(0) => Ok(Some(false)),
        Ok(1) => Ok(Some(true)),
        Ok(_) => Ok(None),
        Err(e) => Err(e),
    }
}

/// Attempt to take a [u8]: one byte.
pub fn try_take_u8<'de, F: Flavor<'de>>(f: &mut F) -> (r: Result<u8, F::PopError>)
    ensures
        old(f).remaining().len() == 0 ==> r is Err,
        old(f).reliable() && old(f).remaining().len() > 0 ==> r is Ok,
        r matches Err(e) ==> e == final(f).pop_error(),
        final(f).reliable() == old(f).reliable(),
        r matches Ok(b) ==> b == old(f).remaining()[0] && final(f).remaining()
            == old(f).remaining().drop_first(),
{
    f.pop()
}

/// What taking a varint of at most `max_len` bytes from `before`, leaving `after`, may
/// give back: the value read (zig-zag decoded when `zigzagged`), `Ok(None)` for bytes
/// that are no such varint, or an error when the bytes ran out.
pub open spec fn took_varint<E>(
    before: Seq<u8>,
    after: Seq<u8>,
    max_len: nat,
    last_max: nat,
    zigzagged: bool,
    r: Result<Option<int>, E>,
) -> bool {
    match varint_read(before, max_len, last_max) {
        VarintRead::Value { value, len } => {
            &&& r == Ok::<Option<int>, E>(
                Some(
                    if zigzagged {
                        unzigzag(value)
                    } else {
                        value as int
                    },
                ),
            )
            &&& after == before.skip(len as int)
        },
        VarintRead::Invalid { len } => {
            &&& r == Ok::<Option<int>, E>(None)
            &&& after == before.skip(len as int)
        },
        VarintRead::Short => r is Err,
    }
}

/// The result `r` with its value mapped to an integer by `f`.
pub open spec fn widen<T, E>(r: Result<Option<T>, E>, f: spec_fn(T) -> int) -> Result<
    Option<int>,
    E,
> {
    match r {
        Ok(Some(v)) => Ok(Some(f(v))),
        Ok(None) => Ok(None),
        Err(e) => Err(e),
    }
}

/// Attempt to take a [u16], encoded as a varint of at most three bytes.
pub fn try_take_u16<'de, F: Flavor<'de>>(f: &mut F) -> (r: Result<Option<u16>, F::PopError>)
    ensures
        (r is Ok || old(f).reliable()) ==> took_varint(
            old(f).remaining(),
            final(f).remaining(),
            3,
            3,
            false,
            widen(r, |v: u16| v as int),
        ),
        r matches Err(e) ==> e == final(f).pop_error(),
        final(f).reliable() == old(f).reliable(),
{
    let ghost s = f.remaining();
    let mut out: u16 = 0;
    let mut i: usize = 0;
    proof {
        lemma2_to64();
    }
    while i < 3
        invariant
            i <= 3,
            s == old(f).remaining(),
            f.reliable() == old(f).reliable(),
            i <= s.len(),
            f.remaining() == s.skip(i as int),
            forall|j: int| 0 <= j < i ==> #[trigger] s[j] >= 128,
            i < 3 ==> out == varint_value(s, i as nat),
        decreases 3 - i,
    {
        proof {
            lemma_varint_read_skips(s, 0, i as nat, 3, 3);
            lemma_varint_value_bound(s, i as nat);
        }
        let val = match f.pop() {
            Ok(v) => v,
            Err(e) => {
                return Err(e);
            },
        };
        assert(val == s[i as int]);
        let carry = (val & 0x7F) as u16;
        assert((val & 0x7F) as u16 == (val % 128) as u16 && val % 128 <= 127) by (bit_vector);
        let shift = (7 * i) as u16;
        let ghost fits = i < 2 || val <= 3;
        proof {
            if fits {
                lemma2_to64();
                lemma_pow2_adds(2, 14);
                lemma_group_fits(carry as nat, i as nat, 3, 3, 16);
                lemma_or_shl_u16(out, carry, shift);
            }
        }
        out |= carry << shift;
        assert(f.remaining() == s.skip(i + 1));
        if (val & 0x80) == 0 {
            assert((val & 0x80 == 0) == (val < 128)) by (bit_vector);
            if i == 3 - 1 && val > 3 {
                return Ok(None);
            } else {
                return Ok(Some(out));
            }
        }
        assert((val & 0x80 != 0) == (val >= 128)) by (bit_vector);
        i += 1;
    }
    proof {
        lemma_varint_read_skips(s, 0, i as nat, 3, 3);
    }
    Ok(None)
}

/// Attempt to take a [u32], encoded as a varint of at most 5 bytes.
pub fn try_take_u32<'de, F: Flavor<'de>>(f: &mut F) -> (r: Result<Option<u32>, F::PopError>)
    ensures
        (r is Ok || old(f).reliable()) ==> took_varint(
            old(f).remaining(),
            final(f).remaining(),
            5,
            15,
            false,
            widen(r, |v: u32| v as int),
        ),
        r matches Err(e) ==> e == final(f).pop_error(),
        final(f).reliable() == old(f).reliable(),
{
    let ghost s = f.remaining();
    let mut out: u32 = 0;
    let mut i: usize = 0;
    proof {
        lemma2_to64();
    }
    while i < 5
        invariant
            i <= 5,
            s == old(f).remaining(),
            f.reliable() == old(f).reliable(),
            i <= s.len(),
            f.remaining() == s.skip(i as int),
            forall|j: int| 0 <= j < i ==> #[trigger] s[j] >= 128,
            i < 5 ==> out == varint_value(s, i as nat),
        decreases 5 - i,
    {
        proof {
            lemma_varint_read_skips(s, 0, i as nat, 5, 15);
            lemma_varint_value_bound(s, i as nat);
        }
        let val = match f.pop() {
            Ok(v) => v,
            Err(e) => {
                return Err(e);
            },
        };
        assert(val == s[i as int]);
        let carry = (val & 0x7F) as u32;
        assert((val & 0x7F) as u32 == (val % 128) as u32 && val % 128 <= 127) by (bit_vector);
        let shift = (7 * i) as u32;
        let ghost fits = i < 4 || val <= 15;
        proof {
            if fits {
                lemma2_to64();
                lemma_pow2_adds(4, 28);
                lemma_group_fits(carry as nat, i as nat, 5, 15, 32);
                lemma_or_shl_u32(out, carry, shift);
            }
        }
        out |= carry << shift;
        assert(f.remaining() == s.skip(i + 1));
        if (val & 0x80) == 0 {
            assert((val & 0x80 == 0) == (val < 128)) by (bit_vector);
            if i == 5 - 1 && val > 15 {
                return Ok(None);
            } else {
                return Ok(Some(out));
            }
        }
        assert((val & 0x80 != 0) == (val >= 128)) by (bit_vector);
        i += 1;
    }
    proof {
        lemma_varint_read_skips(s, 0, i as nat, 5, 15);
    }
    Ok(None)
}

/// Attempt to take a [u64], encoded as a varint of at most 10 bytes.
pub fn try_take_u64<'de, F: Flavor<'de>>(f: &mut F) -> (r: Result<Option<u64>, F::PopError>)
    ensures
        (r is Ok || old(f).reliable()) ==> took_varint(
            old(f).remaining(),
            final(f).remaining(),
            10,
            1,
            false,
            widen(r, |v: u64| v as int),
        ),
        r matches Err(e) ==> e == final(f).pop_error(),
        final(f).reliable() == old(f).reliable(),
{
    let ghost s = f.remaining();
    let mut out: u64 = 0;
    let mut i: usize = 0;
    proof {
        lemma2_to64();
    }
    while i < 10
        invariant
            i <= 10,
            s == old(f).remaining(),
            f.reliable() == old(f).reliable(),
            i <= s.len(),
            f.remaining() == s.skip(i as int),
            forall|j: int| 0 <= j < i ==> #[trigger] s[j] >= 128,
            i < 10 ==> out == varint_value(s, i as nat),
        decreases 10 - i,
    {
        proof {
            lemma_varint_read_skips(s, 0, i as nat, 10, 1);
            lemma_varint_value_bound(s, i as nat);
        }
        let val = match f.pop() {
            Ok(v) => v,
            Err(e) => {
                return Err(e);
            },
        };
        assert(val == s[i as int]);
        let carry = (val & 0x7F) as u64;
        assert((val & 0x7F) as u64 == (val % 128) as u64 && val % 128 <= 127) by (bit_vector);
        let shift = (7 * i) as u64;
        let ghost fits = i < 9 || val <= 1;
        proof {
            if fits {
                lemma2_to64();
                lemma_pow2_adds(1, 63);
                lemma_group_fits(carry as nat, i as nat, 10, 1, 64);
                lemma_or_shl_u64(out, carry, shift);
            }
        }
        out |= carry << shift;
        assert(f.remaining() == s.skip(i + 1));
        if (val & 0x80) == 0 {
            assert((val & 0x80 == 0) == (val < 128)) by (bit_vector);
            if i == 10 - 1 && val > 1 {
                return Ok(None);
            } else {
                return Ok(Some(out));
            }
        }
        assert((val & 0x80 != 0) == (val >= 128)) by (bit_vector);
        i += 1;
    }
    proof {
        lemma_varint_read_skips(s, 0, i as nat, 10, 1);
    }
    Ok(None)
}

/// Attempt to take a [u128], encoded as a varint of at most 19 bytes.
pub fn try_take_u128<'de, F: Flavor<'de>>(f: &mut F) -> (r: Result<Option<u128>, F::PopError>)
    ensures
        (r is Ok || old(f).reliable()) ==> took_varint(
            old(f).remaining(),
            final(f).remaining(),
            19,
            3,
            false,
            widen(r, |v: u128| v as int),
        ),
        r matches Err(e) ==> e == final(f).pop_error(),
        final(f).reliable() == old(f).reliable(),
{
    let ghost s = f.remaining();
    let mut out: u128 = 0;
    let mut i: usize = 0;
    proof {
        lemma2_to64();
    }
    while i < 19
        invariant
            i <= 19,
            s == old(f).remaining(),
            f.reliable() == old(f).reliable(),
            i <= s.len(),
            f.remaining() == s.skip(i as int),
            forall|j: int| 0 <= j < i ==> #[trigger] s[j] >= 128,
            i < 19 ==> out == varint_value(s, i as nat),
        decreases 19 - i,
    {
        proof {
            lemma_varint_read_skips(s, 0, i as nat, 19, 3);
            lemma_varint_value_bound(s, i as nat);
        }
        let val = match f.pop() {
            Ok(v) => v,
            Err(e) => {
                return Err(e);
            },
        };
        assert(val == s[i as int]);
        let carry = (val & 0x7F) as u128;
        assert((val & 0x7F) as u128 == (val % 128) as u128 && val % 128 <= 127) by (bit_vector);
        let shift = (7 * i) as u128;
        let ghost fits = i < 18 || val <= 3;
        proof {
            if fits {
                lemma2_to64();
                lemma_pow2_adds(2, 126);
                lemma_pow2_adds(64, 64);
                lemma_group_fits(carry as nat, i as nat, 19, 3, 128);
                lemma_or_shl_u128(out, carry, shift);
            }
        }
        out |= carry << shift;
        assert(f.remaining() == s.skip(i + 1));
        if (val & 0x80) == 0 {
            assert((val & 0x80 == 0) == (val < 128)) by (bit_vector);
            if i == 19 - 1 && val > 3 {
                return Ok(None);
            } else {
                return Ok(Some(out));
            }
        }
        assert((val & 0x80 != 0) == (val >= 128)) by (bit_vector);
        i += 1;
    }
    proof {
        lemma_varint_read_skips(s, 0, i as nat, 19, 3);
    }
    Ok(None)
}


/// The number of bytes a `varint(usize)` may take on this platform.
pub open spec fn usize_varint_len() -> nat {
    if usize::BITS == 64 {
        10
    } else {
        5
    }
}

/// The largest last byte of a maximal `varint(usize)` on this platform.
pub open spec fn usize_last_max() -> nat {
    if usize::BITS == 64 {
        1
    } else {
        15
    }
}

/// Attempt to take a [usize], encoded as a varint as wide as `usize` is on this platform.
pub fn try_take_usize<'de, F: Flavor<'de>>(f: &mut F) -> (r: Result<Option<usize>, F::PopError>)
    ensures
        (r is Ok || old(f).reliable()) ==> took_varint(
            old(f).remaining(),
            final(f).remaining(),
            usize_varint_len(),
            usize_last_max(),
            false,
            widen(r, |v: usize| v as int),
        ),
        r matches Err(e) ==> e == final(f).pop_error(),
        final(f).reliable() == old(f).reliable(),
{
    if usize::BITS == 64 {
        match try_take_u64(f) {
            Ok(Some(u)) => Ok(Some(u as usize)),
            Ok(None) => Ok(None),
            Err(e) => Err(e),
        }
    } else {
        match try_take_u32(f) {
            Ok(Some(u)) => Ok(Some(u as usize)),
            Ok(None) => Ok(None),
            Err(e) => Err(e),
        }
    }
}

/// Attempt to take an [i8]: one byte, read as two's complement.
pub fn try_take_i8<'de, F: Flavor<'de>>(f: &mut F) -> (r: Result<i8, F::PopError>)
    ensures
        old(f).remaining().len() == 0 ==> r is Err,
        old(f).reliable() && old(f).remaining().len() > 0 ==> r is Ok,
        r matches Err(e) ==> e == final(f).pop_error(),
        final(f).reliable() == old(f).reliable(),
        r matches Ok(v) ==> v == old(f).remaining()[0] as i8 && final(f).remaining()
            == old(f).remaining().drop_first(),
{
    match try_take_u8(f) {
        Ok(u) => Ok(u as i8),
        Err(e) => Err(e),
    }
}

/// Attempt to take an [i16]: a zig-zag encoded varint of at most 3 bytes.
pub fn try_take_i16<'de, F: Flavor<'de>>(f: &mut F) -> (r: Result<Option<i16>, F::PopError>)
    ensures
        (r is Ok || old(f).reliable()) ==> took_varint(
            old(f).remaining(),
            final(f).remaining(),
            3,
            3,
            true,
            widen(r, |v: i16| v as int),
        ),
        r matches Err(e) ==> e == final(f).pop_error(),
        final(f).reliable() == old(f).reliable(),
{
    match try_take_u16(f) {
        Ok(Some(u)) => Ok(Some(de_zig_zag_i16(u))),
        Ok(None) => Ok(None),
        Err(e) => Err(e),
    }
}

/// Attempt to take an [i32]: a zig-zag encoded varint of at most 5 bytes.
pub fn try_take_i32<'de, F: Flavor<'de>>(f: &mut F) -> (r: Result<Option<i32>, F::PopError>)
    ensures
        (r is Ok || old(f).reliable()) ==> took_varint(
            old(f).remaining(),
            final(f).remaining(),
            5,
            15,
            true,
            widen(r, |v: i32| v as int),
        ),
        r matches Err(e) ==> e == final(f).pop_error(),
        final(f).reliable() == old(f).reliable(),
{
    match try_take_u32(f) {
        Ok(Some(u)) => Ok(Some(de_zig_zag_i32(u))),
        Ok(None) => Ok(None),
        Err(e) => Err(e),
    }
}

/// Attempt to take an [i64]: a zig-zag encoded varint of at most 10 bytes.
pub fn try_take_i64<'de, F: Flavor<'de>>(f: &mut F) -> (r: Result<Option<i64>, F::PopError>)
    ensures
        (r is Ok || old(f).reliable()) ==> took_varint(
            old(f).remaining(),
            final(f).remaining(),
            10,
            1,
            true,
            widen(r, |v: i64| v as int),
        ),
        r matches Err(e) ==> e == final(f).pop_error(),
        final(f).reliable() == old(f).reliable(),
{
    match try_take_u64(f) {
        Ok(Some(u)) => Ok(Some(de_zig_zag_i64(u))),
        Ok(None) => Ok(None),
        Err(e) => Err(e),
    }
}

/// Attempt to take an [i128]: a zig-zag encoded varint of at most 19 bytes.
pub fn try_take_i128<'de, F: Flavor<'de>>(f: &mut F) -> (r: Result<Option<i128>, F::PopError>)
    ensures
        (r is Ok || old(f).reliable()) ==> took_varint(
            old(f).remaining(),
            final(f).remaining(),
            19,
            3,
            true,
            widen(r, |v: i128| v as int),
        ),
        r matches Err(e) ==> e == final(f).pop_error(),
        final(f).reliable() == old(f).reliable(),
{
    match try_take_u128(f) {
        Ok(Some(u)) => Ok(Some(de_zig_zag_i128(u))),
        Ok(None) => Ok(None),
        Err(e) => Err(e),
    }
}

/// Attempt to take an [isize]: a zig-zag encoded varint as wide as `isize` is on this
/// platform.
pub fn try_take_isize<'de, F: Flavor<'de>>(f: &mut F) -> (r: Result<Option<isize>, F::PopError>)
    ensures
        (r is Ok || old(f).reliable()) ==> took_varint(
            old(f).remaining(),
            final(f).remaining(),
            usize_varint_len(),
            usize_last_max(),
            true,
            widen(r, |v: isize| v as int),
        ),
        r matches Err(e) ==> e == final(f).pop_error(),
        final(f).reliable() == old(f).reliable(),
{
    if usize::BITS == 64 {
        match try_take_i64(f) {
            Ok(Some(i)) => Ok(Some(i as isize)),
            Ok(None) => Ok(None),
            Err(e) => Err(e),
        }
    } else {
        match try_take_i32(f) {
            Ok(Some(i)) => Ok(Some(i as isize)),
            Ok(None) => Ok(None),
            Err(e) => Err(e),
        }
    }
}

/// Convert a zig-zag encoded `i16` from its `u16` counterpart
pub fn de_zig_zag_i16(n: u16) -> (r: i16)
    ensures
        r == unzigzag(n as nat),
{
    crate::varint::de_zig_zag_i16(n)
}

/// Convert a zig-zag encoded `i32` from its `u32` counterpart
pub fn de_zig_zag_i32(n: u32) -> (r: i32)
    ensures
        r == unzigzag(n as nat),
{
    crate::varint::de_zig_zag_i32(n)
}

/// Convert a zig-zag encoded `i64` from its `u64` counterpart
pub fn de_zig_zag_i64(n: u64) -> (r: i64)
    ensures
        r == unzigzag(n as nat),
{
    crate::varint::de_zig_zag_i64(n)
}

/// Convert a zig-zag encoded `i128` from its `u128` counterpart
pub fn de_zig_zag_i128(n: u128) -> (r: i128)
    ensures
        r == unzigzag(n as nat),
{
    crate::varint::de_zig_zag_i128(n)
}

/// What taking a length-prefixed byte array from `before`, leaving `after`, may give
/// back: the bytes that follow a `varint(usize)` length, `Ok(None)` when the length is no
/// such varint, or an error when the bytes ran out.
pub open spec fn took_bytes<E>(before: Seq<u8>, after: Seq<u8>, r: Result<Option<Seq<u8>>, E>) -> bool {
    match varint_read(before, usize_varint_len(), usize_last_max()) {
        VarintRead::Value { value: len, len: n } => {
            let rest = before.skip(n as int);
            if len <= rest.len() {
                &&& r == Ok::<Option<Seq<u8>>, E>(Some(rest.take(len as int)))
                &&& after == rest.skip(len as int)
            } else {
                r is Err
            }
        },
        VarintRead::Invalid { len: n } => {
            &&& r == Ok::<Option<Seq<u8>>, E>(None)
            &&& after == before.skip(n as int)
        },
        VarintRead::Short => r is Err,
    }
}

/// The bytes of a taken byte array.
pub open spec fn bytes_view<E>(r: Result<Option<&[u8]>, E>) -> Result<Option<Seq<u8>>, E> {
    match r {
        Ok(Some(s)) => Ok(Some(s@)),
        Ok(None) => Ok(None),
        Err(e) => Err(e),
    }
}

/// Attempt to take a [byte array]: a `varint(usize)` length, then that many bytes,
/// borrowed from the flavor.
pub fn try_take_bytes<'de, F: Flavor<'de>>(f: &mut F) -> (r: Result<Option<&'de [u8]>, F::PopError>)
    ensures
        (r is Ok || old(f).reliable()) ==> took_bytes(old(f).remaining(), final(f).remaining(), bytes_view(r)),
        r matches Err(e) ==> e == final(f).pop_error(),
        final(f).reliable() == old(f).reliable(),
{
    let len = match try_take_usize(f) {
        Ok(Some(l)) => l,
        Ok(None) => return Ok(None),
        Err(e) => return Err(e),
    };
    let sli = match f.try_take_n(len) {
        Ok(s) => s,
        Err(e) => return Err(e),
    };
    Ok(Some(sli))
}

/// What taking a string from `before`, leaving `after`, may give back: the UTF-8 text
/// of the bytes of a byte array, `Ok(None)` when the length is no varint or the bytes are
/// not UTF-8, or an error when the bytes ran out.
pub open spec fn took_str<E>(before: Seq<u8>, after: Seq<u8>, r: Result<Option<Seq<u8>>, E>) -> bool {
    match varint_read(before, usize_varint_len(), usize_last_max()) {
        VarintRead::Value { value: len, len: n } => {
            let rest = before.skip(n as int);
            if len <= rest.len() {
                &&& after == rest.skip(len as int)
                &&& if vstd::utf8::valid_utf8(rest.take(len as int)) {
                    r == Ok::<Option<Seq<u8>>, E>(Some(rest.take(len as int)))
                } else {
                    r == Ok::<Option<Seq<u8>>, E>(None)
                }
            } else {
                r is Err
            }
        },
        VarintRead::Invalid { len: n } => {
            &&& r == Ok::<Option<Seq<u8>>, E>(None)
            &&& after == before.skip(n as int)
        },
        VarintRead::Short => r is Err,
    }
}

/// The UTF-8 bytes of a taken string.
pub open spec fn str_view<E>(r: Result<Option<&str>, E>) -> Result<Option<Seq<u8>>, E> {
    match r {
        Ok(Some(s)) => Ok(Some(s.spec_bytes())),
        Ok(None) => Ok(None),
        Err(e) => Err(e),
    }
}

/// `core::str::from_utf8`, keeping only whether it succeeded: the bytes as text when
/// they are valid UTF-8, `None` otherwise.
#[verifier::external_body]
pub(crate) fn utf8_str(bytes: &[u8]) -> (r: Option<&str>)
    ensures
        r is Some <==> vstd::utf8::valid_utf8(bytes@),
        r matches Some(s) ==> s.spec_bytes() == bytes@,
{
    core::str::from_utf8(bytes).ok()
}

/// Attempt to take a [string]: a byte array holding UTF-8 text, borrowed from the
/// flavor.
pub fn try_take_str<'de, F: Flavor<'de>>(f: &mut F) -> (r: Result<Option<&'de str>, F::PopError>)
    ensures
        (r is Ok || old(f).reliable()) ==> took_str(old(f).remaining(), final(f).remaining(), str_view(r)),
        r matches Err(e) ==> e == final(f).pop_error(),
        final(f).reliable() == old(f).reliable(),
{
    let len = match try_take_usize(f) {
        Ok(Some(l)) => l,
        Ok(None) => return Ok(None),
        Err(e) => return Err(e),
    };
    let sli = match f.try_take_n(len) {
        Ok(s) => s,
        Err(e) => return Err(e),
    };
    let sli = utf8_str(sli);
    Ok(sli)
}


// ---------------------------------------------------------------------------
// What is taken back is what was pushed
// ---------------------------------------------------------------------------

/// The width facts of a varint: `(last_max + 1) * 2^(7 (max_len - 1)) == 2^bits`.
proof fn lemma_width(max_len: nat, last_max: nat, bits: nat)
    requires
        (max_len == 3 && last_max == 3 && bits == 16) || (max_len == 5 && last_max == 15 && bits
            == 32) || (max_len == 10 && last_max == 1 && bits == 64) || (max_len == 19 && last_max
            == 3 && bits == 128),
    ensures
        (last_max + 1) * pow2((7 * (max_len - 1)) as nat) == pow2(bits),
{
    lemma2_to64();
    if bits == 16 {
        lemma_pow2_adds(2, 14);
    } else if bits == 32 {
        lemma_pow2_adds(4, 28);
    } else if bits == 64 {
        lemma_pow2_adds(1, 63);
    } else {
        lemma_pow2_adds(2, 126);
    }
}

/// Taking a varint back from the encoding of a value that fits `bits` gives the value
/// and leaves exactly what followed the encoding.
proof fn lemma_took_encoded(v: nat, rest: Seq<u8>, max_len: nat, last_max: nat, bits: nat, zz: bool, x: int)
    requires
        (max_len == 3 && last_max == 3 && bits == 16) || (max_len == 5 && last_max == 15 && bits
            == 32) || (max_len == 10 && last_max == 1 && bits == 64) || (max_len == 19 && last_max
            == 3 && bits == 128),
        v < pow2(bits),
        x == if zz { unzigzag(v) } else { v as int },
    ensures
        took_varint::<()>(varint_encode(v) + rest, rest, max_len, last_max, zz, Ok(Some(x))),
{
    lemma_width(max_len, last_max, bits);
    lemma_varint_read_encode(v, rest, max_len, last_max);
    assert((varint_encode(v) + rest).skip(varint_encode(v).len() as int) == rest);
}

/// Every `u16` pushed is taken back unchanged, leaving the bytes that followed it.
pub proof fn law_u16_round_trip(v: u16, rest: Seq<u8>)
    ensures
        took_varint::<()>(varint_encode(v as nat) + rest, rest, 3, 3, false, Ok(Some(v as int))),
{
    lemma2_to64();
    lemma_took_encoded(v as nat, rest, 3, 3, 16, false, v as int);
}

/// Every `u32` pushed is taken back unchanged, leaving the bytes that followed it.
pub proof fn law_u32_round_trip(v: u32, rest: Seq<u8>)
    ensures
        took_varint::<()>(varint_encode(v as nat) + rest, rest, 5, 15, false, Ok(Some(v as int))),
{
    lemma2_to64();
    lemma_took_encoded(v as nat, rest, 5, 15, 32, false, v as int);
}

/// Every `u64` pushed is taken back unchanged, leaving the bytes that followed it.
pub proof fn law_u64_round_trip(v: u64, rest: Seq<u8>)
    ensures
        took_varint::<()>(varint_encode(v as nat) + rest, rest, 10, 1, false, Ok(Some(v as int))),
{
    lemma2_to64();
    lemma_took_encoded(v as nat, rest, 10, 1, 64, false, v as int);
}

/// Every `u128` pushed is taken back unchanged, leaving the bytes that followed it.
pub proof fn law_u128_round_trip(v: u128, rest: Seq<u8>)
    ensures
        took_varint::<()>(varint_encode(v as nat) + rest, rest, 19, 3, false, Ok(Some(v as int))),
{
    lemma2_to64();
    lemma_pow2_adds(64, 64);
    lemma_took_encoded(v as nat, rest, 19, 3, 128, false, v as int);
}

/// Every `usize` pushed is taken back unchanged, leaving the bytes that followed it.
pub proof fn law_usize_round_trip(v: usize, rest: Seq<u8>)
    ensures
        took_varint::<()>(
            varint_encode(v as nat) + rest,
            rest,
            usize_varint_len(),
            usize_last_max(),
            false,
            Ok(Some(v as int)),
        ),
{
    lemma2_to64();
    if usize::BITS == 64 {
        lemma_took_encoded(v as nat, rest, 10, 1, 64, false, v as int);
    } else {
        lemma_took_encoded(v as nat, rest, 5, 15, 32, false, v as int);
    }
}

/// Every `i16` pushed (zig-zag encoded) is taken back unchanged, leaving the bytes
/// that followed it.
pub proof fn law_i16_round_trip(v: i16, rest: Seq<u8>)
    ensures
        took_varint::<()>(varint_encode(zigzag(v as int)) + rest, rest, 3, 3, true, Ok(Some(v as int))),
{
    lemma2_to64();
    lemma_zigzag_inverse(v as int, 0);
    lemma_took_encoded(zigzag(v as int), rest, 3, 3, 16, true, v as int);
}

/// Every `i32` pushed (zig-zag encoded) is taken back unchanged, leaving the bytes
/// that followed it.
pub proof fn law_i32_round_trip(v: i32, rest: Seq<u8>)
    ensures
        took_varint::<()>(varint_encode(zigzag(v as int)) + rest, rest, 5, 15, true, Ok(Some(v as int))),
{
    lemma2_to64();
    lemma_zigzag_inverse(v as int, 0);
    lemma_took_encoded(zigzag(v as int), rest, 5, 15, 32, true, v as int);
}

/// Every `i64` pushed (zig-zag encoded) is taken back unchanged, leaving the bytes
/// that followed it.
pub proof fn law_i64_round_trip(v: i64, rest: Seq<u8>)
    ensures
        took_varint::<()>(varint_encode(zigzag(v as int)) + rest, rest, 10, 1, true, Ok(Some(v as int))),
{
    lemma2_to64();
    lemma_zigzag_inverse(v as int, 0);
    lemma_took_encoded(zigzag(v as int), rest, 10, 1, 64, true, v as int);
}

/// Every `i128` pushed (zig-zag encoded) is taken back unchanged, leaving the bytes
/// that followed it.
pub proof fn law_i128_round_trip(v: i128, rest: Seq<u8>)
    ensures
        took_varint::<()>(varint_encode(zigzag(v as int)) + rest, rest, 19, 3, true, Ok(Some(v as int))),
{
    lemma2_to64();
    lemma_pow2_adds(64, 64);
    lemma_zigzag_inverse(v as int, 0);
    lemma_took_encoded(zigzag(v as int), rest, 19, 3, 128, true, v as int);
}

/// Every `isize` pushed (zig-zag encoded) is taken back unchanged, leaving the bytes
/// that followed it.
pub proof fn law_isize_round_trip(v: isize, rest: Seq<u8>)
    ensures
        took_varint::<()>(
            varint_encode(zigzag(v as int)) + rest,
            rest,
            usize_varint_len(),
            usize_last_max(),
            true,
            Ok(Some(v as int)),
        ),
{
    lemma2_to64();
    lemma_zigzag_inverse(v as int, 0);
    if usize::BITS == 64 {
        lemma_took_encoded(zigzag(v as int), rest, 10, 1, 64, true, v as int);
    } else {
        lemma_took_encoded(zigzag(v as int), rest, 5, 15, 32, true, v as int);
    }
}

/// Every byte array pushed is taken back unchanged, leaving the bytes that followed it.
pub proof fn law_bytes_round_trip(b: Seq<u8>, rest: Seq<u8>)
    requires
        b.len() <= usize::MAX,
    ensures
        took_bytes::<()>(varint_encode(b.len()) + b + rest, rest, Ok(Some(b))),
{
    let enc = varint_encode(b.len());
    let before = enc + b + rest;
    assert(before == enc + (b + rest));
    law_usize_round_trip(b.len() as usize, b + rest);
    assert(before.skip(enc.len() as int) == b + rest);
    assert((b + rest).take(b.len() as int) == b);
    assert((b + rest).skip(b.len() as int) == rest);
}

/// Every string pushed is taken back unchanged, leaving the bytes that followed it.
pub proof fn law_str_round_trip(text: Seq<char>, rest: Seq<u8>)
    requires
        vstd::utf8::encode_utf8(text).len() <= usize::MAX,
    ensures
        took_str::<()>(
            varint_encode(vstd::utf8::encode_utf8(text).len()) + vstd::utf8::encode_utf8(text)
                + rest,
            rest,
            Ok(Some(vstd::utf8::encode_utf8(text))),
        ),
{
    let b = vstd::utf8::encode_utf8(text);
    law_bytes_round_trip(b, rest);
    vstd::utf8::encode_utf8_valid_utf8(text);
    let enc = varint_encode(b.len());
    let before = enc + b + rest;
    assert(before == enc + (b + rest));
    assert(before.skip(enc.len() as int) == b + rest);
    assert((b + rest).take(b.len() as int) == b);
}

/// A bool pushed by [`crate::ser::try_push_bool`] is taken back unchanged by
/// [`try_take_bool`], leaving the bytes that followed it.
pub proof fn law_bool_round_trip(b: bool, rest: Seq<u8>)
    ensures
        ({
            let s = seq![crate::ser::bool_byte(b)] + rest;
            &&& s.len() > 0
            &&& byte_bool(s[0]) == Some(b)
            &&& s.drop_first() == rest
        }),
{
    let s = seq![crate::ser::bool_byte(b)] + rest;
    assert(s.drop_first() == rest);
}

} // verus!
