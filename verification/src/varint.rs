//! Varint tools: the LEB128-style variable length integer encoding used by the
//! postcard wire format, and the zig-zag mapping of signed integers.
use vstd::arithmetic::div_mod::lemma_fundamental_div_mod;
use vstd::arithmetic::mul::{
    lemma_mul_inequality,
    lemma_mul_is_associative,
    lemma_mul_is_commutative,
    lemma_mul_is_distributive_add,
};
use vstd::arithmetic::power2::{lemma_pow2_adds, lemma_pow2_pos, lemma2_to64, pow2};
use vstd::prelude::*;

verus! {

// ---------------------------------------------------------------------------
// The wire format of a varint
// ---------------------------------------------------------------------------

/// The encoding of the natural number `v` as a varint: seven bits per byte,
/// least significant group first, with the high bit set on every byte but the last.
pub open spec fn varint_encode(v: nat) -> Seq<u8>
    decreases v,
{
    if v < 128 {
        seq![v as u8]
    } else {
        seq![(v % 128 + 128) as u8] + varint_encode(v / 128)
    }
}

/// The number carried by the first `n` bytes of `s`: the sum of the low seven bits of
/// byte `j` times `2^(7 j)`.
pub open spec fn varint_value(s: Seq<u8>, n: nat) -> nat
    decreases n,
{
    if n == 0 {
        0
    } else {
        varint_value(s, (n - 1) as nat) + (s[n - 1] % 128) as nat * pow2((7 * (n - 1)) as nat)
    }
}

/// The outcome of reading one varint from the front of a byte stream.
pub enum VarintRead {
    /// The varint ends after `len` bytes and carries `value`.
    Value { value: nat, len: nat },
    /// The bytes do not form a varint of the requested width; `len` bytes were read
    /// before this was known.
    Invalid { len: nat },
    /// The stream ended before the varint did.
    Short,
}

/// Reading a varint of at most `max_len` bytes whose last possible byte may not
/// exceed `last_max`, looking at byte `i` onwards (all earlier bytes carried the
/// continuation bit).
pub open spec fn varint_read_from(s: Seq<u8>, i: nat, max_len: nat, last_max: nat) -> VarintRead
    decreases max_len - i,
{
    if i >= max_len {
        VarintRead::Invalid { len: max_len }
    } else if i >= s.len() {
        VarintRead::Short
    } else if s[i as int] < 128 {
        if i + 1 == max_len && s[i as int] > last_max {
            VarintRead::Invalid { len: i + 1 }
        } else {
            VarintRead::Value { value: varint_value(s, i + 1), len: i + 1 }
        }
    } else {
        varint_read_from(s, i + 1, max_len, last_max)
    }
}

/// Reading a varint of at most `max_len` bytes from the front of `s`.
pub open spec fn varint_read(s: Seq<u8>, max_len: nat, last_max: nat) -> VarintRead {
    varint_read_from(s, 0, max_len, last_max)
}

/// The number of bytes a varint of an integer type `bits` wide may take.
pub open spec fn varint_len_for_bits(bits: nat) -> nat {
    (bits + 6) / 7
}

/// The largest value of the last byte of a maximal-length varint of a `bits` wide type.
pub open spec fn last_byte_max_for_bits(bits: nat) -> nat {
    (pow2(bits % 7) - 1) as nat
}

// ---------------------------------------------------------------------------
// Lemmas about the format
// ---------------------------------------------------------------------------

/// The first `n` bytes carry a number below `2^(7 n)`.
pub proof fn lemma_varint_value_bound(s: Seq<u8>, n: nat)
    ensures
        varint_value(s, n) < pow2(7 * n),
    decreases n,
{
    if n == 0 {
        lemma2_to64();
    } else {
        let m = (n - 1) as nat;
        lemma_varint_value_bound(s, m);
        let d = (s[m as int] % 128) as int;
        let p = pow2(7 * m) as int;
        lemma_mul_inequality(d, 127, p);
        lemma_pow2_adds(7 * m, 7);
        lemma2_to64();
        assert(7 * n == 7 * m + 7);
    }
}

/// The value only depends on the bytes it covers.
pub proof fn lemma_varint_value_prefix(s: Seq<u8>, t: Seq<u8>, n: nat)
    requires
        n <= s.len(),
        n <= t.len(),
        s.take(n as int) == t.take(n as int),
    ensures
        varint_value(s, n) == varint_value(t, n),
    decreases n,
{
    if n > 0 {
        assert(s[n - 1] == s.take(n as int)[n - 1]);
        assert(t[n - 1] == t.take(n as int)[n - 1]);
        assert(s.take(n - 1) == s.take(n as int).take(n - 1));
        assert(t.take(n - 1) == t.take(n as int).take(n - 1));
        lemma_varint_value_prefix(s, t, (n - 1) as nat);
    }
}

/// Peeling off the first byte: the value is that byte's seven bits plus 128 times
/// the value of the rest.
pub proof fn lemma_varint_value_cons(s: Seq<u8>, n: nat)
    requires
        0 < n <= s.len(),
    ensures
        varint_value(s, n) == (s[0] % 128) as nat + 128 * varint_value(s.drop_first(), (n
            - 1) as nat),
    decreases n,
{
    let t = s.drop_first();
    if n == 1 {
        lemma2_to64();
        assert(varint_value(s, 0) == 0);
        assert(varint_value(t, 0) == 0);
        assert(varint_value(s, 1) == varint_value(s, 0) + (s[0] % 128) as nat * pow2(0));
    } else {
        let m = (n - 1) as nat;
        lemma_varint_value_cons(s, m);
        let d = (s[m as int] % 128) as int;
        assert(t[(m - 1) as int] == s[m as int]);
        lemma_pow2_adds(7, (7 * (m - 1)) as nat);
        lemma2_to64();
        assert(7 * m == 7 + 7 * (m - 1));
        let p = pow2((7 * (m - 1)) as nat) as int;
        assert(pow2(7 * m) == 128 * p);
        lemma_mul_is_associative(d, 128, p);
        lemma_mul_is_commutative(d, 128);
        lemma_mul_is_associative(128, d, p);
        assert(d * pow2(7 * m) == 128 * (d * p));
        let vt = varint_value(t, (m - 1) as nat) as int;
        lemma_mul_is_distributive_add(128, vt, d * p);
        assert(varint_value(t, m) == vt + d * p);
        assert(varint_value(s, n) == varint_value(s, m) + d * pow2(7 * m));
    }
}

/// The encoding of `v` carries `v`.
pub proof fn lemma_varint_encode_value(v: nat, rest: Seq<u8>)
    ensures
        varint_value(varint_encode(v) + rest, varint_encode(v).len()) == v,
        varint_encode(v).len() >= 1,
    decreases v,
{
    let e = varint_encode(v);
    let s = e + rest;
    if v < 128 {
        lemma2_to64();
        assert(s[0] == v as u8);
        assert(varint_value(s, 0) == 0);
        assert(varint_value(s, 1) == varint_value(s, 0) + (s[0] % 128) as nat * pow2(0));
    } else {
        let t = varint_encode(v / 128);
        lemma_varint_encode_value(v / 128, rest);
        assert(s.drop_first() == t + rest);
        lemma_varint_value_cons(s, e.len());
        assert(s[0] == (v % 128 + 128) as u8);
        assert(s[0] % 128 == v % 128);
        assert(e.len() == t.len() + 1);
        lemma_fundamental_div_mod(v as int, 128);
        assert(varint_value(t + rest, t.len()) == v / 128);
    }
}

/// Every byte of an encoding but the last carries the continuation bit, and the
/// last does not.
pub proof fn lemma_varint_encode_bytes(v: nat)
    ensures
        forall|j: int|
            0 <= j < varint_encode(v).len() - 1 ==> #[trigger] varint_encode(v)[j] >= 128,
        varint_encode(v)[varint_encode(v).len() - 1] < 128,
        varint_encode(v)[varint_encode(v).len() - 1] == v / pow2((7 * (varint_encode(v).len()
            - 1)) as nat),
    decreases v,
{
    lemma2_to64();
    if v < 128 {
        assert(varint_encode(v)[0] == v as u8);
        assert(v / pow2(0) == v / 1);
    } else {
        let t = varint_encode(v / 128);
        lemma_varint_encode_bytes(v / 128);
        let e = varint_encode(v);
        assert forall|j: int| 0 <= j < e.len() - 1 implies #[trigger] e[j] >= 128 by {
            if j > 0 {
                assert(e[j] == t[j - 1]);
            }
        }
        assert(e[e.len() - 1] == t[t.len() - 1]);
        let k = (7 * (t.len() - 1)) as nat;
        lemma_pow2_adds(7, k);
        lemma_pow2_pos(k);
        assert((7 * (e.len() - 1)) as nat == 7 + k);
        vstd::arithmetic::div_mod::lemma_div_denominator(v as int, 128, pow2(k) as int);
        assert(pow2(7 + k) == 128 * pow2(k));
        assert(e[e.len() - 1] == (v / 128) / pow2(k));
    }
}

/// The encoding of `v` takes at most `k` bytes when `v < 2^(7 k)`.
pub proof fn lemma_varint_encode_len(v: nat, k: nat)
    requires
        k >= 1,
        v < pow2(7 * k),
    ensures
        varint_encode(v).len() <= k,
    decreases v,
{
    lemma2_to64();
    if v >= 128 {
        if k == 1 {
            assert(false);
        }
        let m = (k - 1) as nat;
        lemma_pow2_adds(7, 7 * m);
        assert(7 * k == 7 + 7 * m);
        lemma_pow2_pos(7 * m);
        vstd::arithmetic::div_mod::lemma_multiply_divide_lt(v as int, 128, pow2(7 * m) as int);
        lemma_varint_encode_len(v / 128, m);
    }
}

/// The encoding of `v` takes more than `m` bytes when `v >= 2^(7 m)`.
pub proof fn lemma_varint_encode_len_lower(v: nat, m: nat)
    requires
        v >= pow2(7 * m),
    ensures
        varint_encode(v).len() >= m + 1,
    decreases m,
{
    lemma_varint_encode_value(v, Seq::empty());
    if m > 0 {
        let k = (m - 1) as nat;
        lemma2_to64();
        lemma_pow2_adds(7, 7 * k);
        assert(7 * m == 7 + 7 * k);
        lemma_pow2_pos(7 * k);
        assert(v >= 128 * pow2(7 * k));
        vstd::arithmetic::div_mod::lemma_div_is_ordered((128 * pow2(7 * k)) as int, v as int, 128);
        vstd::arithmetic::div_mod::lemma_div_multiples_vanish(pow2(7 * k) as int, 128);
        lemma_varint_encode_len_lower(v / 128, k);
    }
}

/// Reading the encoding of `v` (followed by anything) gives back `v`, as long as `v`
/// fits the width: `v < (last_max + 1) * 2^(7 (max_len - 1))`.
pub proof fn lemma_varint_read_encode(v: nat, rest: Seq<u8>, max_len: nat, last_max: nat)
    requires
        max_len >= 1,
        last_max < 128,
        v < (last_max + 1) * pow2((7 * (max_len - 1)) as nat),
    ensures
        varint_read(varint_encode(v) + rest, max_len, last_max) == (VarintRead::Value {
            value: v,
            len: varint_encode(v).len(),
        }),
{
    let e = varint_encode(v);
    let s = e + rest;
    lemma_varint_encode_bytes(v);
    lemma_varint_encode_value(v, rest);
    let m = (max_len - 1) as nat;
    let p = pow2((7 * m) as nat);
    lemma_pow2_pos(7 * m);
    lemma2_to64();
    lemma_mul_inequality(last_max as int + 1, 128, p as int);
    lemma_pow2_adds(7 * m, 7);
    assert(7 * max_len == 7 * m + 7);
    lemma_varint_encode_len(v, max_len);
    if e.len() == max_len {
        // the last byte is v / p, which is at most last_max
        lemma_mul_is_commutative(p as int, last_max as int + 1);
        vstd::arithmetic::div_mod::lemma_multiply_divide_lt(v as int, p as int, last_max as int + 1);
    }
    lemma_varint_read_skips(s, 0, (e.len() - 1) as nat, max_len, last_max);
}

/// Bytes carrying the continuation bit are skipped over when looking for the end.
pub proof fn lemma_varint_read_skips(s: Seq<u8>, i: nat, k: nat, max_len: nat, last_max: nat)
    requires
        i <= k <= max_len,
        k <= s.len(),
        forall|j: int| i <= j < k ==> #[trigger] s[j] >= 128,
    ensures
        varint_read_from(s, i, max_len, last_max) == varint_read_from(s, k, max_len, last_max),
    decreases k - i,
{
    if i < k {
        lemma_varint_read_skips(s, i + 1, k, max_len, last_max);
    }
}

// ---------------------------------------------------------------------------
// Sizes
// ---------------------------------------------------------------------------

/// The number of bytes a varint of type `T` may take.
pub open spec fn varint_max_spec<T>() -> nat {
    varint_len_for_bits(vstd::layout::size_of::<T>() * 8)
}

/// Returns the maximum number of bytes required to encode T.
pub fn varint_max<T: Sized>() -> (r: usize)
    requires
        vstd::layout::size_of::<T>() * 8 + 6 <= usize::MAX,
    ensures
        r == varint_max_spec::<T>(),
{
    let bits_per_byte: usize = 8;
    let bits_per_varint_byte: usize = 7;
    // How many data bits do we need for this type?
    let bits = core::mem::size_of::<T>() * bits_per_byte;
    // We add (bits_per_varint_byte - 1), to ensure any integer divisions
    // with a remainder will always add exactly one full byte, but
    // an evenly divided number of bits will be the same
    let roundup_bits = bits + (bits_per_varint_byte - 1);
    // Apply division, using normal "round down" integer division
    roundup_bits / bits_per_varint_byte
}

/// The maximum value stored in the last encoded byte of a varint of type `T`.
pub open spec fn max_of_last_byte_spec<T>() -> nat {
    last_byte_max_for_bits(vstd::layout::size_of::<T>() * 8)
}

/// Returns the maximum value stored in the last encoded byte.
pub fn max_of_last_byte<T: Sized>() -> (r: u8)
    requires
        vstd::layout::size_of::<T>() * 8 <= usize::MAX,
    ensures
        r == max_of_last_byte_spec::<T>(),
{
    let max_bits = core::mem::size_of::<T>() * 8;
    let extra_bits = max_bits % 7;
    proof {
        lemma_pow2_small(extra_bits as nat);
    }
    assert(1u8 << (extra_bits as u8) == pow2(extra_bits as nat)) by {
        vstd::bits::lemma_u8_shl_is_mul(1u8, extra_bits as u8);
    }
    (1u8 << (extra_bits as u8)) - 1
}

/// Powers of two below 2^7.
proof fn lemma_pow2_small(e: nat)
    requires
        e < 7,
    ensures
        pow2(e) <= 64,
        pow2(e) >= 1,
{
    lemma2_to64();
}


// ---------------------------------------------------------------------------
// Encoding
// ---------------------------------------------------------------------------

/// The low byte of a `u16`, and the byte a varint holds for it.
proof fn lemma_low_byte_u16(value: u16)
    by (bit_vector)
    ensures
        value & 0xFF <= 255,
        value < 128 ==> value & 0xFF == value,
        ((value & 0xFF) as u8 | 0x80u8) == ((value % 128) + 128) as u8,
        value >> 7 == value / 128,
{
}

/// The low byte of a `u32`, and the byte a varint holds for it.
proof fn lemma_low_byte_u32(value: u32)
    by (bit_vector)
    ensures
        value & 0xFF <= 255,
        value < 128 ==> value & 0xFF == value,
        ((value & 0xFF) as u8 | 0x80u8) == ((value % 128) + 128) as u8,
        value >> 7 == value / 128,
{
}

/// The low byte of a `u64`, and the byte a varint holds for it.
proof fn lemma_low_byte_u64(value: u64)
    by (bit_vector)
    ensures
        value & 0xFF <= 255,
        value < 128 ==> value & 0xFF == value,
        ((value & 0xFF) as u8 | 0x80u8) == ((value % 128) + 128) as u8,
        value >> 7 == value / 128,
{
}

/// The low byte of a `u128`, and the byte a varint holds for it.
proof fn lemma_low_byte_u128(value: u128)
    by (bit_vector)
    ensures
        value & 0xFF <= 255,
        value < 128 ==> value & 0xFF == value,
        ((value & 0xFF) as u8 | 0x80u8) == ((value % 128) + 128) as u8,
        value >> 7 == value / 128,
{
}

/// The low byte of a `usize`, and the byte a varint holds for it.
proof fn lemma_low_byte_usize(value: usize)
    by (bit_vector)
    ensures
        value & 0xFF <= 255,
        value < 128 ==> value & 0xFF == value,
        ((value & 0xFF) as u8 | 0x80u8) == ((value % 128) + 128) as u8,
        value >> 7 == value / 128,
{
}

/// Encode a `varint(u16)` into `out`, returning the number of leading bytes of `out`
/// that hold the encoding.
pub fn varint_u16(n: u16, out: &mut [u8; 3]) -> (used: usize)
    ensures
        used == varint_encode(n as nat).len(),
        used <= 3,
        final(out)@.take(used as int) == varint_encode(n as nat),
        final(out)@.skip(used as int) == old(out)@.skip(used as int),
{
    let mut value = n;
    let mut i: usize = 0;
    proof {
        lemma2_to64();
        lemma_varint_encode_len(n as nat, 3);
    }
    while i < 3
        invariant
            i <= 3,
            out@.take(i as int) + varint_encode(value as nat) == varint_encode(n as nat),
            i + varint_encode(value as nat).len() <= 3,
            forall|j: int| i <= j < 3 ==> out@[j] == old(out)@[j],
        decreases 3 - i,
    {
        proof {
            lemma_varint_encode_value(value as nat, seq![]);
        }
        let ghost before = out@;
        proof {
            lemma_low_byte_u16(value);
        }
        out[i] = (value & 0xFF) as u8;
        if value < 128 {
            assert(out@.take(i + 1) == before.take(i as int) + varint_encode(value as nat));
            assert(out@.skip(i + 1) == old(out)@.skip(i + 1));
            return i + 1;
        }
        let b = out[i] | 0x80;
        out[i] = b;
        let ghost old_value = value;
        value >>= 7;
        assert(varint_encode(old_value as nat) == seq![b] + varint_encode(value as nat));
        assert(out@.take(i + 1) == before.take(i as int).push(b));
        assert(out@.take(i + 1) + varint_encode(value as nat) == before.take(i as int)
            + varint_encode(old_value as nat));
        i += 1;
    }
    proof {
        lemma_varint_encode_value(value as nat, seq![]);
    }
    3
}

/// Encode a `varint(u32)` into `out`, returning the number of leading bytes of `out`
/// that hold the encoding.
pub fn varint_u32(n: u32, out: &mut [u8; 5]) -> (used: usize)
    ensures
        used == varint_encode(n as nat).len(),
        used <= 5,
        final(out)@.take(used as int) == varint_encode(n as nat),
        final(out)@.skip(used as int) == old(out)@.skip(used as int),
{
    let mut value = n;
    let mut i: usize = 0;
    proof {
        lemma2_to64();
        vstd::arithmetic::power2::lemma_pow2_strictly_increases(32, 35);
        lemma_varint_encode_len(n as nat, 5);
    }
    while i < 5
        invariant
            i <= 5,
            out@.take(i as int) + varint_encode(value as nat) == varint_encode(n as nat),
            i + varint_encode(value as nat).len() <= 5,
            forall|j: int| i <= j < 5 ==> out@[j] == old(out)@[j],
        decreases 5 - i,
    {
        proof {
            lemma_varint_encode_value(value as nat, seq![]);
        }
        let ghost before = out@;
        proof {
            lemma_low_byte_u32(value);
        }
        out[i] = (value & 0xFF) as u8;
        if value < 128 {
            assert(out@.take(i + 1) == before.take(i as int) + varint_encode(value as nat));
            assert(out@.skip(i + 1) == old(out)@.skip(i + 1));
            return i + 1;
        }
        let b = out[i] | 0x80;
        out[i] = b;
        let ghost old_value = value;
        value >>= 7;
        assert(varint_encode(old_value as nat) == seq![b] + varint_encode(value as nat));
        assert(out@.take(i + 1) == before.take(i as int).push(b));
        assert(out@.take(i + 1) + varint_encode(value as nat) == before.take(i as int)
            + varint_encode(old_value as nat));
        i += 1;
    }
    proof {
        lemma_varint_encode_value(value as nat, seq![]);
    }
    5
}

/// Encode a `varint(u64)` into `out`, returning the number of leading bytes of `out`
/// that hold the encoding.
pub fn varint_u64(n: u64, out: &mut [u8; 10]) -> (used: usize)
    ensures
        used == varint_encode(n as nat).len(),
        used <= 10,
        final(out)@.take(used as int) == varint_encode(n as nat),
        final(out)@.skip(used as int) == old(out)@.skip(used as int),
{
    let mut value = n;
    let mut i: usize = 0;
    proof {
        lemma2_to64();
        vstd::arithmetic::power2::lemma_pow2_strictly_increases(64, 70);
        lemma_varint_encode_len(n as nat, 10);
    }
    while i < 10
        invariant
            i <= 10,
            out@.take(i as int) + varint_encode(value as nat) == varint_encode(n as nat),
            i + varint_encode(value as nat).len() <= 10,
            forall|j: int| i <= j < 10 ==> out@[j] == old(out)@[j],
        decreases 10 - i,
    {
        proof {
            lemma_varint_encode_value(value as nat, seq![]);
        }
        let ghost before = out@;
        proof {
            lemma_low_byte_u64(value);
        }
        out[i] = (value & 0xFF) as u8;
        if value < 128 {
            assert(out@.take(i + 1) == before.take(i as int) + varint_encode(value as nat));
            assert(out@.skip(i + 1) == old(out)@.skip(i + 1));
            return i + 1;
        }
        let b = out[i] | 0x80;
        out[i] = b;
        let ghost old_value = value;
        value >>= 7;
        assert(varint_encode(old_value as nat) == seq![b] + varint_encode(value as nat));
        assert(out@.take(i + 1) == before.take(i as int).push(b));
        assert(out@.take(i + 1) + varint_encode(value as nat) == before.take(i as int)
            + varint_encode(old_value as nat));
        i += 1;
    }
    proof {
        lemma_varint_encode_value(value as nat, seq![]);
    }
    10
}

/// Encode a `varint(u128)` into `out`, returning the number of leading bytes of `out`
/// that hold the encoding.
pub fn varint_u128(n: u128, out: &mut [u8; 19]) -> (used: usize)
    ensures
        used == varint_encode(n as nat).len(),
        used <= 19,
        final(out)@.take(used as int) == varint_encode(n as nat),
        final(out)@.skip(used as int) == old(out)@.skip(used as int),
{
    let mut value = n;
    let mut i: usize = 0;
    proof {
        lemma2_to64();
        lemma_pow2_adds(64, 64);
        vstd::arithmetic::power2::lemma_pow2_strictly_increases(128, 133);
        lemma_varint_encode_len(n as nat, 19);
    }
    while i < 19
        invariant
            i <= 19,
            out@.take(i as int) + varint_encode(value as nat) == varint_encode(n as nat),
            i + varint_encode(value as nat).len() <= 19,
            forall|j: int| i <= j < 19 ==> out@[j] == old(out)@[j],
        decreases 19 - i,
    {
        proof {
            lemma_varint_encode_value(value as nat, seq![]);
        }
        let ghost before = out@;
        proof {
            lemma_low_byte_u128(value);
        }
        out[i] = (value & 0xFF) as u8;
        if value < 128 {
            assert(out@.take(i + 1) == before.take(i as int) + varint_encode(value as nat));
            assert(out@.skip(i + 1) == old(out)@.skip(i + 1));
            return i + 1;
        }
        let b = out[i] | 0x80;
        out[i] = b;
        let ghost old_value = value;
        value >>= 7;
        assert(varint_encode(old_value as nat) == seq![b] + varint_encode(value as nat));
        assert(out@.take(i + 1) == before.take(i as int).push(b));
        assert(out@.take(i + 1) + varint_encode(value as nat) == before.take(i as int)
            + varint_encode(old_value as nat));
        i += 1;
    }
    proof {
        lemma_varint_encode_value(value as nat, seq![]);
    }
    19
}

/// Encode a `varint(usize)` into `out` (large enough for a 64-bit `usize`), returning the number of leading bytes of `out`
/// that hold the encoding.
pub fn varint_usize(n: usize, out: &mut [u8; 10]) -> (used: usize)
    ensures
        used == varint_encode(n as nat).len(),
        used <= 10,
        final(out)@.take(used as int) == varint_encode(n as nat),
        final(out)@.skip(used as int) == old(out)@.skip(used as int),
{
    let mut value = n;
    let mut i: usize = 0;
    proof {
        lemma2_to64();
        vstd::arithmetic::power2::lemma_pow2_strictly_increases(64, 70);
        lemma_varint_encode_len(n as nat, 10);
    }
    while i < 10
        invariant
            i <= 10,
            out@.take(i as int) + varint_encode(value as nat) == varint_encode(n as nat),
            i + varint_encode(value as nat).len() <= 10,
            forall|j: int| i <= j < 10 ==> out@[j] == old(out)@[j],
        decreases 10 - i,
    {
        proof {
            lemma_varint_encode_value(value as nat, seq![]);
        }
        let ghost before = out@;
        proof {
            lemma_low_byte_usize(value);
        }
        out[i] = (value & 0xFF) as u8;
        if value < 128 {
            assert(out@.take(i + 1) == before.take(i as int) + varint_encode(value as nat));
            assert(out@.skip(i + 1) == old(out)@.skip(i + 1));
            return i + 1;
        }
        let b = out[i] | 0x80;
        out[i] = b;
        let ghost old_value = value;
        value >>= 7;
        assert(varint_encode(old_value as nat) == seq![b] + varint_encode(value as nat));
        assert(out@.take(i + 1) == before.take(i as int).push(b));
        assert(out@.take(i + 1) + varint_encode(value as nat) == before.take(i as int)
            + varint_encode(old_value as nat));
        i += 1;
    }
    proof {
        lemma_varint_encode_value(value as nat, seq![]);
    }
    10
}


// ---------------------------------------------------------------------------
// Zig-zag
// ---------------------------------------------------------------------------

/// The zig-zag mapping of the integers onto the naturals:
/// 0, -1, 1, -2, 2, ... become 0, 1, 2, 3, 4, ...
pub open spec fn zigzag(n: int) -> nat {
    if n >= 0 {
        (2 * n) as nat
    } else {
        (-2 * n - 1) as nat
    }
}

/// The inverse of [`zigzag`].
pub open spec fn unzigzag(u: nat) -> int {
    if u % 2 == 0 {
        (u / 2) as int
    } else {
        -((u + 1) / 2) as int
    }
}

/// Zig-zag and its inverse undo each other, in both orders.
pub proof fn lemma_zigzag_inverse(n: int, u: nat)
    ensures
        unzigzag(zigzag(n)) == n,
        zigzag(unzigzag(u)) == u,
{
}

/// Convert an `i16` into its zig-zag encoded `u16` counterpart
pub fn zig_zag_i16(n: i16) -> (r: u16)
    ensures
        r == zigzag(n as int),
{
    assert(((n << 1u32) ^ (n >> 15u32)) as u16 == (if n >= 0 { (2 * n) as u16 } else { (-2 * n - 1) as u16 })) by (bit_vector);
    ((n << 1u32) ^ (n >> 15u32)) as u16
}

/// Convert a zig-zag encoded `i16` from its `u16` counterpart
pub fn de_zig_zag_i16(n: u16) -> (r: i16)
    ensures
        r == unzigzag(n as nat),
{
    assert((((n >> 1u32) as i16) ^ ((-((n & 1u16) as i16)) as i16)) == (if n % 2 == 0 { (n / 2) as i16 } else { (-((n as int + 1) / 2)) as i16 })) by (bit_vector);
    assert((n & 0b1u16) <= 1 && (n >> 1u32) <= 0x7fff) by (bit_vector);
    ((n >> 1u32) as i16) ^ (-((n & 0b1u16) as i16))
}

/// Convert an `i32` into its zig-zag encoded `u32` counterpart
pub fn zig_zag_i32(n: i32) -> (r: u32)
    ensures
        r == zigzag(n as int),
{
    assert(((n << 1u32) ^ (n >> 31u32)) as u32 == (if n >= 0 { (2 * n) as u32 } else { (-2 * n - 1) as u32 })) by (bit_vector);
    ((n << 1u32) ^ (n >> 31u32)) as u32
}

/// Convert a zig-zag encoded `i32` from its `u32` counterpart
pub fn de_zig_zag_i32(n: u32) -> (r: i32)
    ensures
        r == unzigzag(n as nat),
{
    assert((((n >> 1u32) as i32) ^ ((-((n & 1u32) as i32)) as i32)) == (if n % 2 == 0 { (n / 2) as i32 } else { (-((n as int + 1) / 2)) as i32 })) by (bit_vector);
    assert((n & 0b1u32) <= 1 && (n >> 1u32) <= 0x7fff_ffff) by (bit_vector);
    ((n >> 1u32) as i32) ^ (-((n & 0b1u32) as i32))
}

/// Convert an `i64` into its zig-zag encoded `u64` counterpart
pub fn zig_zag_i64(n: i64) -> (r: u64)
    ensures
        r == zigzag(n as int),
{
    assert(((n << 1u32) ^ (n >> 63u32)) as u64 == (if n >= 0 { (2 * n) as u64 } else { (-2 * n - 1) as u64 })) by (bit_vector);
    ((n << 1u32) ^ (n >> 63u32)) as u64
}

/// Convert a zig-zag encoded `i64` from its `u64` counterpart
pub fn de_zig_zag_i64(n: u64) -> (r: i64)
    ensures
        r == unzigzag(n as nat),
{
    assert((((n >> 1u32) as i64) ^ ((-((n & 1u64) as i64)) as i64)) == (if n % 2 == 0 { (n / 2) as i64 } else { (-((n as int + 1) / 2)) as i64 })) by (bit_vector);
    assert((n & 0b1u64) <= 1 && (n >> 1u32) <= 0x7fff_ffff_ffff_ffff) by (bit_vector);
    ((n >> 1u32) as i64) ^ (-((n & 0b1u64) as i64))
}

/// Convert an `i128` into its zig-zag encoded `u128` counterpart
pub fn zig_zag_i128(n: i128) -> (r: u128)
    ensures
        r == zigzag(n as int),
{
    assert(((n << 1u32) ^ (n >> 127u32)) as u128 == (if n >= 0 { (2 * n) as u128 } else { (-2 * n - 1) as u128 })) by (bit_vector);
    ((n << 1u32) ^ (n >> 127u32)) as u128
}

/// Convert a zig-zag encoded `i128` from its `u128` counterpart
pub fn de_zig_zag_i128(n: u128) -> (r: i128)
    ensures
        r == unzigzag(n as nat),
{
    assert((((n >> 1u32) as i128) ^ ((-((n & 1u128) as i128)) as i128)) == (if n % 2 == 0 { (n / 2) as i128 } else { (-((n as int + 1) / 2)) as i128 })) by (bit_vector);
    assert((n & 0b1u128) <= 1 && (n >> 1u32) <= 0x7fff_ffff_ffff_ffff_ffff_ffff_ffff_ffff) by (bit_vector);
    ((n >> 1u32) as i128) ^ (-((n & 0b1u128) as i128))
}


// ---------------------------------------------------------------------------
// Accumulating seven-bit groups with shifts
// ---------------------------------------------------------------------------

/// Shifting a `u128` left multiplies it by a power of two, when nothing overflows.
pub proof fn lemma_u128_shl_is_mul(x: u128, shift: u128)
    requires
        shift < 128,
        x * pow2(shift as nat) <= u128::MAX,
    ensures
        x << shift == x * pow2(shift as nat),
    decreases shift,
{
    if shift == 0 {
        assert(x << 0u128 == x) by (bit_vector);
        lemma2_to64();
    } else {
        let s1 = (shift - 1) as u128;
        vstd::arithmetic::power2::lemma_pow2_unfold(shift as nat);
        let p1 = pow2(s1 as nat) as int;
        lemma_mul_is_associative(x as int, 2, p1);
        lemma_mul_is_commutative(x as int, 2);
        lemma_mul_is_associative(2, x as int, p1);
        lemma_u128_shl_is_mul(x, s1);
        let y = x << s1;
        assert(y <= 0x7fff_ffff_ffff_ffff_ffff_ffff_ffff_ffff);
        assert(x << shift == (x << s1) * 2) by (bit_vector)
            requires
                shift == s1 + 1,
                shift < 128,
                (x << s1) <= 0x7fff_ffff_ffff_ffff_ffff_ffff_ffff_ffff,
        ;
    }
}

/// A seven-bit group placed at byte `i` of a varint fits a `bits` wide integer, as long
/// as it is not the last possible byte or is no larger than that byte may be.
pub proof fn lemma_group_fits(group: nat, i: nat, max_len: nat, last_max: nat, bits: nat)
    requires
        group <= 127,
        i < max_len,
        i + 1 < max_len || group <= last_max,
        7 * (max_len - 1) <= bits,
        (last_max + 1) * pow2((7 * (max_len - 1)) as nat) == pow2(bits),
    ensures
        group * pow2(7 * i) < pow2(bits),
{
    let p = pow2(7 * i) as int;
    lemma_pow2_pos(7 * i);
    if i + 1 < max_len {
        lemma_mul_inequality(group as int, 127, p);
        lemma_pow2_adds(7 * i, 7);
        lemma2_to64();
        assert(7 * i + 7 <= bits);
        if 7 * i + 7 < bits {
            vstd::arithmetic::power2::lemma_pow2_strictly_increases(7 * i + 7, bits);
        }
    } else {
        assert(7 * i == 7 * (max_len - 1));
        lemma_mul_inequality(group as int, last_max as int, p);
        vstd::arithmetic::mul::lemma_mul_is_distributive_add_other_way(p, last_max as int, 1);
    }
}

/// Or-ing a group shifted above the bits of `acc` into `acc` adds it.
pub proof fn lemma_or_shl_u16(acc: u16, group: u16, shift: u16)
    requires
        shift < 16,
        acc < pow2(shift as nat),
        group * pow2(shift as nat) <= u16::MAX,
    ensures
        acc | (group << shift) == acc + group * pow2(shift as nat),
{
    vstd::bits::lemma_u16_shl_is_mul(group, shift);
    lemma_pow2_pos(shift as nat);
    vstd::bits::lemma_u16_pow2_no_overflow(shift as nat);
    vstd::bits::lemma_u16_shl_is_mul(1u16, shift);
    assert(acc | (group << shift) == acc + (group << shift)) by (bit_vector)
        requires
            shift < 16,
            acc < (1u16 << shift),
    ;
}

/// Or-ing a group shifted above the bits of `acc` into `acc` adds it.
pub proof fn lemma_or_shl_u32(acc: u32, group: u32, shift: u32)
    requires
        shift < 32,
        acc < pow2(shift as nat),
        group * pow2(shift as nat) <= u32::MAX,
    ensures
        acc | (group << shift) == acc + group * pow2(shift as nat),
{
    vstd::bits::lemma_u32_shl_is_mul(group, shift);
    lemma_pow2_pos(shift as nat);
    vstd::bits::lemma_u32_pow2_no_overflow(shift as nat);
    vstd::bits::lemma_u32_shl_is_mul(1u32, shift);
    assert(acc | (group << shift) == acc + (group << shift)) by (bit_vector)
        requires
            shift < 32,
            acc < (1u32 << shift),
    ;
}

/// Or-ing a group shifted above the bits of `acc` into `acc` adds it.
pub proof fn lemma_or_shl_u64(acc: u64, group: u64, shift: u64)
    requires
        shift < 64,
        acc < pow2(shift as nat),
        group * pow2(shift as nat) <= u64::MAX,
    ensures
        acc | (group << shift) == acc + group * pow2(shift as nat),
{
    vstd::bits::lemma_u64_shl_is_mul(group, shift);
    lemma_pow2_pos(shift as nat);
    vstd::bits::lemma_u64_pow2_no_overflow(shift as nat);
    vstd::bits::lemma_u64_shl_is_mul(1u64, shift);
    assert(acc | (group << shift) == acc + (group << shift)) by (bit_vector)
        requires
            shift < 64,
            acc < (1u64 << shift),
    ;
}

/// Or-ing a group shifted above the bits of `acc` into `acc` adds it.
pub proof fn lemma_or_shl_u128(acc: u128, group: u128, shift: u128)
    requires
        shift < 128,
        acc < pow2(shift as nat),
        group * pow2(shift as nat) <= u128::MAX,
    ensures
        acc | (group << shift) == acc + group * pow2(shift as nat),
{
    lemma_u128_shl_is_mul(group, shift);
    lemma_pow2_pos(shift as nat);
    lemma2_to64();
    lemma_pow2_adds(64, 64);
    if shift < 128 {
        vstd::arithmetic::power2::lemma_pow2_strictly_increases(shift as nat, 128);
    }
    lemma_u128_shl_is_mul(1u128, shift);
    assert(acc | (group << shift) == acc + (group << shift)) by (bit_vector)
        requires
            shift < 128,
            acc < (1u128 << shift),
    ;
}

} // verus!
