//! MaxLen collections
//!
//! These items have schemas that include bounded information: a string or byte sequence of
//! at most `N` bytes.
use crate::schema::{max_size_of, varint_size, DataModelType};
use crate::Schema;
use crate::schema::shape::dmt_view;
use crate::schema::view::TypeView;
use vstd::prelude::*;
use vstd::string::StringSliceAdditionalSpecFns;

verus! {

/// Provided item exceeded the bounds of this type
#[derive(Debug, PartialEq, Eq, Structural, Clone, Copy)]
pub struct TooLong;

/// The schema of a string of at most `n` bytes.
pub open spec fn bounded_string_schema(n: usize) -> DataModelType {
    DataModelType::String { max_len: Some(n) }
}

/// The schema of a byte sequence of at most `n` bytes.
pub open spec fn bounded_bytes_schema(n: usize) -> DataModelType {
    DataModelType::SeqOf { element: Box::new(DataModelType::U8), max_len: Some(n) }
}

/// The schema of a string of at most `n` bytes.
pub fn string_schema(n: usize) -> (r: DataModelType)
    ensures
        r == bounded_string_schema(n),
{
    DataModelType::String { max_len: Some(n) }
}

/// The schema of a byte sequence of at most `n` bytes.
pub fn bytes_schema(n: usize) -> (r: DataModelType)
    ensures
        r == bounded_bytes_schema(n),
{
    DataModelType::SeqOf { element: Box::new(DataModelType::U8), max_len: Some(n) }
}

/// Law: a value of a bounded string or byte sequence schema takes at most the length of its
/// bound as a varint, then the bound in bytes.
pub proof fn law_bounded_max_size(n: usize)
    ensures
        max_size_of(bounded_string_schema(n)) == Some(varint_size(n as nat) + n as nat),
        max_size_of(bounded_bytes_schema(n)) == Some(varint_size(n as nat) + n as nat),
{
    let u8_schema = DataModelType::U8;
    assert(max_size_of(u8_schema) == Some(1nat));
}

/// MaxLen version of `&str`
#[derive(PartialEq, Eq, Clone, Copy)]
pub struct MaxLenStr<'a, const N: usize> {
    inner: &'a str,
}

impl<'a, const N: usize> MaxLenStr<'a, N> {
    /// The text held.
    pub closed spec fn text(&self) -> &'a str {
        self.inner
    }

    /// The text, when it is at most `N` bytes; [`TooLong`] otherwise.
    pub fn try_from(value: &'a str) -> (r: Result<Self, TooLong>)
        ensures
            value.spec_bytes().len() > N <==> r is Err,
            r matches Ok(s) ==> s.text() == value,
    {
        if value.as_bytes().len() > N {
            Err(TooLong)
        } else {
            Ok(Self { inner: value })
        }
    }

    /// The text held.
    pub fn as_ref(&self) -> (r: &'a str)
        ensures
            r == self.text(),
    {
        self.inner
    }

}

/// MaxLen version of `&[u8]`
#[derive(PartialEq, Eq, Clone, Copy)]
pub struct MaxLenByteSlice<'a, const N: usize> {
    inner: &'a [u8],
}

impl<'a, const N: usize> MaxLenByteSlice<'a, N> {
    /// The bytes held.
    pub closed spec fn bytes(&self) -> Seq<u8> {
        self.inner@
    }

    /// The bytes, when they are at most `N`; [`TooLong`] otherwise.
    pub fn try_from(value: &'a [u8]) -> (r: Result<Self, TooLong>)
        ensures
            value@.len() > N <==> r is Err,
            r matches Ok(s) ==> s.bytes() == value@,
    {
        if value.len() > N {
            Err(TooLong)
        } else {
            Ok(Self { inner: value })
        }
    }

    /// The bytes held.
    pub fn as_ref(&self) -> (r: &'a [u8])
        ensures
            r@ == self.bytes(),
    {
        self.inner
    }

}

/// MaxLen version of `String`
pub struct MaxLenString<const N: usize> {
    inner: String,
}

impl<const N: usize> MaxLenString<N> {
    /// The text held.
    pub closed spec fn text(&self) -> Seq<char> {
        self.inner@
    }

    /// A copy of the text, when it is at most `N` bytes; [`TooLong`] otherwise.
    pub fn try_from(value: &str) -> (r: Result<Self, TooLong>)
        ensures
            value.spec_bytes().len() > N <==> r is Err,
            r matches Ok(s) ==> s.text() == value@,
    {
        if value.as_bytes().len() > N {
            Err(TooLong)
        } else {
            Ok(Self { inner: value.to_owned() })
        }
    }

    /// The text, when it is at most `N` bytes; [`TooLong`] otherwise.
    pub fn try_from_string(value: String) -> (r: Result<Self, TooLong>)
        ensures
            vstd::utf8::encode_utf8(value@).len() > N <==> r is Err,
            r matches Ok(s) ==> s.text() == value@,
    {
        if value.as_str().as_bytes().len() > N {
            Err(TooLong)
        } else {
            Ok(Self { inner: value })
        }
    }

    /// The text held.
    pub fn as_ref(&self) -> (r: &str)
        ensures
            r@ == self.text(),
    {
        self.inner.as_str()
    }

    /// The text held, taken out.
    pub fn into_inner(self) -> (r: String)
        ensures
            r@ == self.text(),
    {
        self.inner
    }

}

/// MaxLen version of `Box<[u8]>`
pub struct MaxLenBytes<const N: usize> {
    inner: Vec<u8>,
}

/// A copy of the bytes of `value`.
fn copy_bytes(value: &[u8]) -> (r: Vec<u8>)
    ensures
        r@ == value@,
{
    let mut out: Vec<u8> = Vec::new();
    let mut i: usize = 0;
    while i < value.len()
        invariant
            i <= value@.len(),
            out@ == value@.take(i as int),
        decreases value@.len() - i,
    {
        out.push(value[i]);
        assert(value@.take(i + 1) =~= value@.take(i as int).push(value@[i as int]));
        i += 1;
    }
    assert(value@.take(i as int) =~= value@);
    out
}

impl<const N: usize> MaxLenBytes<N> {
    /// The bytes held.
    pub closed spec fn bytes(&self) -> Seq<u8> {
        self.inner@
    }

    /// A copy of the bytes, when they are at most `N`; [`TooLong`] otherwise.
    pub fn try_from(value: &[u8]) -> (r: Result<Self, TooLong>)
        ensures
            value@.len() > N <==> r is Err,
            r matches Ok(s) ==> s.bytes() == value@,
    {
        if value.len() > N {
            Err(TooLong)
        } else {
            Ok(Self { inner: copy_bytes(value) })
        }
    }

    /// A copy of the bytes of an array of `M` bytes, when `M` is at most `N`; [`TooLong`]
    /// otherwise.
    pub fn try_from_array<const M: usize>(value: &[u8; M]) -> (r: Result<Self, TooLong>)
        ensures
            M > N <==> r is Err,
            r matches Ok(s) ==> s.bytes() == value@,
    {
        if M > N {
            Err(TooLong)
        } else {
            Ok(Self { inner: copy_bytes(value.as_slice()) })
        }
    }

    /// The bytes held.
    pub fn as_ref(&self) -> (r: &[u8])
        ensures
            r@ == self.bytes(),
    {
        self.inner.as_slice()
    }

}

impl<'a, const N: usize> Schema for MaxLenStr<'a, N> {
    /// The schema: a string of at most `N` bytes.
    open spec fn schema_view() -> TypeView {
        dmt_view(bounded_string_schema(N))
    }

    fn schema() -> (r: DataModelType) {
        string_schema(N)
    }
}

impl<'a, const N: usize> Schema for MaxLenByteSlice<'a, N> {
    /// The schema: a sequence of at most `N` bytes.
    open spec fn schema_view() -> TypeView {
        dmt_view(bounded_bytes_schema(N))
    }

    fn schema() -> (r: DataModelType) {
        bytes_schema(N)
    }
}

impl<const N: usize> Schema for MaxLenString<N> {
    /// The schema: a string of at most `N` bytes.
    open spec fn schema_view() -> TypeView {
        dmt_view(bounded_string_schema(N))
    }

    fn schema() -> (r: DataModelType) {
        string_schema(N)
    }
}

impl<const N: usize> Schema for MaxLenBytes<N> {
    /// The schema: a sequence of at most `N` bytes.
    open spec fn schema_view() -> TypeView {
        dmt_view(bounded_bytes_schema(N))
    }

    fn schema() -> (r: DataModelType) {
        bytes_schema(N)
    }
}

} // verus!
