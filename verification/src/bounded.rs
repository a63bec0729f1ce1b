//! Bounded collections
//!
//! These items have schemas that include bounded information: a string or byte sequence of
//! at most `N` bytes.
use crate::max_len::{bounded_bytes_schema, bounded_string_schema, bytes_schema, string_schema};
use crate::schema::DataModelType;
use crate::Schema;
use crate::schema::shape::dmt_view;
use crate::schema::view::TypeView;
use vstd::prelude::*;
use vstd::string::StringSliceAdditionalSpecFns;

verus! {

/// Provided item exceeded the bounds of this type
#[derive(Debug, PartialEq, Eq, Structural, Clone, Copy)]
pub struct TooLong;

/// Bounded version of `&str`
#[derive(PartialEq, Eq, Clone, Copy)]
pub struct BoundedStr<'a, const N: usize> {
    inner: &'a str,
}

impl<'a, const N: usize> BoundedStr<'a, N> {
    /// The text held.
    pub closed spec fn text(&self) -> &'a str {
        self.inner
    }

    /// The text, when it is at most `N` bytes; [`TooLong`] otherwise.
    pub fn try_from(value: &'a str) -> (r: Result<Self, TooLong>)
        ensures
            value.spec_bytes().len() > N <==> r is Err,
            r matches Ok(s) ==> s.text() == value,
    {
        if value.as_bytes().len() > N {
            Err(TooLong)
        } else {
            Ok(Self { inner: value })
        }
    }

    /// The text held.
    pub fn as_ref(&self) -> (r: &'a str)
        ensures
            r == self.text(),
    {
        self.inner
    }

}

/// Bounded version of `&[u8]`
#[derive(PartialEq, Eq, Clone, Copy)]
pub struct BoundedBytes<'a, const N: usize> {
    inner: &'a [u8],
}

impl<'a, const N: usize> BoundedBytes<'a, N> {
    /// The bytes held.
    pub closed spec fn bytes(&self) -> Seq<u8> {
        self.inner@
    }

    /// The bytes, when they are at most `N`; [`TooLong`] otherwise.
    pub fn try_from(value: &'a [u8]) -> (r: Result<Self, TooLong>)
        ensures
            value@.len() > N <==> r is Err,
            r matches Ok(s) ==> s.bytes() == value@,
    {
        if value.len() > N {
            Err(TooLong)
        } else {
            Ok(Self { inner: value })
        }
    }

    /// The bytes held.
    pub fn as_ref(&self) -> (r: &'a [u8])
        ensures
            r@ == self.bytes(),
    {
        self.inner
    }

}

impl<'a, const N: usize> Schema for BoundedStr<'a, N> {
    /// The schema: a string of at most `N` bytes.
    open spec fn schema_view() -> TypeView {
        dmt_view(bounded_string_schema(N))
    }

    fn schema() -> (r: DataModelType) {
        string_schema(N)
    }
}

impl<'a, const N: usize> Schema for BoundedBytes<'a, N> {
    /// The schema: a sequence of at most `N` bytes.
    open spec fn schema_view() -> TypeView {
        dmt_view(bounded_bytes_schema(N))
    }

    fn schema() -> (r: DataModelType) {
        bytes_schema(N)
    }
}

} // verus!
