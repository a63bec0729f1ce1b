//! The postcard wire format: varints, primitive encoders and decoders, and
//! schemas describing encoded data.
pub mod varint;
pub mod de;
pub mod ser;
pub mod schema;
pub mod key;
pub mod max_len;
pub mod bounded;
pub mod dynamic;
pub mod impls;

use schema::view::TypeView;
use schema::DataModelType;
use vstd::prelude::*;

verus! {

/// A type whose postcard encoding is described by a schema.
pub trait Schema {
    /// The shape of the schema of this type: its view, with names as sequences of
    /// characters.
    spec fn schema_view() -> TypeView;

    /// The schema of this type.
    fn schema() -> (r: DataModelType)
        ensures
            schema::shape::dmt_view(r) == Self::schema_view(),
    ;
}

} // verus!
