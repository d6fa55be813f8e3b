//! Error kinds produced while reading a bake directory.

use vstd::prelude::*;

verus! {

/// Everything that can go wrong while assembling a [`crate::bake_reader::geometry::Geometry`]
/// from a bake directory, or while querying it afterwards.
///
/// All assembly errors are fatal to the whole load: no partial store is ever
/// returned. `FrameOutOfRange` is query-local and leaves the store intact.
#[derive(Debug, Clone, Copy, PartialEq, Eq, Structural)]
pub enum MetaReadError {
    /// A file could not be opened or read, or a blob range reaches past the
    /// end of its blob file (a short read).
    Io,
    /// A frame metadata document is malformed or does not match the schema.
    Deserialize,
    /// The metadata document has no item under the expected identifier.
    ItemNotFound,
    /// A retained attribute name is absent from a frame's descriptor list.
    AttributeNotFound,
    /// A metadata file name has no parseable leading integer token.
    ParseIntError,
    /// An attribute declares an element type outside the supported table.
    UnsupportedAttributeType,
    /// A blob range's byte length is not a multiple of the element width.
    DecodeSizeError,
    /// A frame's mesh counts disagree with the counts established by an
    /// earlier frame, or a decoded array's length disagrees with the count
    /// of its domain.
    TopologyMismatch,
    /// Two metadata files claim the same frame index for the same attribute.
    DuplicateFrame,
    /// A point query asked for a sequence position beyond the frames held.
    FrameOutOfRange,
}

/// The mathematical value of a fallible result: the payload replaced by its
/// view, the error kept as it is.
pub open spec fn result_view<T: View>(r: Result<T, MetaReadError>) -> Result<T::V, MetaReadError> {
    match r {
        Ok(v) => Ok(v@),
        Err(e) => Err(e),
    }
}

impl MetaReadError {
    /// The fixed description of each error kind.
    pub open spec fn spec_message(self) -> Seq<char> {
        match self {
            MetaReadError::Io => "File read error"@,
            MetaReadError::Deserialize => "Deserializing error"@,
            MetaReadError::ItemNotFound => "Item not found"@,
            MetaReadError::AttributeNotFound => "Attribute not found"@,
            MetaReadError::ParseIntError => "Parsing Blob name error"@,
            MetaReadError::UnsupportedAttributeType => "Unsupported attribute type"@,
            MetaReadError::DecodeSizeError => "Blob size does not match attribute type"@,
            MetaReadError::TopologyMismatch => "Topology differs between frames"@,
            MetaReadError::DuplicateFrame => "Duplicate frame index for one attribute"@,
            MetaReadError::FrameOutOfRange => "Frame index out of range"@,
        }
    }

    /// A short human-readable description of the error.
    pub fn message(&self) -> (s: &'static str)
        ensures
            s@ == self.spec_message(),
    {
        match self {
            MetaReadError::Io => "File read error",
            MetaReadError::Deserialize => "Deserializing error",
            MetaReadError::ItemNotFound => "Item not found",
            MetaReadError::AttributeNotFound => "Attribute not found",
            MetaReadError::ParseIntError => "Parsing Blob name error",
            MetaReadError::UnsupportedAttributeType => "Unsupported attribute type",
            MetaReadError::DecodeSizeError => "Blob size does not match attribute type",
            MetaReadError::TopologyMismatch => "Topology differs between frames",
            MetaReadError::DuplicateFrame => "Duplicate frame index for one attribute",
            MetaReadError::FrameOutOfRange => "Frame index out of range",
        }
    }
}

} // verus!
