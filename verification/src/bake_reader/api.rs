//! The descriptor types a frame metadata document parses into.
//!
//! These live only as long as one frame file is being read: the assembler
//! consumes each descriptor right away by decoding the blob range it points
//! at, and keeps only the decoded result.

use vstd::prelude::*;

verus! {

/// The kind of item a bake file describes. Only meshes are read.
#[derive(Debug, Clone, Copy, PartialEq, Eq, Structural)]
pub enum ItemType {
    GEOMETRY,
}

/// The mesh element kind an attribute is defined over.
#[derive(Debug, Clone, Copy, PartialEq, Eq, Structural)]
pub enum Domain {
    POINT,
    EDGE,
    FACE,
    CORNER,
}

impl Domain {
    /// The name of each domain, as the metadata schema spells it.
    pub open spec fn spec_label(self) -> Seq<char> {
        match self {
            Domain::POINT => "POINT"@,
            Domain::EDGE => "EDGE"@,
            Domain::FACE => "FACE"@,
            Domain::CORNER => "CORNER"@,
        }
    }

    /// The schema spelling of this domain.
    pub fn label(&self) -> (s: &'static str)
        ensures
            s@ == self.spec_label(),
    {
        match self {
            Domain::POINT => "POINT",
            Domain::EDGE => "EDGE",
            Domain::FACE => "FACE",
            Domain::CORNER => "CORNER",
        }
    }
}

/// The element encoding of a blob range. These five encodings are the whole
/// supported table; a metadata document naming any other encoding is refused
/// with [`crate::errors::MetaReadError::UnsupportedAttributeType`].
#[allow(non_camel_case_types)]
#[derive(Debug, Clone, Copy, PartialEq, Eq, Structural)]
pub enum AttributeType {
    FLOAT,
    BOOLEAN,
    INT,
    FLOAT_VECTOR,
    INT32_2D,
}

impl AttributeType {
    /// The name of each encoding, as the metadata schema spells it.
    pub open spec fn spec_label(self) -> Seq<char> {
        match self {
            AttributeType::FLOAT => "FLOAT"@,
            AttributeType::BOOLEAN => "BOOLEAN"@,
            AttributeType::INT => "INT"@,
            AttributeType::FLOAT_VECTOR => "FLOAT_VECTOR"@,
            AttributeType::INT32_2D => "INT32_2D"@,
        }
    }

    /// The schema spelling of this encoding.
    pub fn label(&self) -> (s: &'static str)
        ensures
            s@ == self.spec_label(),
    {
        match self {
            AttributeType::FLOAT => "FLOAT",
            AttributeType::BOOLEAN => "BOOLEAN",
            AttributeType::INT => "INT",
            AttributeType::FLOAT_VECTOR => "FLOAT_VECTOR",
            AttributeType::INT32_2D => "INT32_2D",
        }
    }

    /// How many bytes one element of this encoding occupies in a blob.
    pub open spec fn spec_width(self) -> u64 {
        match self {
            AttributeType::FLOAT => 4,
            AttributeType::BOOLEAN => 1,
            AttributeType::INT => 4,
            AttributeType::FLOAT_VECTOR => 12,
            AttributeType::INT32_2D => 8,
        }
    }

    /// The byte width of one element of this encoding.
    pub fn width(&self) -> (w: u64)
        ensures
            w == self.spec_width(),
            1 <= w <= 12,
    {
        match self {
            AttributeType::FLOAT => 4,
            AttributeType::BOOLEAN => 1,
            AttributeType::INT => 4,
            AttributeType::FLOAT_VECTOR => 12,
            AttributeType::INT32_2D => 8,
        }
    }
}

/// The mathematical value of a blob locator.
pub struct BlobDataV {
    pub name: Seq<char>,
    pub start: u64,
    pub size: u64,
}

/// Locator of one attribute's payload: a blob file name plus the byte range
/// inside it. Purely a reference; it holds no data itself.
#[derive(Debug, PartialEq)]
pub struct BlobData {
    pub name: String,
    pub start: u64,
    pub size: u64,
}

impl View for BlobData {
    type V = BlobDataV;

    open spec fn view(&self) -> BlobDataV {
        BlobDataV { name: self.name@, start: self.start, size: self.size }
    }
}

/// The mathematical value of a parsed attribute descriptor.
pub struct RawAttributeV {
    pub name: Seq<char>,
    pub domain: Domain,
    pub attribute_type: AttributeType,
    pub data: BlobDataV,
}

/// One attribute as a frame metadata document declares it: its name, the
/// domain it is defined over, its element encoding, and where its payload
/// lies.
#[derive(Debug, PartialEq)]
pub struct RawAttribute {
    pub name: String,
    pub domain: Domain,
    pub attribute_type: AttributeType,
    pub data: BlobData,
}

impl View for RawAttribute {
    type V = RawAttributeV;

    open spec fn view(&self) -> RawAttributeV {
        RawAttributeV {
            name: self.name@,
            domain: self.domain,
            attribute_type: self.attribute_type,
            data: self.data@,
        }
    }
}

/// The views of a run of attribute descriptors.
pub open spec fn raw_views(s: Seq<RawAttribute>) -> Seq<RawAttributeV> {
    s.map_values(|a: RawAttribute| a@)
}

/// The mathematical value of a mesh descriptor.
pub struct MeshDataV {
    pub num_vertices: u64,
    pub num_edges: u64,
    pub num_polygons: u64,
    pub num_corners: u64,
    pub attributes: Seq<RawAttributeV>,
}

impl MeshDataV {
    /// Whether two mesh descriptors agree on every topology count.
    pub open spec fn same_topology(self, other: MeshDataV) -> bool {
        &&& self.num_vertices == other.num_vertices
        &&& self.num_edges == other.num_edges
        &&& self.num_polygons == other.num_polygons
        &&& self.num_corners == other.num_corners
    }

    /// The topology count of one domain.
    pub open spec fn domain_count(self, domain: Domain) -> u64 {
        match domain {
            Domain::POINT => self.num_vertices,
            Domain::EDGE => self.num_edges,
            Domain::FACE => self.num_polygons,
            Domain::CORNER => self.num_corners,
        }
    }
}

/// One frame's mesh: the four topology counts plus the declared attributes.
#[derive(Debug, PartialEq)]
pub struct MeshData {
    pub num_vertices: u64,
    pub num_edges: u64,
    pub num_polygons: u64,
    pub num_corners: u64,
    pub attributes: Vec<RawAttribute>,
}

impl View for MeshData {
    type V = MeshDataV;

    open spec fn view(&self) -> MeshDataV {
        MeshDataV {
            num_vertices: self.num_vertices,
            num_edges: self.num_edges,
            num_polygons: self.num_polygons,
            num_corners: self.num_corners,
            attributes: self.attributes@.map_values(|a: RawAttribute| a@),
        }
    }
}

/// The mathematical value of one item's payload.
pub struct ItemDataV {
    pub mesh: MeshDataV,
}

/// The payload of one item: its mesh.
#[derive(Debug, PartialEq)]
pub struct ItemData {
    pub mesh: MeshData,
}

impl View for ItemData {
    type V = ItemDataV;

    open spec fn view(&self) -> ItemDataV {
        ItemDataV { mesh: self.mesh@ }
    }
}

/// The mathematical value of one item.
pub struct ItemV {
    pub name: Seq<char>,
    pub item_type: ItemType,
    pub data: ItemDataV,
}

/// One item of a bake metadata document.
#[derive(Debug, PartialEq)]
pub struct Item {
    pub name: String,
    pub item_type: ItemType,
    pub data: ItemData,
}

impl View for Item {
    type V = ItemV;

    open spec fn view(&self) -> ItemV {
        ItemV { name: self.name@, item_type: self.item_type, data: self.data@ }
    }
}

/// One rendered frame of the terminal player: its number and the characters
/// that draw it.
pub struct Frame {
    pub number: u32,
    pub buffer: String,
}

} // verus!
