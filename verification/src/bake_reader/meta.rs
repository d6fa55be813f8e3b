//! Parsing one frame's metadata document into a typed descriptor.
//!
//! A pre-existing decoder (serde_json) turns the file's bytes into a
//! document tree, which one trusted conversion moves, member for member,
//! into the library's own [`JsonValue`] model; the document a run of bytes
//! parses to is a function of the bytes alone and carries the name
//! [`json_doc`]. Everything after that — which item is read, which fields
//! are demanded, how failures are classified — is verified logic over that
//! model, pinned by [`spec_parse_item`]. The schema nests everything under
//! the item keyed `"0"`: its mesh carries four topology counts and a list
//! of attribute descriptors, each pointing at a byte range of a named blob.

use vstd::prelude::*;

use crate::bake_reader::api::{
    raw_views, AttributeType, BlobData, BlobDataV, Domain, Item, ItemData, ItemDataV, ItemType,
    ItemV, MeshData, MeshDataV, RawAttribute, RawAttributeV,
};
use crate::errors::{result_view, MetaReadError};

verus! {

/// One JSON value, as the library models a parsed frame document.
///
/// A number is held as its unsigned 64-bit reading where it has one and as
/// `Num(None)` otherwise: the schema reads no other numbers, so a negative
/// or fractional number only ever matters by failing that reading. An
/// object is a run of key–value pairs.
#[derive(Debug, PartialEq)]
pub enum JsonValue {
    Null,
    Bool(bool),
    Num(Option<u64>),
    Str(String),
    Arr(Vec<JsonValue>),
    Obj(Vec<(String, JsonValue)>),
}

/// The member of an object's pair run under `key`: the first match.
pub open spec fn spec_obj_lookup(pairs: Seq<(String, JsonValue)>, key: Seq<char>) -> Option<
    JsonValue,
>
    decreases pairs.len(),
{
    if pairs.len() == 0 {
        None
    } else if pairs[0].0@ == key {
        Some(pairs[0].1)
    } else {
        spec_obj_lookup(pairs.drop_first(), key)
    }
}

/// The member of a JSON object under `key`; `None` when the value is no
/// object or has no such member.
pub open spec fn spec_get(v: JsonValue, key: Seq<char>) -> Option<JsonValue> {
    match v {
        JsonValue::Obj(pairs) => spec_obj_lookup(pairs@, key),
        _ => None,
    }
}

/// The string member under `key`, if any.
pub open spec fn spec_get_string(v: JsonValue, key: Seq<char>) -> Option<String> {
    match spec_get(v, key) {
        Some(JsonValue::Str(s)) => Some(s),
        _ => None,
    }
}

/// The unsigned integer member under `key`, if any.
pub open spec fn spec_get_u64(v: JsonValue, key: Seq<char>) -> Option<u64> {
    match spec_get(v, key) {
        Some(JsonValue::Num(n)) => n,
        _ => None,
    }
}

#[verifier::external_type_specification]
#[verifier::external_body]
pub struct ExValue(serde_json::Value);

/// The document a run of bytes parses to, when it is well-formed JSON:
/// what serde_json makes of the bytes depends on the bytes alone.
pub uninterp spec fn json_doc(bytes: Seq<u8>) -> Option<JsonValue>;

/// Relies on serde_json::Value's variants alone: each member of the parsed
/// tree is moved into the library's own document model, a number read as
/// unsigned 64-bit where it is one (serde_json::Number::as_u64) and carried
/// only by its presence otherwise.
#[verifier::external_body]
fn convert_value(v: serde_json::Value) -> JsonValue {
    match v {
        serde_json::Value::Null => JsonValue::Null,
        serde_json::Value::Bool(b) => JsonValue::Bool(b),
        serde_json::Value::Number(n) => JsonValue::Num(n.as_u64()),
        serde_json::Value::String(s) => JsonValue::Str(s),
        serde_json::Value::Array(a) => JsonValue::Arr(a.into_iter().map(convert_value).collect()),
        serde_json::Value::Object(o) => JsonValue::Obj(
            o.into_iter().map(|(k, w)| (k, convert_value(w))).collect(),
        ),
    }
}

/// Relies on serde_json::from_slice: parses the bytes as one JSON document,
/// `None` when they are not well-formed JSON. The result is a function of
/// the bytes alone, named [`json_doc`].
#[verifier::external_body]
fn parse_json(bytes: &Vec<u8>) -> (r: Option<JsonValue>)
    ensures
        r == json_doc(bytes@),
{
    match serde_json::from_slice::<serde_json::Value>(bytes.as_slice()) {
        Ok(v) => Some(convert_value(v)),
        Err(_) => None,
    }
}

/// Relies on str's `PartialEq`: equality of the character sequences.
#[verifier::external_body]
fn str_eq(a: &str, b: &str) -> (r: bool)
    ensures
        r == (a@ == b@),
{
    a == b
}

/// A first match at position `i` is what the member lookup finds.
proof fn lemma_obj_lookup_at(pairs: Seq<(String, JsonValue)>, key: Seq<char>, i: int)
    requires
        0 <= i < pairs.len(),
        pairs[i].0@ == key,
        forall|k: int| 0 <= k < i ==> pairs[k].0@ != key,
    ensures
        spec_obj_lookup(pairs, key) == Some(pairs[i].1),
    decreases i,
{
    if i > 0 {
        assert forall|k: int| 0 <= k < i - 1 implies pairs.drop_first()[k].0@ != key by {
            assert(pairs[k + 1].0@ != key);
        }
        lemma_obj_lookup_at(pairs.drop_first(), key, i - 1);
    }
}

/// With no match anywhere, the member lookup finds nothing.
proof fn lemma_obj_lookup_none(pairs: Seq<(String, JsonValue)>, key: Seq<char>)
    requires
        forall|k: int| 0 <= k < pairs.len() ==> pairs[k].0@ != key,
    ensures
        spec_obj_lookup(pairs, key) is None,
    decreases pairs.len(),
{
    if pairs.len() > 0 {
        assert forall|k: int| 0 <= k < pairs.drop_first().len() implies pairs.drop_first()[k].0@
            != key by {
            assert(pairs[k + 1].0@ != key);
        }
        lemma_obj_lookup_none(pairs.drop_first(), key);
    }
}

/// The member of a JSON object under `key`: exactly [`spec_get`].
#[verifier::loop_isolation(false)]
fn json_get<'a>(v: &'a JsonValue, key: &str) -> (r: Option<&'a JsonValue>)
    ensures
        r is Some ==> spec_get(*v, key@) == Some(*r->0),
        r is None ==> spec_get(*v, key@) is None,
{
    match v {
        JsonValue::Obj(pairs) => {
            let mut i: usize = 0;
            while i < pairs.len()
                invariant
                    i <= pairs@.len(),
                    forall|k: int| 0 <= k < i ==> pairs@[k].0@ != key@,
                decreases pairs@.len() - i,
            {
                if str_eq(pairs[i].0.as_str(), key) {
                    proof {
                        lemma_obj_lookup_at(pairs@, key@, i as int);
                    }
                    return Some(&pairs[i].1);
                }
                i = i + 1;
            }
            proof {
                lemma_obj_lookup_none(pairs@, key@);
            }
            None
        },
        _ => None,
    }
}

/// The string member under `key`, owned: exactly [`spec_get_string`].
fn get_string(v: &JsonValue, key: &str) -> (r: Option<String>)
    ensures
        r == spec_get_string(*v, key@),
{
    match json_get(v, key) {
        Some(m) => match m {
            JsonValue::Str(s) => Some(s.clone()),
            _ => None,
        },
        None => None,
    }
}

/// The unsigned integer member under `key`: exactly [`spec_get_u64`].
fn get_u64(v: &JsonValue, key: &str) -> (r: Option<u64>)
    ensures
        r == spec_get_u64(*v, key@),
{
    match json_get(v, key) {
        Some(m) => match m {
            JsonValue::Num(n) => *n,
            _ => None,
        },
        None => None,
    }
}

/// The domain a schema spelling names, if any.
pub open spec fn spec_parse_domain(s: Seq<char>) -> Option<Domain> {
    if s == "POINT"@ {
        Some(Domain::POINT)
    } else if s == "EDGE"@ {
        Some(Domain::EDGE)
    } else if s == "FACE"@ {
        Some(Domain::FACE)
    } else if s == "CORNER"@ {
        Some(Domain::CORNER)
    } else {
        None
    }
}

/// Parse the schema spelling of a domain.
pub fn parse_domain(s: &str) -> (r: Option<Domain>)
    ensures
        r == spec_parse_domain(s@),
{
    if str_eq(s, "POINT") {
        Some(Domain::POINT)
    } else if str_eq(s, "EDGE") {
        Some(Domain::EDGE)
    } else if str_eq(s, "FACE") {
        Some(Domain::FACE)
    } else if str_eq(s, "CORNER") {
        Some(Domain::CORNER)
    } else {
        None
    }
}

/// The element encoding a schema spelling names, if it lies in the
/// supported table.
pub open spec fn spec_parse_attribute_type(s: Seq<char>) -> Option<AttributeType> {
    if s == "FLOAT"@ {
        Some(AttributeType::FLOAT)
    } else if s == "BOOLEAN"@ {
        Some(AttributeType::BOOLEAN)
    } else if s == "INT"@ {
        Some(AttributeType::INT)
    } else if s == "FLOAT_VECTOR"@ {
        Some(AttributeType::FLOAT_VECTOR)
    } else if s == "INT32_2D"@ {
        Some(AttributeType::INT32_2D)
    } else {
        None
    }
}

/// Parse the schema spelling of an element encoding. `None` means the
/// document asks for an encoding outside the supported table.
pub fn parse_attribute_type(s: &str) -> (r: Option<AttributeType>)
    ensures
        r == spec_parse_attribute_type(s@),
{
    if str_eq(s, "FLOAT") {
        Some(AttributeType::FLOAT)
    } else if str_eq(s, "BOOLEAN") {
        Some(AttributeType::BOOLEAN)
    } else if str_eq(s, "INT") {
        Some(AttributeType::INT)
    } else if str_eq(s, "FLOAT_VECTOR") {
        Some(AttributeType::FLOAT_VECTOR)
    } else if str_eq(s, "INT32_2D") {
        Some(AttributeType::INT32_2D)
    } else {
        None
    }
}

/// What one attribute descriptor parses to: its name, domain, element
/// encoding and blob range, demanded in that order; a missing or mistyped
/// field is `Deserialize`, and an encoding outside the supported table is
/// `UnsupportedAttributeType`.
pub open spec fn spec_parse_attribute(v: JsonValue) -> Result<RawAttributeV, MetaReadError> {
    match spec_get_string(v, "name"@) {
        None => Err(MetaReadError::Deserialize),
        Some(name) => match spec_get_string(v, "domain"@) {
            None => Err(MetaReadError::Deserialize),
            Some(d) => match spec_parse_domain(d@) {
                None => Err(MetaReadError::Deserialize),
                Some(domain) => match spec_get_string(v, "type"@) {
                    None => Err(MetaReadError::Deserialize),
                    Some(t) => match spec_parse_attribute_type(t@) {
                        None => Err(MetaReadError::UnsupportedAttributeType),
                        Some(attribute_type) => match spec_get(v, "data"@) {
                            None => Err(MetaReadError::Deserialize),
                            Some(data) => match (
                                spec_get_string(data, "name"@),
                                spec_get_u64(data, "start"@),
                                spec_get_u64(data, "size"@),
                            ) {
                                (Some(blob), Some(start), Some(size)) => Ok(
                                    RawAttributeV {
                                        name: name@,
                                        domain,
                                        attribute_type,
                                        data: BlobDataV { name: blob@, start, size },
                                    },
                                ),
                                _ => Err(MetaReadError::Deserialize),
                            },
                        },
                    },
                },
            },
        },
    }
}

/// An attribute descriptor naming an element encoding outside the supported
/// table is refused as `UnsupportedAttributeType` — never decoded on a
/// best-effort basis — whenever its name and domain fields are themselves
/// well formed.
pub proof fn lemma_unsupported_type_refused(v: JsonValue, t: String)
    requires
        spec_get_string(v, "name"@) is Some,
        spec_get_string(v, "domain"@) is Some,
        spec_parse_domain(spec_get_string(v, "domain"@)->0@) is Some,
        spec_get_string(v, "type"@) == Some(t),
        spec_parse_attribute_type(t@) is None,
    ensures
        spec_parse_attribute(v) == Err::<RawAttributeV, MetaReadError>(
            MetaReadError::UnsupportedAttributeType,
        ),
{
}

/// Parse one attribute descriptor: exactly [`spec_parse_attribute`].
fn parse_attribute(value: &JsonValue) -> (r: Result<RawAttribute, MetaReadError>)
    ensures
        result_view(r) == spec_parse_attribute(*value),
{
    let name = match get_string(value, "name") {
        Some(s) => s,
        None => {
            return Err(MetaReadError::Deserialize);
        },
    };
    let domain = match get_string(value, "domain") {
        Some(s) => match parse_domain(s.as_str()) {
            Some(d) => d,
            None => {
                return Err(MetaReadError::Deserialize);
            },
        },
        None => {
            return Err(MetaReadError::Deserialize);
        },
    };
    let attribute_type = match get_string(value, "type") {
        Some(s) => match parse_attribute_type(s.as_str()) {
            Some(t) => t,
            None => {
                return Err(MetaReadError::UnsupportedAttributeType);
            },
        },
        None => {
            return Err(MetaReadError::Deserialize);
        },
    };
    let data_value = match json_get(value, "data") {
        Some(v) => v,
        None => {
            return Err(MetaReadError::Deserialize);
        },
    };
    let blob_name = match get_string(data_value, "name") {
        Some(s) => s,
        None => {
            return Err(MetaReadError::Deserialize);
        },
    };
    let start = match get_u64(data_value, "start") {
        Some(n) => n,
        None => {
            return Err(MetaReadError::Deserialize);
        },
    };
    let size = match get_u64(data_value, "size") {
        Some(n) => n,
        None => {
            return Err(MetaReadError::Deserialize);
        },
    };
    Ok(RawAttribute { name, domain, attribute_type, data: BlobData { name: blob_name, start, size } })
}

/// What a run of attribute descriptors parses to, in order, fail-fast.
pub open spec fn spec_parse_attributes(items: Seq<JsonValue>) -> Result<
    Seq<RawAttributeV>,
    MetaReadError,
>
    decreases items.len(),
{
    if items.len() == 0 {
        Ok(Seq::empty())
    } else {
        match spec_parse_attributes(items.drop_last()) {
            Err(e) => Err(e),
            Ok(rest) => match spec_parse_attribute(items.last()) {
                Err(e) => Err(e),
                Ok(a) => Ok(rest.push(a)),
            },
        }
    }
}

/// A failing prefix decides the whole run's failure.
proof fn lemma_parse_attributes_prefix_err(items: Seq<JsonValue>, j: int)
    requires
        0 <= j <= items.len(),
        spec_parse_attributes(items.take(j)) is Err,
    ensures
        spec_parse_attributes(items) == spec_parse_attributes(items.take(j)),
    decreases items.len() - j,
{
    if j == items.len() {
        assert(items.take(j) =~= items);
    } else {
        assert(items.take(j + 1).drop_last() =~= items.take(j));
        lemma_parse_attributes_prefix_err(items, j + 1);
    }
}

/// Parse the mesh of one item: the four topology counts and every declared
/// attribute, in document order. Exactly [`spec_parse_mesh`].
pub open spec fn spec_parse_mesh(v: JsonValue) -> Result<MeshDataV, MetaReadError> {
    match (
        spec_get_u64(v, "num_vertices"@),
        spec_get_u64(v, "num_edges"@),
        spec_get_u64(v, "num_polygons"@),
        spec_get_u64(v, "num_corners"@),
    ) {
        (Some(nv), Some(ne), Some(np), Some(nc)) => match spec_get(v, "attributes"@) {
            Some(JsonValue::Arr(list)) => match spec_parse_attributes(list@) {
                Err(e) => Err(e),
                Ok(attrs) => Ok(
                    MeshDataV {
                        num_vertices: nv,
                        num_edges: ne,
                        num_polygons: np,
                        num_corners: nc,
                        attributes: attrs,
                    },
                ),
            },
            _ => Err(MetaReadError::Deserialize),
        },
        _ => Err(MetaReadError::Deserialize),
    }
}

/// Parse the mesh of one item: exactly [`spec_parse_mesh`].
#[verifier::loop_isolation(false)]
fn parse_mesh(mesh_value: &JsonValue) -> (r: Result<MeshData, MetaReadError>)
    ensures
        result_view(r) == spec_parse_mesh(*mesh_value),
{
    let num_vertices = match get_u64(mesh_value, "num_vertices") {
        Some(n) => n,
        None => {
            return Err(MetaReadError::Deserialize);
        },
    };
    let num_edges = match get_u64(mesh_value, "num_edges") {
        Some(n) => n,
        None => {
            return Err(MetaReadError::Deserialize);
        },
    };
    let num_polygons = match get_u64(mesh_value, "num_polygons") {
        Some(n) => n,
        None => {
            return Err(MetaReadError::Deserialize);
        },
    };
    let num_corners = match get_u64(mesh_value, "num_corners") {
        Some(n) => n,
        None => {
            return Err(MetaReadError::Deserialize);
        },
    };
    let list = match json_get(mesh_value, "attributes") {
        Some(v) => match v {
            JsonValue::Arr(a) => a,
            _ => {
                return Err(MetaReadError::Deserialize);
            },
        },
        None => {
            return Err(MetaReadError::Deserialize);
        },
    };
    let mut attributes: Vec<RawAttribute> = Vec::new();
    proof {
        assert(list@.take(0) =~= Seq::<JsonValue>::empty());
        assert(raw_views(attributes@) =~= Seq::<RawAttributeV>::empty());
    }
    let mut i: usize = 0;
    while i < list.len()
        invariant
            i <= list@.len(),
            spec_parse_attributes(list@.take(i as int)) == Ok::<Seq<RawAttributeV>, MetaReadError>(
                raw_views(attributes@),
            ),
        decreases list@.len() - i,
    {
        let ghost pre = raw_views(attributes@);
        let attribute = match parse_attribute(&list[i]) {
            Ok(a) => a,
            Err(e) => {
                proof {
                    assert(list@.take(i as int + 1).drop_last() =~= list@.take(i as int));
                    assert(list@.take(i as int + 1).last() == list@[i as int]);
                    lemma_parse_attributes_prefix_err(list@, i as int + 1);
                }
                return Err(e);
            },
        };
        let ghost av = attribute@;
        proof {
            assert(list@.take(i as int + 1).drop_last() =~= list@.take(i as int));
            assert(list@.take(i as int + 1).last() == list@[i as int]);
        }
        attributes.push(attribute);
        proof {
            assert(raw_views(attributes@) =~= pre.push(av));
        }
        i = i + 1;
    }
    proof {
        assert(list@.take(list@.len() as int) =~= list@);
    }
    Ok(MeshData { num_vertices, num_edges, num_polygons, num_corners, attributes })
}

/// What one frame metadata document parses to: the descriptor of the item
/// keyed `"0"`. Bytes that are no well-formed JSON, or a document off the
/// schema, are `Deserialize`; a well-formed document whose item table lacks
/// the expected key is `ItemNotFound`; an attribute encoding outside the
/// supported table is `UnsupportedAttributeType`. No partial descriptor is
/// ever produced.
pub open spec fn spec_parse_item(doc: Option<JsonValue>) -> Result<ItemV, MetaReadError> {
    match doc {
        None => Err(MetaReadError::Deserialize),
        Some(root) => match spec_get(root, "items"@) {
            None => Err(MetaReadError::Deserialize),
            Some(items) => if !(items is Obj) {
                Err(MetaReadError::Deserialize)
            } else {
                match spec_get(items, "0"@) {
                    None => Err(MetaReadError::ItemNotFound),
                    Some(item) => match spec_get_string(item, "name"@) {
                        None => Err(MetaReadError::Deserialize),
                        Some(name) => match spec_get_string(item, "type"@) {
                            None => Err(MetaReadError::Deserialize),
                            Some(t) => if t@ != "GEOMETRY"@ {
                                Err(MetaReadError::Deserialize)
                            } else {
                                match spec_get(item, "data"@) {
                                    None => Err(MetaReadError::Deserialize),
                                    Some(d) => match spec_get(d, "mesh"@) {
                                        None => Err(MetaReadError::Deserialize),
                                        Some(m) => match spec_parse_mesh(m) {
                                            Err(e) => Err(e),
                                            Ok(mesh) => Ok(
                                                ItemV {
                                                    name: name@,
                                                    item_type: ItemType::GEOMETRY,
                                                    data: ItemDataV { mesh },
                                                },
                                            ),
                                        },
                                    },
                                }
                            },
                        },
                    },
                }
            },
        },
    }
}

/// Parse one frame metadata document into the descriptor of the item keyed
/// `"0"`: exactly [`spec_parse_item`] of the document the bytes parse to.
pub fn parse_item(bytes: &Vec<u8>) -> (r: Result<Item, MetaReadError>)
    ensures
        result_view(r) == spec_parse_item(json_doc(bytes@)),
{
    let document = match parse_json(bytes) {
        Some(v) => v,
        None => {
            return Err(MetaReadError::Deserialize);
        },
    };
    let items = match json_get(&document, "items") {
        Some(v) => v,
        None => {
            return Err(MetaReadError::Deserialize);
        },
    };
    match items {
        JsonValue::Obj(_) => {},
        _ => {
            return Err(MetaReadError::Deserialize);
        },
    }
    let item_value = match json_get(items, "0") {
        Some(v) => v,
        None => {
            return Err(MetaReadError::ItemNotFound);
        },
    };
    let name = match get_string(item_value, "name") {
        Some(s) => s,
        None => {
            return Err(MetaReadError::Deserialize);
        },
    };
    match get_string(item_value, "type") {
        Some(s) => {
            if !str_eq(s.as_str(), "GEOMETRY") {
                return Err(MetaReadError::Deserialize);
            }
        },
        None => {
            return Err(MetaReadError::Deserialize);
        },
    }
    let mesh_value = match json_get(item_value, "data") {
        Some(d) => match json_get(d, "mesh") {
            Some(m) => m,
            None => {
                return Err(MetaReadError::Deserialize);
            },
        },
        None => {
            return Err(MetaReadError::Deserialize);
        },
    };
    let mesh = match parse_mesh(mesh_value) {
        Ok(m) => m,
        Err(e) => {
            return Err(e);
        },
    };
    Ok(Item { name, item_type: ItemType::GEOMETRY, data: ItemData { mesh } })
}

} // verus!
