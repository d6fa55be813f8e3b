//! Reading a bake directory into a queryable geometry store.
//!
//! A bake directory holds one JSON metadata file per frame and a set of flat
//! binary blob files. The binary that owns the filesystem lists and reads
//! them and hands their contents in as plain values; everything after that —
//! frame-index extraction, schema parsing, blob decoding, accumulation,
//! topology checks and the sort pass — happens here.

use vstd::prelude::*;

pub mod api;
pub mod blob;
pub mod geometry;
pub mod meta;

use crate::bake_reader::api::{raw_views, MeshData, MeshDataV, RawAttribute, RawAttributeV};
use crate::bake_reader::geometry::{
    spec_push_series, Attribute, AttributeSeriesV, AttributeV, DomainsV, Geometry, GeometryBuilder,
    GeometryBuilderV,
};
use crate::errors::{result_view, MetaReadError};

verus! {

/// The mathematical value of one metadata file.
pub struct MetaFileV {
    pub name: Seq<char>,
    pub bytes: Seq<u8>,
}

/// One frame metadata file, read whole: its file name (which carries the
/// frame index) and its content.
#[derive(Debug, PartialEq)]
pub struct MetaFile {
    pub name: String,
    pub bytes: Vec<u8>,
}

impl View for MetaFile {
    type V = MetaFileV;

    open spec fn view(&self) -> MetaFileV {
        MetaFileV { name: self.name@, bytes: self.bytes@ }
    }
}

/// The mathematical value of one blob file.
pub struct BlobFileV {
    pub name: Seq<char>,
    pub bytes: Seq<u8>,
}

/// One blob file, read whole: the name metadata refers to it by, and its
/// content.
#[derive(Debug, PartialEq)]
pub struct BlobFile {
    pub name: String,
    pub bytes: Vec<u8>,
}

impl View for BlobFile {
    type V = BlobFileV;

    open spec fn view(&self) -> BlobFileV {
        BlobFileV { name: self.name@, bytes: self.bytes@ }
    }
}

/// The views of a run of blob files.
pub open spec fn blob_views(s: Seq<BlobFile>) -> Seq<BlobFileV> {
    s.map_values(|b: BlobFile| b@)
}

/// The views of a run of retained attribute names.
pub open spec fn name_views(s: Seq<String>) -> Seq<Seq<char>> {
    s.map_values(|n: String| n@)
}

/// Whether a character is a decimal digit.
pub open spec fn is_digit(c: char) -> bool {
    48 <= c as u32 <= 57
}

/// The numeric value of a digit character.
pub open spec fn digit_value(c: char) -> int {
    c as u32 - 48
}

/// How many characters stand before the first `_` separator (the whole
/// name, if there is none).
pub open spec fn token_len(s: Seq<char>) -> int
    decreases s.len(),
{
    if s.len() == 0 {
        0
    } else if s[0] == '_' {
        0
    } else {
        1 + token_len(s.drop_first())
    }
}

/// The leading token of a file name: everything before the first `_`.
pub open spec fn frame_token(s: Seq<char>) -> Seq<char> {
    s.take(token_len(s))
}

/// Whether every character of a run is a decimal digit.
pub open spec fn all_digits(s: Seq<char>) -> bool {
    forall|i: int| 0 <= i < s.len() ==> is_digit(#[trigger] s[i])
}

/// The number a run of decimal digits spells.
pub open spec fn digits_value(s: Seq<char>) -> int
    decreases s.len(),
{
    if s.len() == 0 {
        0
    } else {
        digits_value(s.drop_last()) * 10 + digit_value(s.last())
    }
}

/// Whether a file name carries a parseable frame index: a nonempty leading
/// token of digits whose value fits a `u32`.
pub open spec fn has_frame_number(name: Seq<char>) -> bool {
    &&& frame_token(name).len() > 0
    &&& all_digits(frame_token(name))
    &&& digits_value(frame_token(name)) <= u32::MAX
}

/// The leading token runs to the first `_`, exclusive.
proof fn lemma_token_len(s: Seq<char>)
    ensures
        0 <= token_len(s) <= s.len(),
        forall|i: int| 0 <= i < token_len(s) ==> s[i] != '_',
        token_len(s) < s.len() ==> s[token_len(s)] == '_',
    decreases s.len(),
{
    if s.len() == 0 {
    } else if s[0] == '_' {
    } else {
        lemma_token_len(s.drop_first());
        assert forall|i: int| 0 <= i < token_len(s) implies s[i] != '_' by {
            if i > 0 {
                assert(s.drop_first()[i - 1] != '_');
            }
        }
    }
}

/// A run of digits spells a number at least zero.
proof fn lemma_digits_value_nonneg(s: Seq<char>)
    requires
        all_digits(s),
    ensures
        digits_value(s) >= 0,
    decreases s.len(),
{
    if s.len() > 0 {
        assert(all_digits(s.drop_last()));
        lemma_digits_value_nonneg(s.drop_last());
    }
}

/// Reading one more digit multiplies by ten and adds it.
proof fn lemma_digits_value_step(s: Seq<char>, i: int)
    requires
        0 <= i < s.len(),
    ensures
        digits_value(s.take(i + 1)) == digits_value(s.take(i)) * 10 + digit_value(s[i]),
{
    assert(s.take(i + 1).drop_last() =~= s.take(i));
    assert(s.take(i + 1).last() == s[i]);
}

/// A digit prefix never spells more than the whole run.
proof fn lemma_digits_value_prefix(s: Seq<char>, i: int)
    requires
        all_digits(s),
        0 <= i <= s.len(),
    ensures
        digits_value(s.take(i)) <= digits_value(s),
    decreases s.len() - i,
{
    if i < s.len() {
        lemma_digits_value_step(s, i);
        assert(all_digits(s.take(i)));
        lemma_digits_value_nonneg(s.take(i));
        lemma_digits_value_prefix(s, i + 1);
    } else {
        assert(s.take(i) =~= s);
    }
}

/// Extract the frame index from a metadata file name: the number its
/// leading `_`-delimited token spells. Succeeds exactly when the token is
/// nonempty, all digits, and fits a `u32`; any other name is refused as
/// `ParseIntError`.
#[verifier::loop_isolation(false)]
pub fn get_frame_number(name: &str) -> (r: Result<u32, MetaReadError>)
    ensures
        r is Ok <==> has_frame_number(name@),
        r is Ok ==> r->Ok_0 == digits_value(frame_token(name@)),
        r is Err ==> r->Err_0 == MetaReadError::ParseIntError,
{
    proof {
        lemma_token_len(name@);
    }
    let n = name.unicode_len();
    let mut end: usize = 0;
    while end < n && name.get_char(end) != '_'
        invariant
            end <= n,
            forall|k: int| 0 <= k < end ==> name@[k] != '_',
        decreases n - end,
    {
        end = end + 1;
    }
    proof {
        assert(end == token_len(name@)) by {
            if end < token_len(name@) {
                assert(name@[end as int] == '_');
            }
            if end > token_len(name@) {
                assert(name@[token_len(name@)] != '_');
            }
        }
    }
    let ghost tok = frame_token(name@);
    proof {
        assert(tok.len() == end);
        assert(forall|k: int| 0 <= k < end ==> tok[k] == name@[k]);
    }
    if end == 0 {
        return Err(MetaReadError::ParseIntError);
    }
    let mut value: u64 = 0;
    let mut i: usize = 0;
    while i < end
        invariant
            i <= end,
            all_digits(tok.take(i as int)),
            value == digits_value(tok.take(i as int)),
            value <= u32::MAX,
        decreases end - i,
    {
        let c = name.get_char(i);
        let cu = c as u32;
        if cu < 48 || cu > 57 {
            proof {
                assert(tok[i as int] == name@[i as int]);
                assert(!is_digit(tok[i as int]));
                assert(!all_digits(tok));
            }
            return Err(MetaReadError::ParseIntError);
        }
        let d = (cu - 48) as u64;
        let v2: u64 = value * 10 + d;
        proof {
            lemma_digits_value_step(tok, i as int);
            assert(tok[i as int] == name@[i as int]);
            assert(all_digits(tok.take(i as int + 1)));
            assert(digits_value(tok.take(i as int + 1)) == v2);
        }
        if v2 > 0xFFFF_FFFFu64 {
            proof {
                if all_digits(tok) {
                    lemma_digits_value_prefix(tok, i as int + 1);
                    assert(digits_value(tok) > u32::MAX);
                }
            }
            return Err(MetaReadError::ParseIntError);
        }
        value = v2;
        i = i + 1;
    }
    proof {
        assert(tok.take(end as int) =~= tok);
        assert(has_frame_number(name@));
    }
    Ok(value as u32)
}

/// The bytes of the first blob carrying `name`, if any.
pub open spec fn spec_blob_lookup(blobs: Seq<BlobFileV>, name: Seq<char>) -> Option<Seq<u8>>
    decreases blobs.len(),
{
    if blobs.len() == 0 {
        None
    } else if blobs[0].name == name {
        Some(blobs[0].bytes)
    } else {
        spec_blob_lookup(blobs.drop_first(), name)
    }
}

/// A first match at position `i` is what the lookup finds.
proof fn lemma_blob_lookup_at(blobs: Seq<BlobFileV>, name: Seq<char>, i: int)
    requires
        0 <= i < blobs.len(),
        blobs[i].name == name,
        forall|k: int| 0 <= k < i ==> blobs[k].name != name,
    ensures
        spec_blob_lookup(blobs, name) == Some(blobs[i].bytes),
    decreases i,
{
    if i > 0 {
        assert forall|k: int| 0 <= k < i - 1 implies blobs.drop_first()[k].name != name by {
            assert(blobs[k + 1].name != name);
        }
        lemma_blob_lookup_at(blobs.drop_first(), name, i - 1);
    }
}

/// With no match anywhere, the lookup finds nothing.
proof fn lemma_blob_lookup_none(blobs: Seq<BlobFileV>, name: Seq<char>)
    requires
        forall|k: int| 0 <= k < blobs.len() ==> blobs[k].name != name,
    ensures
        spec_blob_lookup(blobs, name) is None,
    decreases blobs.len(),
{
    if blobs.len() > 0 {
        assert forall|k: int| 0 <= k < blobs.drop_first().len() implies blobs.drop_first()[k].name
            != name by {
            assert(blobs[k + 1].name != name);
        }
        lemma_blob_lookup_none(blobs.drop_first(), name);
    }
}

/// The position of the first blob carrying `name`, if any.
fn find_blob(blobs: &Vec<BlobFile>, name: &String) -> (r: Option<usize>)
    ensures
        r is Some ==> r->0 < blobs@.len() && blob_views(blobs@)[r->0 as int].name == name@
            && spec_blob_lookup(blob_views(blobs@), name@) == Some(
            blob_views(blobs@)[r->0 as int].bytes,
        ),
        r is None ==> spec_blob_lookup(blob_views(blobs@), name@) is None,
{
    let ghost bs = blob_views(blobs@);
    let mut i: usize = 0;
    while i < blobs.len()
        invariant
            i <= blobs@.len(),
            bs == blob_views(blobs@),
            forall|k: int| 0 <= k < i ==> bs[k].name != name@,
        decreases blobs@.len() - i,
    {
        if blobs[i].name == *name {
            proof {
                assert(bs[i as int].name == name@);
                lemma_blob_lookup_at(bs, name@, i as int);
            }
            return Some(i);
        }
        proof {
            assert(bs[i as int].name != name@);
        }
        i = i + 1;
    }
    proof {
        lemma_blob_lookup_none(bs, name@);
    }
    None
}

/// Whether a run of retained names holds `name`.
fn contains_name(names: &Vec<String>, name: &String) -> (r: bool)
    ensures
        r == name_views(names@).contains(name@),
{
    let ghost ns = name_views(names@);
    let mut i: usize = 0;
    while i < names.len()
        invariant
            i <= names@.len(),
            ns == name_views(names@),
            forall|k: int| 0 <= k < i ==> ns[k] != name@,
        decreases names@.len() - i,
    {
        if names[i] == *name {
            proof {
                assert(ns[i as int] == name@);
            }
            return true;
        }
        proof {
            assert(ns[i as int] != name@);
        }
        i = i + 1;
    }
    proof {
        if ns.contains(name@) {
            let k = choose|k: int| 0 <= k < ns.len() && ns[k] == name@;
            assert(false);
        }
    }
    false
}

/// A mesh descriptor reduced to its topology counts: what the store keeps
/// once the descriptors are consumed.
pub open spec fn topology_of(mesh: MeshDataV) -> MeshDataV {
    MeshDataV {
        num_vertices: mesh.num_vertices,
        num_edges: mesh.num_edges,
        num_polygons: mesh.num_polygons,
        num_corners: mesh.num_corners,
        attributes: Seq::empty(),
    }
}

/// What decoding one descriptor against the blob files yields: the blob it
/// names is looked up (a missing blob is a read failure), its byte range is
/// decoded under the declared element type, and the frame index is
/// attached.
pub open spec fn spec_read_blob(blobs: Seq<BlobFileV>, attr: RawAttributeV, frame: u32) -> Result<
    AttributeV,
    MetaReadError,
> {
    match spec_blob_lookup(blobs, attr.data.name) {
        None => Err(MetaReadError::Io),
        Some(bytes) => match crate::bake_reader::blob::spec_decode(
            bytes,
            attr.data.start,
            attr.data.size,
            attr.attribute_type,
        ) {
            Err(e) => Err(e),
            Ok(data) => Ok(
                AttributeV {
                    name: attr.name,
                    domain: attr.domain,
                    frame,
                    attribute_type: attr.attribute_type,
                    data,
                },
            ),
        },
    }
}

/// One decoded attribute filed into the table of its domain.
pub open spec fn spec_file_attribute(dom: DomainsV, a: AttributeV) -> DomainsV {
    match a.domain {
        api::Domain::POINT => DomainsV {
            point: spec_push_series(dom.point, a),
            edge: dom.edge,
            face: dom.face,
            corner: dom.corner,
        },
        api::Domain::EDGE => DomainsV {
            point: dom.point,
            edge: spec_push_series(dom.edge, a),
            face: dom.face,
            corner: dom.corner,
        },
        api::Domain::FACE => DomainsV {
            point: dom.point,
            edge: dom.edge,
            face: spec_push_series(dom.face, a),
            corner: dom.corner,
        },
        api::Domain::CORNER => DomainsV {
            point: dom.point,
            edge: dom.edge,
            face: dom.face,
            corner: spec_push_series(dom.corner, a),
        },
    }
}

/// One frame's descriptors folded into the tables, left to right, failing
/// fast: a descriptor outside the retained set is skipped; any other is
/// decoded and must hold one element per mesh element of its domain, a
/// mismatch being a topology failure.
pub open spec fn spec_process_attrs(
    dom: DomainsV,
    frame: u32,
    mesh: MeshDataV,
    attrs: Seq<RawAttributeV>,
    blobs: Seq<BlobFileV>,
    retained: Seq<Seq<char>>,
) -> Result<DomainsV, MetaReadError>
    decreases attrs.len(),
{
    if attrs.len() == 0 {
        Ok(dom)
    } else {
        let a = attrs[0];
        if !retained.contains(a.name) {
            spec_process_attrs(dom, frame, mesh, attrs.drop_first(), blobs, retained)
        } else {
            match spec_read_blob(blobs, a, frame) {
                Err(e) => Err(e),
                Ok(attr) => if attr.data.len() != mesh.domain_count(a.domain) {
                    Err(MetaReadError::TopologyMismatch)
                } else {
                    spec_process_attrs(
                        spec_file_attribute(dom, attr),
                        frame,
                        mesh,
                        attrs.drop_first(),
                        blobs,
                        retained,
                    )
                },
            }
        }
    }
}

/// One parsed frame fed into a builder: the first frame establishes the
/// topology, every later frame must agree with it, and the frame's retained
/// descriptors are decoded and filed.
pub open spec fn spec_process_frame(
    b: GeometryBuilderV,
    frame: u32,
    mesh: MeshDataV,
    blobs: Seq<BlobFileV>,
    retained: Seq<Seq<char>>,
) -> Result<GeometryBuilderV, MetaReadError> {
    match b.mesh {
        None => match spec_process_attrs(b.domain, frame, mesh, mesh.attributes, blobs, retained) {
            Err(e) => Err(e),
            Ok(dom) => Ok(GeometryBuilderV { mesh: Some(topology_of(mesh)), domain: dom }),
        },
        Some(m) => if !m.same_topology(mesh) {
            Err(MetaReadError::TopologyMismatch)
        } else {
            match spec_process_attrs(b.domain, frame, mesh, mesh.attributes, blobs, retained) {
                Err(e) => Err(e),
                Ok(dom) => Ok(GeometryBuilderV { mesh: Some(m), domain: dom }),
            }
        },
    }
}

/// Whether every domain's table is consistent under `mesh`, short of frame
/// ordering.
pub open spec fn domains_entries_wf(dom: DomainsV, mesh: MeshDataV) -> bool {
    &&& geometry::bucket_entries_wf(dom.point, api::Domain::POINT, mesh)
    &&& geometry::bucket_entries_wf(dom.edge, api::Domain::EDGE, mesh)
    &&& geometry::bucket_entries_wf(dom.face, api::Domain::FACE, mesh)
    &&& geometry::bucket_entries_wf(dom.corner, api::Domain::CORNER, mesh)
}

/// Whether every series of a table carries a retained name.
pub open spec fn bucket_names_retained(b: Seq<AttributeSeriesV>, names: Seq<Seq<char>>) -> bool {
    forall|i: int| 0 <= i < b.len() ==> names.contains((#[trigger] b[i]).name)
}

/// Whether every series of every table carries a retained name.
pub open spec fn domains_names_retained(dom: DomainsV, names: Seq<Seq<char>>) -> bool {
    &&& bucket_names_retained(dom.point, names)
    &&& bucket_names_retained(dom.edge, names)
    &&& bucket_names_retained(dom.face, names)
    &&& bucket_names_retained(dom.corner, names)
}

/// Filing an entry with a retained name keeps a table's names retained.
proof fn lemma_push_series_retained(b: Seq<AttributeSeriesV>, a: AttributeV, names: Seq<Seq<char>>)
    requires
        bucket_names_retained(b, names),
        names.contains(a.name),
    ensures
        bucket_names_retained(spec_push_series(b, a), names),
    decreases b.len(),
{
    let r = spec_push_series(b, a);
    if b.len() == 0 {
        assert(r[0].name == a.name);
    } else if b[0].name == a.name {
        assert forall|i: int| 0 <= i < r.len() implies names.contains((#[trigger] r[i]).name) by {
            if i > 0 {
                assert(r[i] == b[i]);
            }
        }
    } else {
        assert(bucket_names_retained(b.drop_first(), names)) by {
            assert forall|i: int| 0 <= i < b.drop_first().len() implies names.contains(
                (#[trigger] b.drop_first()[i]).name,
            ) by {
                assert(b.drop_first()[i] == b[i + 1]);
            }
        }
        lemma_push_series_retained(b.drop_first(), a, names);
        let rr = spec_push_series(b.drop_first(), a);
        assert forall|i: int| 0 <= i < r.len() implies names.contains((#[trigger] r[i]).name) by {
            if i > 0 {
                assert(r[i] == rr[i - 1]);
            }
        }
    }
}

/// Filing a well-formed, retained entry keeps the tables consistent.
proof fn lemma_file_attribute_wf(
    dom: DomainsV,
    a: AttributeV,
    mesh: MeshDataV,
    names: Seq<Seq<char>>,
)
    requires
        domains_entries_wf(dom, mesh),
        domains_names_retained(dom, names),
        geometry::entry_wf(a, a.name, a.domain, mesh),
        names.contains(a.name),
    ensures
        domains_entries_wf(spec_file_attribute(dom, a), mesh),
        domains_names_retained(spec_file_attribute(dom, a), names),
{
    match a.domain {
        api::Domain::POINT => {
            geometry::lemma_push_series_wf(dom.point, a, api::Domain::POINT, mesh);
            lemma_push_series_retained(dom.point, a, names);
        },
        api::Domain::EDGE => {
            geometry::lemma_push_series_wf(dom.edge, a, api::Domain::EDGE, mesh);
            lemma_push_series_retained(dom.edge, a, names);
        },
        api::Domain::FACE => {
            geometry::lemma_push_series_wf(dom.face, a, api::Domain::FACE, mesh);
            lemma_push_series_retained(dom.face, a, names);
        },
        api::Domain::CORNER => {
            geometry::lemma_push_series_wf(dom.corner, a, api::Domain::CORNER, mesh);
            lemma_push_series_retained(dom.corner, a, names);
        },
    }
}

/// A successful decode yields a payload of the declared variant.
proof fn lemma_decode_has_type(bytes: Seq<u8>, start: u64, size: u64, t: api::AttributeType)
    requires
        crate::bake_reader::blob::spec_decode(bytes, start, size, t) is Ok,
    ensures
        (crate::bake_reader::blob::spec_decode(bytes, start, size, t)->Ok_0).has_type(t),
{
}

/// Folding a frame's descriptors keeps the tables consistent and their
/// names retained, under any topology the frame's mesh agrees with.
proof fn lemma_process_attrs_wf(
    dom: DomainsV,
    frame: u32,
    topo: MeshDataV,
    mesh: MeshDataV,
    attrs: Seq<RawAttributeV>,
    blobs: Seq<BlobFileV>,
    names: Seq<Seq<char>>,
)
    requires
        domains_entries_wf(dom, topo),
        domains_names_retained(dom, names),
        topo.same_topology(mesh),
        spec_process_attrs(dom, frame, mesh, attrs, blobs, names) is Ok,
    ensures
        domains_entries_wf(spec_process_attrs(dom, frame, mesh, attrs, blobs, names)->Ok_0, topo),
        domains_names_retained(
            spec_process_attrs(dom, frame, mesh, attrs, blobs, names)->Ok_0,
            names,
        ),
    decreases attrs.len(),
{
    if attrs.len() == 0 {
    } else {
        let a = attrs[0];
        if !names.contains(a.name) {
            lemma_process_attrs_wf(dom, frame, topo, mesh, attrs.drop_first(), blobs, names);
        } else {
            let rb = spec_read_blob(blobs, a, frame);
            assert(rb is Ok);
            let attr = rb->Ok_0;
            assert(attr.data.len() == mesh.domain_count(a.domain));
            assert(geometry::entry_wf(attr, attr.name, attr.domain, topo)) by {
                let bytes = spec_blob_lookup(blobs, a.data.name)->0;
                lemma_decode_has_type(bytes, a.data.start, a.data.size, a.attribute_type);
                assert(topo.domain_count(a.domain) == mesh.domain_count(a.domain));
            }
            lemma_file_attribute_wf(dom, attr, topo, names);
            lemma_process_attrs_wf(
                spec_file_attribute(dom, attr),
                frame,
                topo,
                mesh,
                attrs.drop_first(),
                blobs,
                names,
            );
        }
    }
}

/// Feeding a frame into a well-formed builder keeps it well formed, keeps
/// its names retained, and leaves a topology established.
pub proof fn lemma_process_frame_wf(
    b: GeometryBuilderV,
    frame: u32,
    mesh: MeshDataV,
    blobs: Seq<BlobFileV>,
    names: Seq<Seq<char>>,
)
    requires
        b.wf(),
        domains_names_retained(b.domain, names),
        spec_process_frame(b, frame, mesh, blobs, names) is Ok,
    ensures
        (spec_process_frame(b, frame, mesh, blobs, names)->Ok_0).wf(),
        domains_names_retained(spec_process_frame(b, frame, mesh, blobs, names)->Ok_0.domain, names),
        spec_process_frame(b, frame, mesh, blobs, names)->Ok_0.mesh is Some,
{
    match b.mesh {
        None => {
            let topo = topology_of(mesh);
            assert(domains_entries_wf(b.domain, topo));
            lemma_process_attrs_wf(b.domain, frame, topo, mesh, mesh.attributes, blobs, names);
        },
        Some(m) => {
            assert(m.same_topology(mesh));
            assert(domains_entries_wf(b.domain, m));
            lemma_process_attrs_wf(b.domain, frame, m, mesh, mesh.attributes, blobs, names);
        },
    }
}

/// The frame index a file name carries, once [`has_frame_number`] holds of
/// it.
pub open spec fn file_frame(name: Seq<char>) -> u32 {
    digits_value(frame_token(name)) as u32
}

/// The frame indices that a run of metadata files carries in its names.
pub open spec fn metas_frames(metas: Seq<MetaFile>) -> Set<u32> {
    Set::new(
        |f: u32|
            exists|k: int|
                0 <= k < metas.len() && has_frame_number((#[trigger] metas[k])@.name) && file_frame(
                    metas[k]@.name,
                ) == f,
    )
}

/// Whether every entry of a table carries a frame index drawn from `s`.
pub open spec fn bucket_frames_in(b: Seq<AttributeSeriesV>, s: Set<u32>) -> bool {
    forall|i: int, j: int|
        0 <= i < b.len() && 0 <= j < b[i].frames.len() ==> s.contains(
            (#[trigger] b[i].frames[j]).frame,
        )
}

/// Whether every entry of every table carries a frame index drawn from `s`.
pub open spec fn domains_frames_in(dom: DomainsV, s: Set<u32>) -> bool {
    &&& bucket_frames_in(dom.point, s)
    &&& bucket_frames_in(dom.edge, s)
    &&& bucket_frames_in(dom.face, s)
    &&& bucket_frames_in(dom.corner, s)
}

/// Filing an entry whose frame is drawn from `s` keeps a table's frames in
/// `s`.
proof fn lemma_push_series_frames(b: Seq<AttributeSeriesV>, a: AttributeV, s: Set<u32>)
    requires
        bucket_frames_in(b, s),
        s.contains(a.frame),
    ensures
        bucket_frames_in(spec_push_series(b, a), s),
{
    if exists|k: int| 0 <= k < b.len() && (#[trigger] b[k]).name == a.name {
        let i = geometry::first_name_index(b, a.name);
        geometry::lemma_push_series_found(b, a, i);
        let r = b.update(i, AttributeSeriesV { name: b[i].name, frames: b[i].frames.push(a) });
        assert forall|i2: int, j2: int|
            0 <= i2 < r.len() && 0 <= j2 < r[i2].frames.len() implies s.contains(
            (#[trigger] r[i2].frames[j2]).frame,
        ) by {
            if i2 == i {
                if j2 < b[i].frames.len() {
                    assert(r[i2].frames[j2] == b[i].frames[j2]);
                }
            } else {
                assert(r[i2] == b[i2]);
            }
        }
    } else {
        geometry::lemma_push_series_absent(b, a);
        let r = b.push(AttributeSeriesV { name: a.name, frames: seq![a] });
        assert forall|i2: int, j2: int|
            0 <= i2 < r.len() && 0 <= j2 < r[i2].frames.len() implies s.contains(
            (#[trigger] r[i2].frames[j2]).frame,
        ) by {
            if i2 < b.len() {
                assert(r[i2] == b[i2]);
            } else {
                assert(r[i2].frames[j2] == a);
            }
        }
    }
}

/// Folding a frame's descriptors only files entries carrying that frame.
proof fn lemma_process_attrs_frames(
    dom: DomainsV,
    frame: u32,
    mesh: MeshDataV,
    attrs: Seq<RawAttributeV>,
    blobs: Seq<BlobFileV>,
    names: Seq<Seq<char>>,
    s: Set<u32>,
)
    requires
        domains_frames_in(dom, s),
        s.contains(frame),
        spec_process_attrs(dom, frame, mesh, attrs, blobs, names) is Ok,
    ensures
        domains_frames_in(spec_process_attrs(dom, frame, mesh, attrs, blobs, names)->Ok_0, s),
    decreases attrs.len(),
{
    if attrs.len() == 0 {
    } else {
        let a = attrs[0];
        if !names.contains(a.name) {
            lemma_process_attrs_frames(dom, frame, mesh, attrs.drop_first(), blobs, names, s);
        } else {
            let attr = spec_read_blob(blobs, a, frame)->Ok_0;
            match a.domain {
                api::Domain::POINT => lemma_push_series_frames(dom.point, attr, s),
                api::Domain::EDGE => lemma_push_series_frames(dom.edge, attr, s),
                api::Domain::FACE => lemma_push_series_frames(dom.face, attr, s),
                api::Domain::CORNER => lemma_push_series_frames(dom.corner, attr, s),
            }
            lemma_process_attrs_frames(
                spec_file_attribute(dom, attr),
                frame,
                mesh,
                attrs.drop_first(),
                blobs,
                names,
                s,
            );
        }
    }
}

/// Feeding a frame drawn from `s` keeps every filed frame drawn from `s`.
proof fn lemma_process_frame_frames(
    b: GeometryBuilderV,
    frame: u32,
    mesh: MeshDataV,
    blobs: Seq<BlobFileV>,
    names: Seq<Seq<char>>,
    s: Set<u32>,
)
    requires
        domains_frames_in(b.domain, s),
        s.contains(frame),
        spec_process_frame(b, frame, mesh, blobs, names) is Ok,
    ensures
        domains_frames_in(spec_process_frame(b, frame, mesh, blobs, names)->Ok_0.domain, s),
{
    lemma_process_attrs_frames(b.domain, frame, mesh, mesh.attributes, blobs, names, s);
}

/// The sort pass never changes which frames a table holds.
proof fn lemma_sorted_bucket_frames(
    new: Seq<AttributeSeriesV>,
    old_: Seq<AttributeSeriesV>,
    s: Set<u32>,
)
    requires
        bucket_frames_in(old_, s),
        geometry::series_sorted_version(new, old_),
    ensures
        bucket_frames_in(new, s),
{
    broadcast use vstd::seq_lib::group_to_multiset_ensures;
    broadcast use vstd::multiset::group_multiset_axioms;

    assert forall|i: int, j: int|
        0 <= i < new.len() && 0 <= j < new[i].frames.len() implies s.contains(
        (#[trigger] new[i].frames[j]).frame,
    ) by {
        let x = new[i].frames[j];
        assert(new[i].frames.contains(x));
        assert(new[i].frames.to_multiset().count(x) > 0);
        assert(old_[i].frames.to_multiset().count(x) > 0);
        assert(old_[i].frames.contains(x));
        let k = choose|k: int| 0 <= k < old_[i].frames.len() && old_[i].frames[k] == x;
        assert(s.contains(old_[i].frames[k].frame));
    }
}

/// The views of a run of metadata files.
pub open spec fn meta_views(s: Seq<MetaFile>) -> Seq<MetaFileV> {
    s.map_values(|m: MetaFile| m@)
}

/// What reading one metadata file into a builder yields: the frame index
/// extracted from the file name, the designated item of the document the
/// file's bytes parse to, and that frame fed to the builder — with the
/// first failure's error otherwise.
pub open spec fn spec_read_meta(
    b: GeometryBuilderV,
    file: MetaFileV,
    blobs: Seq<BlobFileV>,
    retained: Seq<Seq<char>>,
) -> Result<GeometryBuilderV, MetaReadError> {
    if !has_frame_number(file.name) {
        Err(MetaReadError::ParseIntError)
    } else {
        match meta::spec_parse_item(meta::json_doc(file.bytes)) {
            Err(e) => Err(e),
            Ok(item) => spec_process_frame(b, file_frame(file.name), item.data.mesh, blobs, retained),
        }
    }
}

/// Every metadata file folded into a builder, in order, fail-fast.
pub open spec fn spec_load_frames(
    b: GeometryBuilderV,
    metas: Seq<MetaFileV>,
    blobs: Seq<BlobFileV>,
    retained: Seq<Seq<char>>,
) -> Result<GeometryBuilderV, MetaReadError>
    decreases metas.len(),
{
    if metas.len() == 0 {
        Ok(b)
    } else {
        match spec_read_meta(b, metas[0], blobs, retained) {
            Err(e) => Err(e),
            Ok(b2) => spec_load_frames(b2, metas.drop_first(), blobs, retained),
        }
    }
}

/// The empty builder every assembly starts from.
pub open spec fn spec_empty_builder() -> GeometryBuilderV {
    GeometryBuilderV {
        mesh: None,
        domain: DomainsV {
            point: Seq::empty(),
            edge: Seq::empty(),
            face: Seq::empty(),
            corner: Seq::empty(),
        },
    }
}

/// What assembling a whole directory yields: an empty file set supplies no
/// designated item; otherwise every file is folded in order, fail-fast,
/// and the sort pass orders every series. A nonempty successful fold
/// always establishes a topology, so the `mesh` read on success is the
/// one the first file supplied.
pub open spec fn spec_load_meta(
    metas: Seq<MetaFileV>,
    blobs: Seq<BlobFileV>,
    retained: Seq<Seq<char>>,
) -> Result<geometry::GeometryV, MetaReadError> {
    if metas.len() == 0 {
        Err(MetaReadError::ItemNotFound)
    } else {
        match spec_load_frames(spec_empty_builder(), metas, blobs, retained) {
            Err(e) => Err(e),
            Ok(b) => match geometry::spec_sort_frames(b) {
                Err(e) => Err(e),
                Ok(b2) => Ok(geometry::GeometryV { mesh: b2.mesh->0, domain: b2.domain }),
            },
        }
    }
}

/// Sorting a consistent table yields a fully consistent one: reordering a
/// series never changes which entries it holds.
proof fn lemma_sorted_bucket_wf(
    new: Seq<AttributeSeriesV>,
    old_: Seq<AttributeSeriesV>,
    domain: api::Domain,
    mesh: MeshDataV,
)
    requires
        geometry::bucket_entries_wf(old_, domain, mesh),
        geometry::series_sorted_version(new, old_),
    ensures
        geometry::bucket_wf(new, domain, mesh),
    decreases new.len(),
{
    broadcast use vstd::seq_lib::group_to_multiset_ensures;
    broadcast use vstd::multiset::group_multiset_axioms;

    assert forall|i: int| 0 <= i < new.len() implies geometry::series_entries_wf(
        #[trigger] new[i],
        domain,
        mesh,
    ) by {
        assert forall|j: int| 0 <= j < new[i].frames.len() implies geometry::entry_wf(
            #[trigger] new[i].frames[j],
            new[i].name,
            domain,
            mesh,
        ) by {
            let x = new[i].frames[j];
            assert(new[i].frames.contains(x));
            assert(new[i].frames.to_multiset().count(x) > 0);
            assert(old_[i].frames.to_multiset().count(x) > 0);
            assert(old_[i].frames.contains(x));
            let k = choose|k: int| 0 <= k < old_[i].frames.len() && old_[i].frames[k] == x;
            assert(geometry::series_entries_wf(old_[i], domain, mesh));
            assert(geometry::entry_wf(old_[i].frames[k], old_[i].name, domain, mesh));
        }
    }
    assert(geometry::bucket_names_unique(new)) by {
        assert forall|i: int, j: int| 0 <= i < j < new.len() implies new[i].name != new[j].name by {
            assert(old_[i].name != old_[j].name);
        }
    }
}

/// Names stay retained through the sort pass.
proof fn lemma_sorted_bucket_retained(
    new: Seq<AttributeSeriesV>,
    old_: Seq<AttributeSeriesV>,
    names: Seq<Seq<char>>,
)
    requires
        bucket_names_retained(old_, names),
        geometry::series_sorted_version(new, old_),
    ensures
        bucket_names_retained(new, names),
{
    assert forall|i: int| 0 <= i < new.len() implies names.contains((#[trigger] new[i]).name) by {
        assert(new[i].name == old_[i].name);
        assert(names.contains(old_[i].name));
    }
}

/// The reader: where the bake lives and which attribute names to retain.
/// Any attribute outside the retained set is skipped, never decoded.
#[derive(Debug, PartialEq)]
pub struct BakeReader {
    pub base_path: String,
    pub attributes: Vec<String>,
}

impl BakeReader {
    /// A reader for the bake under `base_path`, retaining exactly the named
    /// attributes.
    pub fn new(base_path: &str, attributes: Vec<String>) -> (r: BakeReader)
        ensures
            r.base_path@ == base_path@,
            r.attributes == attributes,
    {
        BakeReader { base_path: base_path.to_owned(), attributes }
    }

    /// Decode one descriptor's payload from the blob files and attach the
    /// frame index: exactly [`spec_read_blob`]. A blob name no file carries
    /// fails as `Io`, like the failed open it stands for.
    fn read_blob(&self, blobs: &Vec<BlobFile>, attribute: RawAttribute, frame: u32) -> (r: Result<
        Attribute,
        MetaReadError,
    >)
        ensures
            result_view(r) == spec_read_blob(blob_views(blobs@), attribute@, frame),
    {
        let ghost av = attribute@;
        let idx = match find_blob(blobs, &attribute.data.name) {
            Some(i) => i,
            None => {
                return Err(MetaReadError::Io);
            },
        };
        let data = match crate::bake_reader::blob::decode(
            &blobs[idx].bytes,
            attribute.data.start,
            attribute.data.size,
            &attribute.attribute_type,
        ) {
            Ok(d) => d,
            Err(e) => {
                return Err(e);
            },
        };
        let result = Attribute {
            name: attribute.name,
            domain: attribute.domain,
            frame,
            attribute_type: attribute.attribute_type,
            data,
        };
        Ok(result)
    }

    /// Feed one parsed frame into the builder: exactly
    /// [`spec_process_frame`]. The first frame establishes the topology;
    /// a later frame disagreeing with it, or a decoded payload whose length
    /// disagrees with its domain's count, is refused as `TopologyMismatch`.
    /// On an error the whole assembly is abandoned, so nothing is promised
    /// of the builder's state then.
    #[verifier::loop_isolation(false)]
    pub fn process_frame(
        &self,
        builder: &mut GeometryBuilder,
        frame: u32,
        mesh: MeshData,
        blobs: &Vec<BlobFile>,
    ) -> (r: Result<(), MetaReadError>)
        ensures
            r is Ok ==> Ok::<GeometryBuilderV, MetaReadError>(final(builder)@) == spec_process_frame(
                old(builder)@,
                frame,
                mesh@,
                blob_views(blobs@),
                name_views(self.attributes@),
            ),
            r is Err ==> Err::<GeometryBuilderV, MetaReadError>(r->Err_0) == spec_process_frame(
                old(builder)@,
                frame,
                mesh@,
                blob_views(blobs@),
                name_views(self.attributes@),
            ),
    {
        let ghost b0 = old(builder)@;
        let ghost mv = mesh@;
        let ghost ret = name_views(self.attributes@);
        let ghost bvs = blob_views(blobs@);
        match &builder.mesh {
            Some(m) => {
                if !(m.num_vertices == mesh.num_vertices && m.num_edges == mesh.num_edges
                    && m.num_polygons == mesh.num_polygons && m.num_corners == mesh.num_corners) {
                    return Err(MetaReadError::TopologyMismatch);
                }
            },
            None => {
                let topology = MeshData {
                    num_vertices: mesh.num_vertices,
                    num_edges: mesh.num_edges,
                    num_polygons: mesh.num_polygons,
                    num_corners: mesh.num_corners,
                    attributes: Vec::new(),
                };
                proof {
                    assert(topology@.attributes =~= Seq::<RawAttributeV>::empty());
                    assert(topology@ == topology_of(mv));
                }
                builder.mesh = Some(topology);
            },
        }
        let ghost bm = builder@.mesh;
        let nv = mesh.num_vertices;
        let ne = mesh.num_edges;
        let np = mesh.num_polygons;
        let nc = mesh.num_corners;
        let mut attrs = mesh.attributes;
        proof {
            assert(raw_views(attrs@) == mv.attributes);
        }
        while attrs.len() > 0
            invariant
                builder@.mesh == bm,
                spec_process_attrs(b0.domain, frame, mv, mv.attributes, bvs, ret)
                    == spec_process_attrs(builder@.domain, frame, mv, raw_views(attrs@), bvs, ret),
            decreases attrs@.len(),
        {
            let ghost residual = raw_views(attrs@);
            let ghost dom_pre = builder@.domain;
            let ra = attrs.remove(0);
            let ghost rav = ra@;
            proof {
                assert(rav == residual[0]);
                assert(raw_views(attrs@) =~= residual.drop_first());
            }
            if !contains_name(&self.attributes, &ra.name) {
                proof {
                    assert(spec_process_attrs(dom_pre, frame, mv, residual, bvs, ret)
                        == spec_process_attrs(dom_pre, frame, mv, residual.drop_first(), bvs, ret));
                }
            } else {
                let attribute = match self.read_blob(blobs, ra, frame) {
                    Ok(a) => a,
                    Err(e) => {
                        proof {
                            assert(spec_process_attrs(dom_pre, frame, mv, residual, bvs, ret)
                                == Err::<DomainsV, MetaReadError>(e));
                        }
                        return Err(e);
                    },
                };
                let ghost dav = attribute@;
                proof {
                    assert(Ok::<AttributeV, MetaReadError>(dav) == spec_read_blob(bvs, rav, frame));
                }
                let count = match &attribute.domain {
                    api::Domain::POINT => nv,
                    api::Domain::EDGE => ne,
                    api::Domain::FACE => np,
                    api::Domain::CORNER => nc,
                };
                let data_len = attribute.data.len();
                if data_len as u64 != count {
                    proof {
                        assert(dav.data.len() != mv.domain_count(rav.domain));
                        assert(spec_process_attrs(dom_pre, frame, mv, residual, bvs, ret)
                            == Err::<DomainsV, MetaReadError>(MetaReadError::TopologyMismatch));
                    }
                    return Err(MetaReadError::TopologyMismatch);
                }
                proof {
                    assert(dav.data.len() == mv.domain_count(rav.domain));
                }
                match &attribute.domain {
                    api::Domain::POINT => geometry::push_attribute(
                        &mut builder.domain.point,
                        attribute,
                    ),
                    api::Domain::EDGE => geometry::push_attribute(
                        &mut builder.domain.edge,
                        attribute,
                    ),
                    api::Domain::FACE => geometry::push_attribute(
                        &mut builder.domain.face,
                        attribute,
                    ),
                    api::Domain::CORNER => geometry::push_attribute(
                        &mut builder.domain.corner,
                        attribute,
                    ),
                }
                proof {
                    assert(builder@.domain == spec_file_attribute(dom_pre, dav));
                    assert(spec_process_attrs(dom_pre, frame, mv, residual, bvs, ret)
                        == spec_process_attrs(
                        spec_file_attribute(dom_pre, dav),
                        frame,
                        mv,
                        residual.drop_first(),
                        bvs,
                        ret,
                    ));
                }
            }
        }
        proof {
            assert(raw_views(attrs@) =~= Seq::<RawAttributeV>::empty());
            assert(spec_process_attrs(b0.domain, frame, mv, mv.attributes, bvs, ret)
                == Ok::<DomainsV, MetaReadError>(builder@.domain));
        }
        Ok(())
    }

    /// Read one metadata file into the builder: extract the frame index
    /// from the file name, parse the document, and feed the parsed frame to
    /// [`BakeReader::process_frame`]. Exactly [`spec_read_meta`].
    fn read_meta(
        &self,
        builder: &mut GeometryBuilder,
        file: &MetaFile,
        blobs: &Vec<BlobFile>,
    ) -> (r: Result<(), MetaReadError>)
        ensures
            r is Ok ==> Ok::<GeometryBuilderV, MetaReadError>(final(builder)@) == spec_read_meta(
                old(builder)@,
                file@,
                blob_views(blobs@),
                name_views(self.attributes@),
            ),
            r is Err ==> Err::<GeometryBuilderV, MetaReadError>(r->Err_0) == spec_read_meta(
                old(builder)@,
                file@,
                blob_views(blobs@),
                name_views(self.attributes@),
            ),
    {
        let frame_number = match get_frame_number(file.name.as_str()) {
            Ok(n) => n,
            Err(e) => {
                return Err(e);
            },
        };
        proof {
            assert(all_digits(frame_token(file@.name)));
            lemma_digits_value_nonneg(frame_token(file@.name));
            assert(frame_number == file_frame(file@.name));
        }
        let item = match meta::parse_item(&file.bytes) {
            Ok(it) => it,
            Err(e) => {
                return Err(e);
            },
        };
        match item.item_type {
            api::ItemType::GEOMETRY => {},
        }
        proof {
            assert(meta::spec_parse_item(meta::json_doc(file@.bytes))->Ok_0 == item@);
        }
        let mesh = item.data.mesh;
        let ghost mv = mesh@;
        match self.process_frame(builder, frame_number, mesh, blobs) {
            Ok(()) => {
                proof {
                    assert(Ok::<GeometryBuilderV, MetaReadError>(builder@) == spec_process_frame(
                        old(builder)@,
                        file_frame(file@.name),
                        mv,
                        blob_views(blobs@),
                        name_views(self.attributes@),
                    ));
                }
                Ok(())
            },
            Err(e) => Err(e),
        }
    }

    /// Assemble the whole store from the metadata and blob files of one
    /// bake directory: exactly [`spec_load_meta`]. Every file is read in
    /// order, fail-fast — the first per-file failure (frame index, parse,
    /// item lookup, topology, blob decode) is returned and no partial store
    /// ever is — then the sort pass orders every series strictly ascending
    /// by frame, refusing a repeated frame index. An empty file set
    /// supplies no designated item and is refused as `ItemNotFound`. On
    /// success the store satisfies its full invariant, every series
    /// carries a retained name, and every frame index comes from a file
    /// name.
    #[verifier::loop_isolation(false)]
    pub fn load_meta(&self, metas: &Vec<MetaFile>, blobs: &Vec<BlobFile>) -> (r: Result<
        Geometry,
        MetaReadError,
    >)
        ensures
            result_view(r) == spec_load_meta(
                meta_views(metas@),
                blob_views(blobs@),
                name_views(self.attributes@),
            ),
            r is Ok ==> r->Ok_0@.wf(),
            r is Ok ==> domains_names_retained(r->Ok_0@.domain, name_views(self.attributes@)),
            r is Ok ==> forall|k: int|
                0 <= k < metas@.len() ==> has_frame_number((#[trigger] metas@[k])@.name),
            r is Ok ==> domains_frames_in(r->Ok_0@.domain, metas_frames(metas@)),
    {
        let ghost ret = name_views(self.attributes@);
        let ghost mvs = meta_views(metas@);
        let ghost bvs = blob_views(blobs@);
        let ghost frames_seen = metas_frames(metas@);
        if metas.len() == 0 {
            return Err(MetaReadError::ItemNotFound);
        }
        let mut builder = GeometryBuilder::new();
        proof {
            assert(builder@ == spec_empty_builder());
            assert(mvs.skip(0) =~= mvs);
        }
        let mut i: usize = 0;
        while i < metas.len()
            invariant
                i <= metas@.len(),
                spec_load_frames(spec_empty_builder(), mvs, bvs, ret) == spec_load_frames(
                    builder@,
                    mvs.skip(i as int),
                    bvs,
                    ret,
                ),
                builder@.wf(),
                domains_names_retained(builder@.domain, ret),
                domains_frames_in(builder@.domain, frames_seen),
                forall|k: int| 0 <= k < i ==> has_frame_number((#[trigger] metas@[k])@.name),
                i > 0 ==> builder@.mesh is Some,
            decreases metas@.len() - i,
        {
            let ghost b_pre = builder@;
            let ghost fv = mvs[i as int];
            proof {
                assert(fv == metas@[i as int]@);
                assert(mvs.skip(i as int)[0] == fv);
                assert(mvs.skip(i as int).drop_first() =~= mvs.skip(i as int + 1));
            }
            match self.read_meta(&mut builder, &metas[i], blobs) {
                Ok(()) => {},
                Err(e) => {
                    proof {
                        assert(spec_read_meta(b_pre, fv, bvs, ret) == Err::<
                            GeometryBuilderV,
                            MetaReadError,
                        >(e));
                        assert(spec_load_frames(spec_empty_builder(), mvs, bvs, ret) == Err::<
                            GeometryBuilderV,
                            MetaReadError,
                        >(e));
                    }
                    return Err(e);
                },
            }
            proof {
                assert(spec_read_meta(b_pre, fv, bvs, ret) == Ok::<
                    GeometryBuilderV,
                    MetaReadError,
                >(builder@));
                assert(has_frame_number(fv.name));
                let m = meta::spec_parse_item(meta::json_doc(fv.bytes))->Ok_0.data.mesh;
                assert(spec_process_frame(b_pre, file_frame(fv.name), m, bvs, ret) == Ok::<
                    GeometryBuilderV,
                    MetaReadError,
                >(builder@));
                lemma_process_frame_wf(b_pre, file_frame(fv.name), m, bvs, ret);
                assert(frames_seen.contains(file_frame(fv.name)));
                lemma_process_frame_frames(b_pre, file_frame(fv.name), m, bvs, ret, frames_seen);
            }
            i = i + 1;
        }
        proof {
            assert(mvs.skip(metas@.len() as int) =~= Seq::<MetaFileV>::empty());
            assert(spec_load_frames(spec_empty_builder(), mvs, bvs, ret) == Ok::<
                GeometryBuilderV,
                MetaReadError,
            >(builder@));
        }
        let ghost unsorted = builder@;
        match builder.sort_frames() {
            Ok(()) => {},
            Err(e) => {
                proof {
                    assert(geometry::spec_sort_frames(unsorted) == Err::<
                        GeometryBuilderV,
                        MetaReadError,
                    >(e));
                }
                return Err(e);
            },
        }
        proof {
            assert(geometry::spec_sort_frames(unsorted) == Ok::<GeometryBuilderV, MetaReadError>(
                builder@,
            ));
            let m = unsorted.mesh->0;
            lemma_sorted_bucket_wf(builder@.domain.point, unsorted.domain.point, api::Domain::POINT, m);
            lemma_sorted_bucket_wf(builder@.domain.edge, unsorted.domain.edge, api::Domain::EDGE, m);
            lemma_sorted_bucket_wf(builder@.domain.face, unsorted.domain.face, api::Domain::FACE, m);
            lemma_sorted_bucket_wf(
                builder@.domain.corner,
                unsorted.domain.corner,
                api::Domain::CORNER,
                m,
            );
            lemma_sorted_bucket_retained(builder@.domain.point, unsorted.domain.point, ret);
            lemma_sorted_bucket_retained(builder@.domain.edge, unsorted.domain.edge, ret);
            lemma_sorted_bucket_retained(builder@.domain.face, unsorted.domain.face, ret);
            lemma_sorted_bucket_retained(builder@.domain.corner, unsorted.domain.corner, ret);
            lemma_sorted_bucket_frames(builder@.domain.point, unsorted.domain.point, frames_seen);
            lemma_sorted_bucket_frames(builder@.domain.edge, unsorted.domain.edge, frames_seen);
            lemma_sorted_bucket_frames(builder@.domain.face, unsorted.domain.face, frames_seen);
            lemma_sorted_bucket_frames(builder@.domain.corner, unsorted.domain.corner, frames_seen);
        }
        let geometry = builder.build();
        proof {
            assert(geometry@ == geometry::GeometryV {
                mesh: builder@.mesh->0,
                domain: builder@.domain,
            });
        }
        Ok(geometry)
    }
}

} // verus!

