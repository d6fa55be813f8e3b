//! The finalized, queryable geometry store and the builder that accumulates
//! it frame by frame.

use vstd::multiset::Multiset;
use vstd::prelude::*;

use crate::bake_reader::api::{AttributeType, Domain, MeshData, MeshDataV};
use crate::errors::MetaReadError;

verus! {

/// The mathematical value of one decoded attribute payload.
#[allow(non_camel_case_types)]
pub enum AttributeDataV {
    FLOAT(Seq<u32>),
    BOOL(Seq<bool>),
    INT(Seq<i32>),
    FLOAT_VECTOR(Seq<(u32, u32, u32)>),
    INT32_2D(Seq<(i32, i32)>),
}

/// One decoded attribute payload: a densely packed array of one element per
/// mesh element of the attribute's domain.
///
/// A `FLOAT` or `FLOAT_VECTOR` element is held as the raw bit pattern of a
/// little-endian IEEE-754 single-precision value, exactly as the blob stores
/// it; turning bits into native floats is display work and happens outside
/// this crate.
#[allow(non_camel_case_types)]
#[derive(Debug, PartialEq)]
pub enum AttributeData {
    FLOAT(Vec<u32>),
    BOOL(Vec<bool>),
    INT(Vec<i32>),
    FLOAT_VECTOR(Vec<(u32, u32, u32)>),
    INT32_2D(Vec<(i32, i32)>),
}

impl View for AttributeData {
    type V = AttributeDataV;

    open spec fn view(&self) -> AttributeDataV {
        match self {
            AttributeData::FLOAT(v) => AttributeDataV::FLOAT(v@),
            AttributeData::BOOL(v) => AttributeDataV::BOOL(v@),
            AttributeData::INT(v) => AttributeDataV::INT(v@),
            AttributeData::FLOAT_VECTOR(v) => AttributeDataV::FLOAT_VECTOR(v@),
            AttributeData::INT32_2D(v) => AttributeDataV::INT32_2D(v@),
        }
    }
}

impl AttributeDataV {
    /// How many elements the payload holds.
    pub open spec fn len(self) -> nat {
        match self {
            AttributeDataV::FLOAT(s) => s.len(),
            AttributeDataV::BOOL(s) => s.len(),
            AttributeDataV::INT(s) => s.len(),
            AttributeDataV::FLOAT_VECTOR(s) => s.len(),
            AttributeDataV::INT32_2D(s) => s.len(),
        }
    }

    /// Whether the payload's variant is the one `t` declares.
    pub open spec fn has_type(self, t: AttributeType) -> bool {
        match self {
            AttributeDataV::FLOAT(_) => t == AttributeType::FLOAT,
            AttributeDataV::BOOL(_) => t == AttributeType::BOOLEAN,
            AttributeDataV::INT(_) => t == AttributeType::INT,
            AttributeDataV::FLOAT_VECTOR(_) => t == AttributeType::FLOAT_VECTOR,
            AttributeDataV::INT32_2D(_) => t == AttributeType::INT32_2D,
        }
    }
}

impl AttributeData {
    /// How many elements the payload holds.
    pub fn len(&self) -> (n: usize)
        ensures
            n == self@.len(),
    {
        match self {
            AttributeData::FLOAT(v) => v.len(),
            AttributeData::BOOL(v) => v.len(),
            AttributeData::INT(v) => v.len(),
            AttributeData::FLOAT_VECTOR(v) => v.len(),
            AttributeData::INT32_2D(v) => v.len(),
        }
    }
}

/// One element of one decoded attribute, as a point record carries it.
#[allow(non_camel_case_types)]
#[derive(Debug, Clone, Copy, PartialEq)]
pub enum AttributeDataType {
    FLOAT(u32),
    BOOL(bool),
    INT(i32),
    FLOAT_VECTOR((u32, u32, u32)),
    INT32_2D((i32, i32)),
}

/// The element of a payload at position `i`.
pub open spec fn value_at(data: AttributeDataV, i: int) -> AttributeDataType
    recommends
        0 <= i < data.len(),
{
    match data {
        AttributeDataV::FLOAT(s) => AttributeDataType::FLOAT(s[i]),
        AttributeDataV::BOOL(s) => AttributeDataType::BOOL(s[i]),
        AttributeDataV::INT(s) => AttributeDataType::INT(s[i]),
        AttributeDataV::FLOAT_VECTOR(s) => AttributeDataType::FLOAT_VECTOR(s[i]),
        AttributeDataV::INT32_2D(s) => AttributeDataType::INT32_2D(s[i]),
    }
}

/// Read the element of a payload at position `i`.
pub fn element_at(data: &AttributeData, i: usize) -> (v: AttributeDataType)
    requires
        i < data@.len(),
    ensures
        v == value_at(data@, i as int),
{
    match data {
        AttributeData::FLOAT(s) => AttributeDataType::FLOAT(s[i]),
        AttributeData::BOOL(s) => AttributeDataType::BOOL(s[i]),
        AttributeData::INT(s) => AttributeDataType::INT(s[i]),
        AttributeData::FLOAT_VECTOR(s) => AttributeDataType::FLOAT_VECTOR(s[i]),
        AttributeData::INT32_2D(s) => AttributeDataType::INT32_2D(s[i]),
    }
}

/// The mathematical value of one decoded attribute at one frame.
pub struct AttributeV {
    pub name: Seq<char>,
    pub domain: Domain,
    pub frame: u32,
    pub attribute_type: AttributeType,
    pub data: AttributeDataV,
}

/// One attribute decoded from one frame: its identity, the frame index taken
/// from the metadata file name, and the decoded payload.
#[derive(Debug, PartialEq)]
pub struct Attribute {
    pub name: String,
    pub domain: Domain,
    pub frame: u32,
    pub attribute_type: AttributeType,
    pub data: AttributeData,
}

impl View for Attribute {
    type V = AttributeV;

    open spec fn view(&self) -> AttributeV {
        AttributeV {
            name: self.name@,
            domain: self.domain,
            frame: self.frame,
            attribute_type: self.attribute_type,
            data: self.data@,
        }
    }
}

/// The views of a run of decoded attributes.
pub open spec fn attribute_views(s: Seq<Attribute>) -> Seq<AttributeV> {
    s.map_values(|a: Attribute| a@)
}

/// The mathematical value of one attribute's series of frames.
pub struct AttributeSeriesV {
    pub name: Seq<char>,
    pub frames: Seq<AttributeV>,
}

/// Every decoded copy of one attribute, one entry per contributing frame,
/// in ascending frame order once the store is finalized.
#[derive(Debug, PartialEq)]
pub struct AttributeSeries {
    pub name: String,
    pub frames: Vec<Attribute>,
}

impl View for AttributeSeries {
    type V = AttributeSeriesV;

    open spec fn view(&self) -> AttributeSeriesV {
        AttributeSeriesV { name: self.name@, frames: attribute_views(self.frames@) }
    }
}

/// The mathematical value of the four per-domain attribute tables.
pub struct DomainsV {
    pub point: Seq<AttributeSeriesV>,
    pub edge: Seq<AttributeSeriesV>,
    pub face: Seq<AttributeSeriesV>,
    pub corner: Seq<AttributeSeriesV>,
}

/// Per-domain attribute tables: for each mesh domain, the series of every
/// retained attribute defined over it, keyed by attribute name.
#[derive(Debug, PartialEq)]
pub struct Domains {
    pub point: Vec<AttributeSeries>,
    pub edge: Vec<AttributeSeries>,
    pub face: Vec<AttributeSeries>,
    pub corner: Vec<AttributeSeries>,
}

/// The views of a table of series.
pub open spec fn series_views(s: Seq<AttributeSeries>) -> Seq<AttributeSeriesV> {
    s.map_values(|x: AttributeSeries| x@)
}

impl View for Domains {
    type V = DomainsV;

    open spec fn view(&self) -> DomainsV {
        DomainsV {
            point: series_views(self.point@),
            edge: series_views(self.edge@),
            face: series_views(self.face@),
            corner: series_views(self.corner@),
        }
    }
}

impl Domains {
    /// Four empty tables.
    pub fn new() -> (d: Domains)
        ensures
            d@.point == Seq::<AttributeSeriesV>::empty(),
            d@.edge == Seq::<AttributeSeriesV>::empty(),
            d@.face == Seq::<AttributeSeriesV>::empty(),
            d@.corner == Seq::<AttributeSeriesV>::empty(),
    {
        let d = Domains { point: Vec::new(), edge: Vec::new(), face: Vec::new(), corner: Vec::new() };
        proof {
            assert(d@.point =~= Seq::<AttributeSeriesV>::empty());
            assert(d@.edge =~= Seq::<AttributeSeriesV>::empty());
            assert(d@.face =~= Seq::<AttributeSeriesV>::empty());
            assert(d@.corner =~= Seq::<AttributeSeriesV>::empty());
        }
        d
    }
}

/// Whether a run of decoded attributes is in strictly ascending frame
/// order: later entries always carry larger frame indices, so no frame
/// index repeats.
pub open spec fn frames_strictly_ascending(s: Seq<AttributeV>) -> bool {
    forall|i: int, j: int| 0 <= i < j < s.len() ==> s[i].frame < s[j].frame
}

/// Whether two entries of a run claim the same frame index.
pub open spec fn has_duplicate_frame(s: Seq<AttributeV>) -> bool {
    exists|i: int, j: int| 0 <= i < j < s.len() && s[i].frame == s[j].frame
}

/// A multiset holding an element at least twice does so at two positions of
/// any sequence it was drawn from.
proof fn lemma_count_two_indices<A>(s: Seq<A>, x: A)
    requires
        s.to_multiset().count(x) >= 2,
    ensures
        exists|i: int, j: int| 0 <= i < j < s.len() && s[i] == x && s[j] == x,
    decreases s.len(),
{
    broadcast use vstd::seq_lib::group_to_multiset_ensures;
    broadcast use vstd::multiset::group_multiset_axioms;

    if s.len() == 0 {
        assert(s.contains(x));
        assert(false);
    } else {
        let pre = s.drop_last();
        assert(pre.push(s.last()) =~= s);
        assert(s.to_multiset() == pre.push(s.last()).to_multiset());
        if s.last() == x {
            assert(pre.to_multiset().count(x) >= 1);
            assert(pre.contains(x));
            let i = choose|i: int| 0 <= i < pre.len() && pre[i] == x;
            assert(s[i] == x && s[s.len() - 1] == x && i < s.len() - 1);
        } else {
            assert(pre.to_multiset().count(x) >= 2);
            lemma_count_two_indices(pre, x);
            let (i, j): (int, int) = choose|i: int, j: int|
                0 <= i < j < pre.len() && pre[i] == x && pre[j] == x;
            assert(s[i] == x && s[j] == x);
        }
    }
}

/// The position of an entry with the smallest frame index.
fn min_frame_index(v: &Vec<Attribute>) -> (k: usize)
    requires
        v@.len() > 0,
    ensures
        k < v@.len(),
        forall|j: int| 0 <= j < v@.len() ==> v@[k as int].frame <= v@[j].frame,
{
    let mut k: usize = 0;
    let mut i: usize = 1;
    while i < v.len()
        invariant
            k < i <= v@.len(),
            forall|j: int| 0 <= j < i ==> v@[k as int].frame <= v@[j].frame,
        decreases v@.len() - i,
    {
        if v[i].frame < v[k].frame {
            k = i;
        }
        i = i + 1;
    }
    k
}

/// Sort one attribute's run of decoded frames into strictly ascending frame
/// order. Succeeds exactly when no frame index repeats; two entries claiming
/// one frame are refused as [`MetaReadError::DuplicateFrame`] rather than
/// one of them being kept silently. On success the result holds exactly the
/// entries given, reordered.
#[verifier::loop_isolation(false)]
fn sort_attributes(v: Vec<Attribute>) -> (r: Result<Vec<Attribute>, MetaReadError>)
    ensures
        r is Ok ==> attribute_views(r->Ok_0@).to_multiset() == attribute_views(v@).to_multiset(),
        r is Ok ==> frames_strictly_ascending(attribute_views(r->Ok_0@)),
        r is Ok ==> !has_duplicate_frame(attribute_views(v@)),
        r is Err ==> r->Err_0 == MetaReadError::DuplicateFrame,
        r is Err ==> has_duplicate_frame(attribute_views(v@)),
{
    broadcast use vstd::seq_lib::group_to_multiset_ensures;
    broadcast use vstd::multiset::group_multiset_axioms;

    let ghost vs = attribute_views(v@);
    let mut src = v;
    let mut out: Vec<Attribute> = Vec::new();
    proof {
        assert(attribute_views(out@) =~= Seq::<AttributeV>::empty());
        assert(attribute_views(out@).to_multiset().add(attribute_views(src@).to_multiset())
            =~= vs.to_multiset());
    }
    while src.len() > 0
        invariant
            attribute_views(out@).to_multiset().add(attribute_views(src@).to_multiset())
                == vs.to_multiset(),
            frames_strictly_ascending(attribute_views(out@)),
            forall|a: int, b: int|
                0 <= a < out@.len() && 0 <= b < src@.len() ==> attribute_views(out@)[a].frame
                    <= attribute_views(src@)[b].frame,
        decreases src.len(),
    {
        broadcast use vstd::seq_lib::group_to_multiset_ensures;
        broadcast use vstd::multiset::group_multiset_axioms;

        let ghost os = attribute_views(out@);
        let ghost ss = attribute_views(src@);
        let k = min_frame_index(&src);
        let ghost av = ss[k as int];
        proof {
            assert(ss.contains(av));
            assert(ss.to_multiset().count(av) > 0);
        }
        if out.len() > 0 {
            let last = out.len() - 1;
            if out[last].frame == src[k].frame {
                proof {
                    let xv = os[last as int];
                    assert(xv.frame == out@[last as int].frame);
                    assert(av.frame == src@[k as int].frame);
                    assert(xv.frame == av.frame);
                    assert(os.contains(xv));
                    assert(os.to_multiset().count(xv) > 0);
                    assert(vs.to_multiset().count(xv) == os.to_multiset().count(xv)
                        + ss.to_multiset().count(xv));
                    if xv == av {
                        assert(vs.to_multiset().count(xv) >= 2);
                        lemma_count_two_indices(vs, xv);
                        let (i, j): (int, int) = choose|i: int, j: int|
                            0 <= i < j < vs.len() && vs[i] == xv && vs[j] == xv;
                        assert(0 <= i < j < vs.len() && vs[i].frame == vs[j].frame);
                    } else {
                        assert(vs.to_multiset().count(av) > 0);
                        assert(vs.to_multiset().contains(xv) && vs.to_multiset().contains(av));
                        assert(vs.contains(xv) && vs.contains(av));
                        let i = choose|i: int| 0 <= i < vs.len() && vs[i] == xv;
                        let j = choose|j: int| 0 <= j < vs.len() && vs[j] == av;
                        assert(i != j);
                        assert(vs[i].frame == vs[j].frame);
                        if i < j {
                            assert(0 <= i < j < vs.len() && vs[i].frame == vs[j].frame);
                        } else {
                            assert(0 <= j < i < vs.len() && vs[j].frame == vs[i].frame);
                        }
                    }
                    assert(has_duplicate_frame(vs));
                }
                return Err(MetaReadError::DuplicateFrame);
            }
        }
        let a = src.remove(k);
        proof {
            assert(attribute_views(src@) =~= ss.remove(k as int));
            assert(ss.remove(k as int).to_multiset() == ss.to_multiset().remove(av));
        }
        out.push(a);
        proof {
            assert(attribute_views(out@) =~= os.push(av));
            assert(os.push(av).to_multiset() == os.to_multiset().insert(av));
            assert(attribute_views(out@).to_multiset().add(attribute_views(src@).to_multiset())
                =~= vs.to_multiset());
            assert(frames_strictly_ascending(attribute_views(out@))) by {
                assert(forall|i: int| 0 <= i < os.len() ==> os[i].frame <= av.frame);
                assert(forall|i: int| 0 <= i < os.len() ==> attribute_views(out@)[i] == os[i]);
            }
        }
    }
    proof {
        assert(attribute_views(src@) =~= Seq::<AttributeV>::empty());
        assert(attribute_views(out@).to_multiset() =~= vs.to_multiset()) by {
            assert(attribute_views(src@).to_multiset() =~= Multiset::<AttributeV>::empty());
        }
        let ovs = attribute_views(out@);
        assert(ovs.no_duplicates()) by {
            assert(forall|i: int, j: int|
                0 <= i < j < ovs.len() ==> ovs[i].frame != ovs[j].frame);
        }
        assert(!has_duplicate_frame(vs)) by {
            ovs.lemma_multiset_has_no_duplicates();
            if has_duplicate_frame(vs) {
                let (i, j): (int, int) = choose|i: int, j: int|
                    0 <= i < j < vs.len() && vs[i].frame == vs[j].frame;
                if vs[i] == vs[j] {
                    assert(vs.to_multiset().count(vs[i]) >= 2) by {
                        let s0 = vs.subrange(0, j);
                        let s1 = vs.subrange(j, vs.len() as int);
                        assert(vs =~= s0 + s1);
                        vstd::seq_lib::lemma_multiset_commutative(s0, s1);
                        assert(s0.contains(vs[i]));
                        assert(s1.contains(vs[j]));
                        assert(s0.to_multiset().count(vs[i]) > 0);
                        assert(s1.to_multiset().count(vs[j]) > 0);
                    }
                    assert(ovs.to_multiset().count(vs[i]) >= 2);
                    assert(ovs.to_multiset().contains(vs[i]));
                    assert(false);
                } else {
                    assert(vs.contains(vs[i]) && vs.contains(vs[j]));
                    assert(ovs.to_multiset().count(vs[i]) > 0 && ovs.to_multiset().count(vs[j])
                        > 0);
                    assert(ovs.contains(vs[i]) && ovs.contains(vs[j]));
                    let a = choose|a: int| 0 <= a < ovs.len() && ovs[a] == vs[i];
                    let b = choose|b: int| 0 <= b < ovs.len() && ovs[b] == vs[j];
                    assert(a != b);
                    assert(ovs[a].frame == ovs[b].frame);
                    assert(false);
                }
            }
        }
    }
    Ok(out)
}

/// Whether `new` is `old_` with every series' frames reordered strictly
/// ascending: same series under the same names in the same order, each
/// holding exactly the entries it held before, and none of them claiming
/// one frame index twice.
pub open spec fn series_sorted_version(new: Seq<AttributeSeriesV>, old_: Seq<AttributeSeriesV>) -> bool {
    &&& new.len() == old_.len()
    &&& forall|i: int|
        0 <= i < new.len() ==> (#[trigger] new[i]).name == old_[i].name && new[i].frames.to_multiset()
            == old_[i].frames.to_multiset() && frames_strictly_ascending(new[i].frames)
            && !has_duplicate_frame(old_[i].frames)
}

/// Whether some series of a table claims one frame index twice.
pub open spec fn bucket_has_duplicate(b: Seq<AttributeSeriesV>) -> bool {
    exists|i: int| 0 <= i < b.len() && has_duplicate_frame(b[i].frames)
}

/// Sort every series of one table into strictly ascending frame order,
/// refusing a repeated frame index.
#[verifier::loop_isolation(false)]
fn sort_bucket(bucket: Vec<AttributeSeries>) -> (r: Result<Vec<AttributeSeries>, MetaReadError>)
    ensures
        r is Ok ==> series_sorted_version(series_views(r->Ok_0@), series_views(bucket@)),
        r is Err ==> r->Err_0 == MetaReadError::DuplicateFrame,
        r is Err ==> bucket_has_duplicate(series_views(bucket@)),
{
    let ghost bs = series_views(bucket@);
    let mut src = bucket;
    let mut out: Vec<AttributeSeries> = Vec::new();
    while src.len() > 0
        invariant
            out@.len() + src@.len() == bs.len(),
            forall|j: int| 0 <= j < src@.len() ==> (#[trigger] src@[j])@ == bs[out@.len() + j],
            forall|i: int|
                0 <= i < out@.len() ==> (#[trigger] out@[i])@.name == bs[i].name && out@[i]@.frames.to_multiset()
                    == bs[i].frames.to_multiset() && frames_strictly_ascending(out@[i]@.frames)
                    && !has_duplicate_frame(bs[i].frames),
        decreases src@.len(),
    {
        let ghost at = out@.len() as int;
        let s = src.remove(0);
        proof {
            assert(s@ == bs[at]);
        }
        let AttributeSeries { name, frames } = s;
        match sort_attributes(frames) {
            Ok(sorted) => {
                let series = AttributeSeries { name, frames: sorted };
                proof {
                    assert(series@.name == bs[at].name);
                    assert(series@.frames.to_multiset() == bs[at].frames.to_multiset());
                }
                out.push(series);
            },
            Err(e) => {
                proof {
                    assert(has_duplicate_frame(bs[at].frames));
                }
                return Err(e);
            },
        }
    }
    proof {
        assert(series_views(out@).len() == bs.len());
        assert forall|i: int| 0 <= i < bs.len() implies (#[trigger] series_views(out@)[i]).name
            == bs[i].name && series_views(out@)[i].frames.to_multiset() == bs[i].frames.to_multiset()
            && frames_strictly_ascending(series_views(out@)[i].frames) && !has_duplicate_frame(
            bs[i].frames,
        ) by {
            assert(series_views(out@)[i] == out@[i]@);
        }
    }
    Ok(out)
}

/// The strictly ascending reordering of one series' entries: meaningful
/// exactly when no frame index repeats, and then unique, by
/// [`lemma_sorted_unique`].
pub open spec fn spec_sorted_series(frames: Seq<AttributeV>) -> Seq<AttributeV> {
    choose|s: Seq<AttributeV>|
        s.to_multiset() == frames.to_multiset() && frames_strictly_ascending(s)
}

/// Every series of a table reordered strictly ascending, names and order
/// of series kept.
pub open spec fn spec_sorted_bucket(b: Seq<AttributeSeriesV>) -> Seq<AttributeSeriesV> {
    Seq::new(
        b.len(),
        |i: int| AttributeSeriesV { name: b[i].name, frames: spec_sorted_series(b[i].frames) },
    )
}

/// A sorted version of a table is its sorted table.
proof fn lemma_sorted_version_is_sorted_bucket(
    new: Seq<AttributeSeriesV>,
    old_: Seq<AttributeSeriesV>,
)
    requires
        series_sorted_version(new, old_),
    ensures
        new == spec_sorted_bucket(old_),
{
    assert forall|i: int| 0 <= i < new.len() implies new[i] == spec_sorted_bucket(old_)[i] by {
        assert(new[i].frames.to_multiset() == old_[i].frames.to_multiset()
            && frames_strictly_ascending(new[i].frames));
        assert(exists|s: Seq<AttributeV>|
            s.to_multiset() == old_[i].frames.to_multiset() && frames_strictly_ascending(s));
        let c = spec_sorted_series(old_[i].frames);
        assert(c.to_multiset() == old_[i].frames.to_multiset() && frames_strictly_ascending(c));
        lemma_sorted_unique(new[i].frames, c);
    }
    assert(new =~= spec_sorted_bucket(old_));
}

/// The mathematical value of a store under construction.
pub struct GeometryBuilderV {
    pub mesh: Option<MeshDataV>,
    pub domain: DomainsV,
}

/// What the sort pass yields: `DuplicateFrame` as soon as any series of any
/// table claims one frame index twice, else every series reordered into
/// strictly ascending frame order, everything else kept.
pub open spec fn spec_sort_frames(b: GeometryBuilderV) -> Result<GeometryBuilderV, MetaReadError> {
    if bucket_has_duplicate(b.domain.point) || bucket_has_duplicate(b.domain.edge)
        || bucket_has_duplicate(b.domain.face) || bucket_has_duplicate(b.domain.corner) {
        Err(MetaReadError::DuplicateFrame)
    } else {
        Ok(
            GeometryBuilderV {
                mesh: b.mesh,
                domain: DomainsV {
                    point: spec_sorted_bucket(b.domain.point),
                    edge: spec_sorted_bucket(b.domain.edge),
                    face: spec_sorted_bucket(b.domain.face),
                    corner: spec_sorted_bucket(b.domain.corner),
                },
            },
        )
    }
}

/// A geometry store while the assembler still feeds it: the topology once
/// one frame has established it, and the per-domain tables accumulating
/// decoded attributes in whatever order the frame files arrive.
#[derive(Debug, PartialEq)]
pub struct GeometryBuilder {
    pub mesh: Option<MeshData>,
    pub domain: Domains,
}

impl View for GeometryBuilder {
    type V = GeometryBuilderV;

    open spec fn view(&self) -> GeometryBuilderV {
        GeometryBuilderV {
            mesh: match self.mesh {
                Some(m) => Some(m@),
                None => None,
            },
            domain: self.domain@,
        }
    }
}

impl GeometryBuilder {
    /// A builder with no topology yet and four empty tables.
    pub fn new() -> (b: GeometryBuilder)
        ensures
            b@.mesh is None,
            b@.domain.point == Seq::<AttributeSeriesV>::empty(),
            b@.domain.edge == Seq::<AttributeSeriesV>::empty(),
            b@.domain.face == Seq::<AttributeSeriesV>::empty(),
            b@.domain.corner == Seq::<AttributeSeriesV>::empty(),
    {
        GeometryBuilder { mesh: None, domain: Domains::new() }
    }

    /// The sort pass: bring every series of every table into strictly
    /// ascending frame order. Succeeds exactly when no series claims one
    /// frame index twice; a tie is refused as `DuplicateFrame` rather than
    /// one entry being kept silently. Exactly [`spec_sort_frames`].
    pub fn sort_frames(&mut self) -> (r: Result<(), MetaReadError>)
        ensures
            r is Ok ==> Ok::<GeometryBuilderV, MetaReadError>(final(self)@) == spec_sort_frames(
                old(self)@,
            ),
            r is Err ==> Err::<GeometryBuilderV, MetaReadError>(r->Err_0) == spec_sort_frames(
                old(self)@,
            ),
            r is Ok ==> final(self)@.mesh == old(self)@.mesh,
            r is Ok ==> series_sorted_version(final(self)@.domain.point, old(self)@.domain.point),
            r is Ok ==> series_sorted_version(final(self)@.domain.edge, old(self)@.domain.edge),
            r is Ok ==> series_sorted_version(final(self)@.domain.face, old(self)@.domain.face),
            r is Ok ==> series_sorted_version(final(self)@.domain.corner, old(self)@.domain.corner),
            r is Err ==> r->Err_0 == MetaReadError::DuplicateFrame,
            r is Err ==> bucket_has_duplicate(old(self)@.domain.point) || bucket_has_duplicate(
                old(self)@.domain.edge,
            ) || bucket_has_duplicate(old(self)@.domain.face) || bucket_has_duplicate(
                old(self)@.domain.corner,
            ),
    {
        let ghost b0 = old(self)@;
        let mut dom = Domains::new();
        core::mem::swap(&mut dom, &mut self.domain);
        let Domains { point, edge, face, corner } = dom;
        let ghost p0 = series_views(point@);
        let ghost e0 = series_views(edge@);
        let ghost f0 = series_views(face@);
        let ghost c0 = series_views(corner@);
        proof {
            assert(p0 == b0.domain.point && e0 == b0.domain.edge && f0 == b0.domain.face && c0
                == b0.domain.corner);
        }
        let point = match sort_bucket(point) {
            Ok(b) => b,
            Err(e) => {
                proof {
                    assert(spec_sort_frames(b0) == Err::<GeometryBuilderV, MetaReadError>(e));
                }
                return Err(e);
            },
        };
        let edge = match sort_bucket(edge) {
            Ok(b) => b,
            Err(e) => {
                proof {
                    assert(spec_sort_frames(b0) == Err::<GeometryBuilderV, MetaReadError>(e));
                }
                return Err(e);
            },
        };
        let face = match sort_bucket(face) {
            Ok(b) => b,
            Err(e) => {
                proof {
                    assert(spec_sort_frames(b0) == Err::<GeometryBuilderV, MetaReadError>(e));
                }
                return Err(e);
            },
        };
        let corner = match sort_bucket(corner) {
            Ok(b) => b,
            Err(e) => {
                proof {
                    assert(spec_sort_frames(b0) == Err::<GeometryBuilderV, MetaReadError>(e));
                }
                return Err(e);
            },
        };
        proof {
            let pn = series_views(point@);
            let en = series_views(edge@);
            let fn_ = series_views(face@);
            let cn = series_views(corner@);
            assert(!bucket_has_duplicate(p0)) by {
                if bucket_has_duplicate(p0) {
                    let i = choose|i: int|
                        0 <= i < p0.len() && has_duplicate_frame(p0[i].frames);
                    assert(pn[i].name == p0[i].name);
                }
            }
            assert(!bucket_has_duplicate(e0)) by {
                if bucket_has_duplicate(e0) {
                    let i = choose|i: int|
                        0 <= i < e0.len() && has_duplicate_frame(e0[i].frames);
                    assert(en[i].name == e0[i].name);
                }
            }
            assert(!bucket_has_duplicate(f0)) by {
                if bucket_has_duplicate(f0) {
                    let i = choose|i: int|
                        0 <= i < f0.len() && has_duplicate_frame(f0[i].frames);
                    assert(fn_[i].name == f0[i].name);
                }
            }
            assert(!bucket_has_duplicate(c0)) by {
                if bucket_has_duplicate(c0) {
                    let i = choose|i: int|
                        0 <= i < c0.len() && has_duplicate_frame(c0[i].frames);
                    assert(cn[i].name == c0[i].name);
                }
            }
        }
        self.domain = Domains { point, edge, face, corner };
        proof {
            lemma_sorted_version_is_sorted_bucket(self@.domain.point, b0.domain.point);
            lemma_sorted_version_is_sorted_bucket(self@.domain.edge, b0.domain.edge);
            lemma_sorted_version_is_sorted_bucket(self@.domain.face, b0.domain.face);
            lemma_sorted_version_is_sorted_bucket(self@.domain.corner, b0.domain.corner);
        }
        Ok(())
    }

    /// Finalize the store. Demands that some frame has established the
    /// topology; from here on the store is read-only.
    pub fn build(self) -> (g: Geometry)
        requires
            self@.mesh is Some,
        ensures
            Some(g@.mesh) == self@.mesh,
            g@.domain == self@.domain,
    {
        let mesh = match self.mesh {
            Some(m) => m,
            None => vstd::pervasive::unreached(),
        };
        Geometry { mesh, domain: self.domain }
    }
}

/// The mathematical value of a finalized store.
pub struct GeometryV {
    pub mesh: MeshDataV,
    pub domain: DomainsV,
}

/// The finalized, queryable store: one mesh topology plus, per domain, the
/// frame-ordered series of every retained attribute.
#[derive(Debug, PartialEq)]
pub struct Geometry {
    pub mesh: MeshData,
    pub domain: Domains,
}

impl View for Geometry {
    type V = GeometryV;

    open spec fn view(&self) -> GeometryV {
        GeometryV { mesh: self.mesh@, domain: self.domain@ }
    }
}

/// Whether one decoded entry belongs in the series named `name` of the
/// table of `domain`, under the topology `mesh`: it carries that name and
/// domain, its payload variant matches its declared type, and it holds one
/// element per mesh element of the domain.
pub open spec fn entry_wf(a: AttributeV, name: Seq<char>, domain: Domain, mesh: MeshDataV) -> bool {
    &&& a.name == name
    &&& a.domain == domain
    &&& a.data.has_type(a.attribute_type)
    &&& a.data.len() == mesh.domain_count(domain)
}

/// Whether every entry of a series belongs in it.
pub open spec fn series_entries_wf(s: AttributeSeriesV, domain: Domain, mesh: MeshDataV) -> bool {
    forall|i: int| 0 <= i < s.frames.len() ==> entry_wf(#[trigger] s.frames[i], s.name, domain, mesh)
}

/// Whether a table's series carry pairwise distinct names.
pub open spec fn bucket_names_unique(b: Seq<AttributeSeriesV>) -> bool {
    forall|i: int, j: int| 0 <= i < j < b.len() ==> b[i].name != b[j].name
}

/// Whether one domain's table is consistent under `mesh`, short of frame
/// ordering: names unique, and every entry well formed.
pub open spec fn bucket_entries_wf(b: Seq<AttributeSeriesV>, domain: Domain, mesh: MeshDataV) -> bool {
    &&& bucket_names_unique(b)
    &&& forall|i: int| 0 <= i < b.len() ==> series_entries_wf(#[trigger] b[i], domain, mesh)
}

/// Whether one domain's table is fully consistent under `mesh`: consistent
/// entries, and every series strictly ascending by frame.
pub open spec fn bucket_wf(b: Seq<AttributeSeriesV>, domain: Domain, mesh: MeshDataV) -> bool {
    &&& bucket_entries_wf(b, domain, mesh)
    &&& forall|i: int| 0 <= i < b.len() ==> frames_strictly_ascending((#[trigger] b[i]).frames)
}

impl GeometryV {
    /// The store's invariant: every domain's table is consistent with the
    /// topology, and every series is strictly ascending by frame with no
    /// frame index repeated.
    pub open spec fn wf(self) -> bool {
        &&& bucket_wf(self.domain.point, Domain::POINT, self.mesh)
        &&& bucket_wf(self.domain.edge, Domain::EDGE, self.mesh)
        &&& bucket_wf(self.domain.face, Domain::FACE, self.mesh)
        &&& bucket_wf(self.domain.corner, Domain::CORNER, self.mesh)
    }
}

impl GeometryBuilderV {
    /// The builder's invariant: before any frame arrives the tables are
    /// empty; once a topology is established, every table is consistent
    /// with it, short of frame ordering.
    pub open spec fn wf(self) -> bool {
        match self.mesh {
            None => self.domain.point.len() == 0 && self.domain.edge.len() == 0
                && self.domain.face.len() == 0 && self.domain.corner.len() == 0,
            Some(m) => bucket_entries_wf(self.domain.point, Domain::POINT, m) && bucket_entries_wf(
                self.domain.edge,
                Domain::EDGE,
                m,
            ) && bucket_entries_wf(self.domain.face, Domain::FACE, m) && bucket_entries_wf(
                self.domain.corner,
                Domain::CORNER,
                m,
            ),
        }
    }
}

/// A strictly ascending run is determined by the multiset of its entries:
/// two sorted runs holding exactly the same entries are the same run.
pub proof fn lemma_sorted_unique(s1: Seq<AttributeV>, s2: Seq<AttributeV>)
    requires
        s1.to_multiset() == s2.to_multiset(),
        frames_strictly_ascending(s1),
        frames_strictly_ascending(s2),
    ensures
        s1 == s2,
    decreases s1.len(),
{
    broadcast use vstd::seq_lib::group_to_multiset_ensures;
    broadcast use vstd::multiset::group_multiset_axioms;

    if s1.len() == 0 {
        if s2.len() > 0 {
            assert(s2.contains(s2[0]));
            assert(s1.to_multiset().count(s2[0]) > 0);
            assert(s1.contains(s2[0]));
            assert(false);
        }
        assert(s1 =~= s2);
    } else {
        assert(s1.contains(s1.last()));
        assert(s2.to_multiset().count(s1.last()) > 0);
        assert(s2.contains(s1.last()));
        let k = choose|k: int| 0 <= k < s2.len() && s2[k] == s1.last();
        assert(s2.contains(s2.last()));
        assert(s1.to_multiset().count(s2.last()) > 0);
        assert(s1.contains(s2.last()));
        let l = choose|l: int| 0 <= l < s1.len() && s1[l] == s2.last();
        assert(s2[k].frame <= s2.last().frame);
        assert(s1[l].frame <= s1.last().frame);
        assert(s1.last() == s2.last()) by {
            if k < s2.len() - 1 {
                assert(s2[k].frame < s2.last().frame);
                assert(s1.last().frame < s2.last().frame);
                assert(s1[l].frame < s1.last().frame);
                assert(false);
            }
        }
        let p1 = s1.drop_last();
        let p2 = s2.drop_last();
        assert(p1.push(s1.last()) =~= s1);
        assert(p2.push(s2.last()) =~= s2);
        assert(p1.to_multiset().insert(s1.last()) == s1.to_multiset());
        assert(p2.to_multiset().insert(s2.last()) == s2.to_multiset());
        assert forall|x: AttributeV| p1.to_multiset().count(x) == p2.to_multiset().count(x) by {
            assert(p1.to_multiset().insert(s1.last()).count(x) == p2.to_multiset().insert(
                s1.last(),
            ).count(x));
            if x == s1.last() {
                assert(p1.to_multiset().insert(s1.last()).count(x) == p1.to_multiset().count(x) + 1);
                assert(p2.to_multiset().insert(s1.last()).count(x) == p2.to_multiset().count(x) + 1);
            } else {
                assert(p1.to_multiset().insert(s1.last()).count(x) == p1.to_multiset().count(x));
                assert(p2.to_multiset().insert(s1.last()).count(x) == p2.to_multiset().count(x));
            }
        }
        assert(p1.to_multiset() =~= p2.to_multiset());
        lemma_sorted_unique(p1, p2);
        assert(s1 =~= s2);
    }
}

/// Whether two tables hold the same contents, series for series: the same
/// names in the same order, each series holding exactly the same entries,
/// in whatever order.
pub open spec fn bucket_same_contents(b1: Seq<AttributeSeriesV>, b2: Seq<AttributeSeriesV>) -> bool {
    &&& b1.len() == b2.len()
    &&& forall|i: int|
        0 <= i < b1.len() ==> (#[trigger] b1[i]).name == b2[i].name && b1[i].frames.to_multiset()
            == b2[i].frames.to_multiset()
}

/// Whether two stores hold the same contents: one topology, and per domain
/// the same series holding the same entries.
pub open spec fn same_contents(g1: GeometryV, g2: GeometryV) -> bool {
    &&& g1.mesh == g2.mesh
    &&& bucket_same_contents(g1.domain.point, g2.domain.point)
    &&& bucket_same_contents(g1.domain.edge, g2.domain.edge)
    &&& bucket_same_contents(g1.domain.face, g2.domain.face)
    &&& bucket_same_contents(g1.domain.corner, g2.domain.corner)
}

/// Two sorted tables holding the same contents are identical.
proof fn lemma_bucket_unique(b1: Seq<AttributeSeriesV>, b2: Seq<AttributeSeriesV>)
    requires
        bucket_same_contents(b1, b2),
        forall|i: int| 0 <= i < b1.len() ==> frames_strictly_ascending((#[trigger] b1[i]).frames),
        forall|i: int| 0 <= i < b2.len() ==> frames_strictly_ascending((#[trigger] b2[i]).frames),
    ensures
        b1 == b2,
{
    assert forall|i: int| 0 <= i < b1.len() implies b1[i] == b2[i] by {
        lemma_sorted_unique(b1[i].frames, b2[i].frames);
    }
    assert(b1 =~= b2);
}

/// Assembly is deterministic in the store's contents: two finalized,
/// well-formed stores that hold the same topology and the same decoded
/// entries — as reassembling one unchanged directory must yield, in
/// whatever order its frame files were listed — are structurally identical.
pub proof fn lemma_store_unique(g1: GeometryV, g2: GeometryV)
    requires
        g1.wf(),
        g2.wf(),
        same_contents(g1, g2),
    ensures
        g1 == g2,
{
    lemma_bucket_unique(g1.domain.point, g2.domain.point);
    lemma_bucket_unique(g1.domain.edge, g2.domain.edge);
    lemma_bucket_unique(g1.domain.face, g2.domain.face);
    lemma_bucket_unique(g1.domain.corner, g2.domain.corner);
}

/// One decoded attribute filed into a table: appended to the series of its
/// name if one exists, else opening a new series at the end of the table.
pub open spec fn spec_push_series(b: Seq<AttributeSeriesV>, a: AttributeV) -> Seq<AttributeSeriesV>
    decreases b.len(),
{
    if b.len() == 0 {
        seq![AttributeSeriesV { name: a.name, frames: seq![a] }]
    } else if b[0].name == a.name {
        seq![AttributeSeriesV { name: b[0].name, frames: b[0].frames.push(a) }] + b.drop_first()
    } else {
        seq![b[0]] + spec_push_series(b.drop_first(), a)
    }
}

/// The position of the first series carrying `name`, when one exists.
pub(crate) proof fn first_name_index(b: Seq<AttributeSeriesV>, name: Seq<char>) -> (i: int)
    requires
        exists|k: int| 0 <= k < b.len() && b[k].name == name,
    ensures
        0 <= i < b.len(),
        b[i].name == name,
        forall|k: int| 0 <= k < i ==> b[k].name != name,
    decreases b.len(),
{
    let k0 = choose|k: int| 0 <= k < b.len() && b[k].name == name;
    if b[0].name == name {
        0
    } else {
        assert(0 <= k0 - 1 < b.drop_first().len() && b.drop_first()[k0 - 1].name == name);
        let j = first_name_index(b.drop_first(), name);
        assert forall|k: int| 0 <= k < j + 1 implies b[k].name != name by {
            if k > 0 {
                assert(b.drop_first()[k - 1].name != name);
            }
        }
        j + 1
    }
}

/// Filing at the first series of the attribute's name updates that series
/// in place.
pub(crate) proof fn lemma_push_series_found(b: Seq<AttributeSeriesV>, a: AttributeV, i: int)
    requires
        0 <= i < b.len(),
        b[i].name == a.name,
        forall|k: int| 0 <= k < i ==> b[k].name != a.name,
    ensures
        spec_push_series(b, a) =~= b.update(
            i,
            AttributeSeriesV { name: b[i].name, frames: b[i].frames.push(a) },
        ),
    decreases i,
{
    if i == 0 {
    } else {
        assert(b[0].name != a.name);
        assert forall|k: int| 0 <= k < i - 1 implies b.drop_first()[k].name != a.name by {
            assert(b[k + 1].name != a.name);
        }
        lemma_push_series_found(b.drop_first(), a, i - 1);
    }
}

/// Filing a name no series carries opens a new series at the end.
pub(crate) proof fn lemma_push_series_absent(b: Seq<AttributeSeriesV>, a: AttributeV)
    requires
        forall|k: int| 0 <= k < b.len() ==> b[k].name != a.name,
    ensures
        spec_push_series(b, a) =~= b.push(AttributeSeriesV { name: a.name, frames: seq![a] }),
    decreases b.len(),
{
    if b.len() == 0 {
    } else {
        assert forall|k: int| 0 <= k < b.drop_first().len() implies b.drop_first()[k].name
            != a.name by {
            assert(b[k + 1].name != a.name);
        }
        lemma_push_series_absent(b.drop_first(), a);
    }
}

/// Filing a well-formed entry keeps a table consistent.
pub proof fn lemma_push_series_wf(
    b: Seq<AttributeSeriesV>,
    a: AttributeV,
    domain: Domain,
    mesh: MeshDataV,
)
    requires
        bucket_entries_wf(b, domain, mesh),
        entry_wf(a, a.name, domain, mesh),
    ensures
        bucket_entries_wf(spec_push_series(b, a), domain, mesh),
{
    if exists|k: int| 0 <= k < b.len() && b[k].name == a.name {
        let i = first_name_index(b, a.name);
        lemma_push_series_found(b, a, i);
        let u = AttributeSeriesV { name: b[i].name, frames: b[i].frames.push(a) };
        let r = b.update(i, u);
        assert(series_entries_wf(u, domain, mesh)) by {
            assert forall|j: int| 0 <= j < u.frames.len() implies entry_wf(
                #[trigger] u.frames[j],
                u.name,
                domain,
                mesh,
            ) by {
                if j < b[i].frames.len() {
                    assert(series_entries_wf(b[i], domain, mesh));
                    assert(entry_wf(b[i].frames[j], b[i].name, domain, mesh));
                }
            }
        }
        assert forall|j: int| 0 <= j < r.len() implies series_entries_wf(
            #[trigger] r[j],
            domain,
            mesh,
        ) by {
            if j != i {
                assert(r[j] == b[j]);
            }
        }
    } else {
        lemma_push_series_absent(b, a);
        let u = AttributeSeriesV { name: a.name, frames: seq![a] };
        let r = b.push(u);
        assert(series_entries_wf(u, domain, mesh)) by {
            assert(u.frames[0] == a);
        }
        assert forall|j: int| 0 <= j < r.len() implies series_entries_wf(
            #[trigger] r[j],
            domain,
            mesh,
        ) by {
            if j < b.len() {
                assert(r[j] == b[j]);
            }
        }
        assert(bucket_names_unique(r)) by {
            assert(forall|j: int| 0 <= j < b.len() ==> (#[trigger] r[j]) == b[j]);
        }
    }
}

/// The position of the series carrying `name`, if any, together with the
/// fact that no earlier series carries it.
fn find_series(bucket: &Vec<AttributeSeries>, name: &String) -> (r: Option<usize>)
    ensures
        r is Some ==> r->0 < bucket@.len() && series_views(bucket@)[r->0 as int].name == name@
            && forall|k: int| 0 <= k < r->0 ==> series_views(bucket@)[k].name != name@,
        r is None ==> forall|k: int|
            0 <= k < bucket@.len() ==> series_views(bucket@)[k].name != name@,
{
    let mut i: usize = 0;
    while i < bucket.len()
        invariant
            i <= bucket@.len(),
            forall|k: int| 0 <= k < i ==> series_views(bucket@)[k].name != name@,
        decreases bucket@.len() - i,
    {
        if bucket[i].name == *name {
            proof {
                assert(series_views(bucket@)[i as int].name == name@);
            }
            return Some(i);
        }
        proof {
            assert(series_views(bucket@)[i as int].name != name@);
        }
        i = i + 1;
    }
    None
}

/// File one decoded attribute into a table, under its name.
pub fn push_attribute(bucket: &mut Vec<AttributeSeries>, attribute: Attribute)
    ensures
        series_views(final(bucket)@) == spec_push_series(series_views(old(bucket)@), attribute@),
{
    let ghost bs = series_views(old(bucket)@);
    let ghost av = attribute@;
    match find_series(bucket, &attribute.name) {
        Some(i) => {
            let mut s = bucket.remove(i);
            proof {
                assert(s@ == bs[i as int]);
            }
            s.frames.push(attribute);
            proof {
                assert(s@.frames =~= bs[i as int].frames.push(av));
            }
            bucket.insert(i, s);
            proof {
                lemma_push_series_found(bs, av, i as int);
                assert(series_views(bucket@) =~= bs.update(
                    i as int,
                    AttributeSeriesV { name: bs[i as int].name, frames: bs[i as int].frames.push(av) },
                ));
            }
        },
        None => {
            let name = attribute.name.clone();
            let mut frames: Vec<Attribute> = Vec::new();
            frames.push(attribute);
            let series = AttributeSeries { name, frames };
            proof {
                assert(series@.frames =~= seq![av]);
            }
            bucket.push(series);
            proof {
                lemma_push_series_absent(bs, av);
                assert(series_views(bucket@) =~= bs.push(
                    AttributeSeriesV { name: av.name, frames: seq![av] },
                ));
            }
        },
    }
}

/// The mathematical value of one point record.
pub struct PointV {
    pub frame: usize,
    pub index: usize,
    pub data: Seq<(Seq<char>, AttributeDataType)>,
}

/// One vertex at one queried position: for every point-domain attribute,
/// that attribute's value at this vertex.
#[derive(Debug, PartialEq)]
pub struct Point {
    pub frame: usize,
    pub index: usize,
    pub data: Vec<(String, AttributeDataType)>,
}

impl View for Point {
    type V = PointV;

    open spec fn view(&self) -> PointV {
        PointV {
            frame: self.frame,
            index: self.index,
            data: self.data@.map_values(|p: (String, AttributeDataType)| (p.0@, p.1)),
        }
    }
}

/// Whether the queried position lies past the end of some point-domain
/// series.
pub open spec fn point_out_of_range(g: GeometryV, frame: int) -> bool {
    exists|s: int| 0 <= s < g.domain.point.len() && (#[trigger] g.domain.point[s]).frames.len()
        <= frame
}

/// The record data of one vertex at one position: one pair per point-domain
/// series, in table order — the attribute's name and its value at the
/// vertex.
pub open spec fn record_data_at(
    point: Seq<AttributeSeriesV>,
    frame: int,
    vertex: int,
) -> Seq<(Seq<char>, AttributeDataType)> {
    Seq::new(point.len(), |s: int| (point[s].name, value_at(point[s].frames[frame].data, vertex)))
}

impl Geometry {
    /// The point records of sequence position `frame`: one record per vertex
    /// `0..num_vertices`, each merging the values of every point-domain
    /// attribute at that vertex. `frame` counts positions within each
    /// attribute's ascending-frame series, not raw frame numbers; a position
    /// past the end of any series is refused as `FrameOutOfRange`, leaving
    /// the store untouched.
    #[verifier::loop_isolation(false)]
    pub fn points(&self, frame: usize) -> (r: Result<Vec<Point>, MetaReadError>)
        requires
            self@.wf(),
            self@.mesh.num_vertices <= usize::MAX,
        ensures
            r is Err <==> point_out_of_range(self@, frame as int),
            r is Err ==> r->Err_0 == MetaReadError::FrameOutOfRange,
            r is Ok ==> r->Ok_0@.len() == self@.mesh.num_vertices,
            r is Ok ==> forall|i: int|
                0 <= i < r->Ok_0@.len() ==> (#[trigger] r->Ok_0@[i])@.index == i && r->Ok_0@[i]@.frame
                    == frame && r->Ok_0@[i]@.data == record_data_at(
                    self@.domain.point,
                    frame as int,
                    i,
                ),
    {
        let mut s: usize = 0;
        while s < self.domain.point.len()
            invariant
                s <= self.domain.point@.len(),
                forall|k: int|
                    0 <= k < s ==> frame < (#[trigger] self@.domain.point[k]).frames.len(),
            decreases self.domain.point@.len() - s,
        {
            if self.domain.point[s].frames.len() <= frame {
                proof {
                    assert(self@.domain.point[s as int].frames.len() <= frame);
                }
                return Err(MetaReadError::FrameOutOfRange);
            }
            proof {
                assert(frame < self@.domain.point[s as int].frames.len());
            }
            s = s + 1;
        }
        let nv = self.mesh.num_vertices as usize;
        let mut out: Vec<Point> = Vec::new();
        let mut i: usize = 0;
        while i < nv
            invariant
                i <= nv,
                nv == self@.mesh.num_vertices,
                forall|k: int| 0 <= k < self@.domain.point.len() ==> frame < (
                #[trigger] self@.domain.point[k]).frames.len(),
                out@.len() == i,
                forall|k: int|
                    0 <= k < i ==> (#[trigger] out@[k])@.index == k && out@[k]@.frame == frame
                        && out@[k]@.data == record_data_at(self@.domain.point, frame as int, k),
            decreases nv - i,
        {
            let mut data: Vec<(String, AttributeDataType)> = Vec::new();
            let mut s: usize = 0;
            while s < self.domain.point.len()
                invariant
                    s <= self@.domain.point.len(),
                    i < nv,
                    nv == self@.mesh.num_vertices,
                    forall|k: int| 0 <= k < self@.domain.point.len() ==> frame < (
                    #[trigger] self@.domain.point[k]).frames.len(),
                    data@.map_values(|p: (String, AttributeDataType)| (p.0@, p.1))
                        =~= record_data_at(self@.domain.point, frame as int, i as int).take(s as int),
                decreases self@.domain.point.len() - s,
            {
                let series = &self.domain.point[s];
                proof {
                    assert(series@ == self@.domain.point[s as int]);
                    assert(series_entries_wf(series@, Domain::POINT, self@.mesh));
                    assert(entry_wf(
                        series@.frames[frame as int],
                        series@.name,
                        Domain::POINT,
                        self@.mesh,
                    ));
                }
                let attribute = &series.frames[frame];
                let value = element_at(&attribute.data, i);
                data.push((series.name.clone(), value));
                s = s + 1;
            }
            proof {
                assert(data@.map_values(|p: (String, AttributeDataType)| (p.0@, p.1))
                    =~= record_data_at(self@.domain.point, frame as int, i as int));
            }
            out.push(Point { frame, index: i, data });
            i = i + 1;
        }
        Ok(out)
    }
}

} // verus!
