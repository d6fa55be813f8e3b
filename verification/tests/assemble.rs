use geonodes_bake_tool::api::{AttributeType, Domain};
use geonodes_bake_tool::bake_reader::geometry::{AttributeData, AttributeDataType};
use geonodes_bake_tool::bake_reader::{BakeReader, BlobFile, MetaFile};
use geonodes_bake_tool::errors::MetaReadError;

fn meta_json(num_vertices: u64, attributes: &str) -> String {
    format!(
        "{{\"items\":{{\"0\":{{\"name\":\"mesh\",\"type\":\"GEOMETRY\",\"data\":{{\"mesh\":{{\"num_vertices\":{},\"num_edges\":5,\"num_polygons\":2,\"num_corners\":8,\"attributes\":[{}]}}}}}}}}}}",
        num_vertices, attributes
    )
}

fn float_attribute(name: &str, blob: &str, start: u64, size: u64) -> String {
    format!(
        "{{\"name\":\"{}\",\"domain\":\"POINT\",\"type\":\"FLOAT\",\"data\":{{\"name\":\"{}\",\"start\":{},\"size\":{}}}}}",
        name, blob, start, size
    )
}

fn meta_file(name: &str, json: String) -> MetaFile {
    MetaFile { name: name.to_string(), bytes: json.into_bytes() }
}

fn float_blob(name: &str, values: &[f32]) -> BlobFile {
    let mut bytes = Vec::new();
    for v in values {
        bytes.extend_from_slice(&v.to_le_bytes());
    }
    BlobFile { name: name.to_string(), bytes }
}

fn reader(names: &[&str]) -> BakeReader {
    BakeReader::new("bake", names.iter().map(|n| n.to_string()).collect())
}

#[test]
fn assemble_single_frame() {
    let metas = vec![meta_file("1_bake.json", meta_json(4, &float_attribute("light", "b0", 0, 16)))];
    let blobs = vec![float_blob("b0", &[0.0, 1.0, -2.5, 3.25])];
    let geometry = reader(&["light"]).load_meta(&metas, &blobs).unwrap();
    assert_eq!(geometry.mesh.num_vertices, 4);
    assert_eq!(geometry.mesh.num_edges, 5);
    assert_eq!(geometry.domain.point.len(), 1);
    let series = &geometry.domain.point[0];
    assert_eq!(series.name, "light");
    assert_eq!(series.frames.len(), 1);
    let attribute = &series.frames[0];
    assert_eq!(attribute.frame, 1);
    assert_eq!(attribute.domain, Domain::POINT);
    assert_eq!(attribute.attribute_type, AttributeType::FLOAT);
    let expected: Vec<u32> = [0.0f32, 1.0, -2.5, 3.25].iter().map(|v| v.to_bits()).collect();
    assert_eq!(attribute.data, AttributeData::FLOAT(expected));
}

#[test]
fn frames_come_out_sorted() {
    let metas = vec![
        meta_file("5_bake.json", meta_json(2, &float_attribute("light", "b0", 0, 8))),
        meta_file("1_bake.json", meta_json(2, &float_attribute("light", "b0", 8, 8))),
        meta_file("10_bake.json", meta_json(2, &float_attribute("light", "b0", 16, 8))),
    ];
    let blobs = vec![float_blob("b0", &[5.0, 5.5, 1.0, 1.5, 10.0, 10.5])];
    let geometry = reader(&["light"]).load_meta(&metas, &blobs).unwrap();
    let series = &geometry.domain.point[0];
    let frames: Vec<u32> = series.frames.iter().map(|a| a.frame).collect();
    assert_eq!(frames, vec![1, 5, 10]);
    assert_eq!(
        series.frames[0].data,
        AttributeData::FLOAT(vec![1.0f32.to_bits(), 1.5f32.to_bits()])
    );
    assert_eq!(
        series.frames[2].data,
        AttributeData::FLOAT(vec![10.0f32.to_bits(), 10.5f32.to_bits()])
    );
}

#[test]
fn duplicate_frame_is_refused() {
    let metas = vec![
        meta_file("3_a.json", meta_json(2, &float_attribute("light", "b0", 0, 8))),
        meta_file("3_b.json", meta_json(2, &float_attribute("light", "b0", 8, 8))),
    ];
    let blobs = vec![float_blob("b0", &[0.0, 0.0, 1.0, 1.0])];
    let err = reader(&["light"]).load_meta(&metas, &blobs).unwrap_err();
    assert_eq!(err, MetaReadError::DuplicateFrame);
}

#[test]
fn topology_mismatch_between_frames() {
    let metas = vec![
        meta_file("1_bake.json", meta_json(2, &float_attribute("light", "b0", 0, 8))),
        meta_file("2_bake.json", meta_json(3, &float_attribute("light", "b0", 0, 12))),
    ];
    let blobs = vec![float_blob("b0", &[0.0, 0.0, 0.0])];
    let err = reader(&["light"]).load_meta(&metas, &blobs).unwrap_err();
    assert_eq!(err, MetaReadError::TopologyMismatch);
}

#[test]
fn wrong_length_for_domain_is_topology_mismatch() {
    // Four vertices, but the range decodes to two floats only.
    let metas = vec![meta_file("1_bake.json", meta_json(4, &float_attribute("light", "b0", 0, 8)))];
    let blobs = vec![float_blob("b0", &[0.0, 1.0])];
    let err = reader(&["light"]).load_meta(&metas, &blobs).unwrap_err();
    assert_eq!(err, MetaReadError::TopologyMismatch);
}

#[test]
fn edge_attribute_length_checked_against_num_edges() {
    let attribute = "{\"name\":\"crease\",\"domain\":\"EDGE\",\"type\":\"BOOLEAN\",\"data\":{\"name\":\"b0\",\"start\":0,\"size\":5}}";
    let metas = vec![meta_file("1_bake.json", meta_json(2, attribute))];
    let blobs = vec![BlobFile { name: "b0".to_string(), bytes: vec![0, 1, 1, 0, 1] }];
    let geometry = reader(&["crease"]).load_meta(&metas, &blobs).unwrap();
    assert_eq!(geometry.domain.edge.len(), 1);
    assert_eq!(
        geometry.domain.edge[0].frames[0].data,
        AttributeData::BOOL(vec![false, true, true, false, true])
    );
}

#[test]
fn missing_blob_is_io_error() {
    let metas = vec![meta_file("1_bake.json", meta_json(2, &float_attribute("light", "nope", 0, 8)))];
    let blobs = vec![float_blob("b0", &[0.0, 0.0])];
    let err = reader(&["light"]).load_meta(&metas, &blobs).unwrap_err();
    assert_eq!(err, MetaReadError::Io);
}

#[test]
fn item_not_found() {
    let metas = vec![meta_file("1_bake.json", "{\"items\":{\"1\":{}}}".to_string())];
    let err = reader(&["light"]).load_meta(&metas, &vec![]).unwrap_err();
    assert_eq!(err, MetaReadError::ItemNotFound);
}

#[test]
fn empty_meta_directory_is_item_not_found() {
    let err = reader(&["light"]).load_meta(&vec![], &vec![]).unwrap_err();
    assert_eq!(err, MetaReadError::ItemNotFound);
}

#[test]
fn malformed_document_is_deserialize_error() {
    let cases = vec![
        "not json at all".to_string(),
        "{\"items\":[]}".to_string(),
        meta_json(2, "{\"name\":\"x\",\"domain\":\"SIDEWAYS\",\"type\":\"FLOAT\",\"data\":{\"name\":\"b\",\"start\":0,\"size\":0}}"),
        "{\"items\":{\"0\":{\"name\":\"mesh\",\"type\":\"GEOMETRY\",\"data\":{\"mesh\":{\"num_vertices\":\"two\",\"num_edges\":0,\"num_polygons\":0,\"num_corners\":0,\"attributes\":[]}}}}}".to_string(),
        // A fractional or negative count is no unsigned integer.
        "{\"items\":{\"0\":{\"name\":\"mesh\",\"type\":\"GEOMETRY\",\"data\":{\"mesh\":{\"num_vertices\":1.5,\"num_edges\":0,\"num_polygons\":0,\"num_corners\":0,\"attributes\":[]}}}}}".to_string(),
        meta_json(2, "{\"name\":\"x\",\"domain\":\"POINT\",\"type\":\"FLOAT\",\"data\":{\"name\":\"b\",\"start\":-4,\"size\":0}}"),
    ];
    for json in cases {
        let metas = vec![meta_file("1_bake.json", json)];
        let err = reader(&["light"]).load_meta(&metas, &vec![]).unwrap_err();
        assert_eq!(err, MetaReadError::Deserialize);
    }
}

#[test]
fn unsupported_attribute_type_is_refused() {
    let attribute = "{\"name\":\"light\",\"domain\":\"POINT\",\"type\":\"QUATERNION\",\"data\":{\"name\":\"b0\",\"start\":0,\"size\":16}}";
    let metas = vec![meta_file("1_bake.json", meta_json(2, attribute))];
    let blobs = vec![float_blob("b0", &[0.0, 0.0, 0.0, 0.0])];
    let err = reader(&["light"]).load_meta(&metas, &blobs).unwrap_err();
    assert_eq!(err, MetaReadError::UnsupportedAttributeType);
}

#[test]
fn bad_file_name_is_parse_int_error() {
    let metas = vec![meta_file("bake.json", meta_json(2, &float_attribute("light", "b0", 0, 8)))];
    let blobs = vec![float_blob("b0", &[0.0, 0.0])];
    let err = reader(&["light"]).load_meta(&metas, &blobs).unwrap_err();
    assert_eq!(err, MetaReadError::ParseIntError);
}

#[test]
fn attributes_outside_retained_set_are_skipped() {
    let both = format!(
        "{},{}",
        float_attribute("light", "b0", 0, 8),
        float_attribute("heat", "b0", 8, 8)
    );
    let metas = vec![meta_file("1_bake.json", meta_json(2, &both))];
    let blobs = vec![float_blob("b0", &[0.0, 1.0, 2.0, 3.0])];
    let geometry = reader(&["heat"]).load_meta(&metas, &blobs).unwrap();
    assert_eq!(geometry.domain.point.len(), 1);
    assert_eq!(geometry.domain.point[0].name, "heat");
}

#[test]
fn reassembly_is_structurally_identical() {
    let metas = vec![
        meta_file("2_bake.json", meta_json(2, &float_attribute("light", "b0", 0, 8))),
        meta_file("1_bake.json", meta_json(2, &float_attribute("light", "b0", 8, 8))),
    ];
    let blobs = vec![float_blob("b0", &[2.0, 2.5, 1.0, 1.5])];
    let first = reader(&["light"]).load_meta(&metas, &blobs).unwrap();
    let second = reader(&["light"]).load_meta(&metas, &blobs).unwrap();
    assert_eq!(first, second);
    // The file listing order does not change the finalized store either.
    let reversed: Vec<MetaFile> = vec![
        meta_file("1_bake.json", meta_json(2, &float_attribute("light", "b0", 8, 8))),
        meta_file("2_bake.json", meta_json(2, &float_attribute("light", "b0", 0, 8))),
    ];
    let third = reader(&["light"]).load_meta(&reversed, &blobs).unwrap();
    assert_eq!(first, third);
}

#[test]
fn points_merge_point_attributes_by_vertex() {
    let both = format!(
        "{},{}",
        float_attribute("light", "b0", 0, 8),
        "{\"name\":\"hit\",\"domain\":\"POINT\",\"type\":\"BOOLEAN\",\"data\":{\"name\":\"b1\",\"start\":0,\"size\":2}}"
    );
    let metas = vec![
        meta_file("1_bake.json", meta_json(2, &both)),
        meta_file("5_bake.json", {
            let both = format!(
                "{},{}",
                float_attribute("light", "b0", 8, 8),
                "{\"name\":\"hit\",\"domain\":\"POINT\",\"type\":\"BOOLEAN\",\"data\":{\"name\":\"b1\",\"start\":2,\"size\":2}}"
            );
            meta_json(2, &both)
        }),
    ];
    let blobs = vec![
        float_blob("b0", &[1.0, 1.5, 5.0, 5.5]),
        BlobFile { name: "b1".to_string(), bytes: vec![1, 0, 0, 1] },
    ];
    let geometry = reader(&["light", "hit"]).load_meta(&metas, &blobs).unwrap();

    let records = geometry.points(1).unwrap();
    assert_eq!(records.len(), 2);
    assert_eq!(records[0].index, 0);
    assert_eq!(records[0].frame, 1);
    assert_eq!(
        records[0].data,
        vec![
            ("light".to_string(), AttributeDataType::FLOAT(5.0f32.to_bits())),
            ("hit".to_string(), AttributeDataType::BOOL(false)),
        ]
    );
    assert_eq!(records[1].index, 1);
    assert_eq!(
        records[1].data,
        vec![
            ("light".to_string(), AttributeDataType::FLOAT(5.5f32.to_bits())),
            ("hit".to_string(), AttributeDataType::BOOL(true)),
        ]
    );

    let err = geometry.points(2).unwrap_err();
    assert_eq!(err, MetaReadError::FrameOutOfRange);
}

#[test]
fn points_positions_follow_the_sorted_sequence() {
    let metas = vec![
        meta_file("1_bake.json", meta_json(1, &float_attribute("light", "b0", 0, 4))),
        meta_file("5_bake.json", meta_json(1, &float_attribute("light", "b0", 4, 4))),
        meta_file("10_bake.json", meta_json(1, &float_attribute("light", "b0", 8, 4))),
    ];
    let blobs = vec![float_blob("b0", &[1.0, 5.0, 10.0])];
    let geometry = reader(&["light"]).load_meta(&metas, &blobs).unwrap();
    // Positions index the ascending-frame sequence [1, 5, 10], not the raw
    // frame numbers.
    for (position, expected) in [(0usize, 1.0f32), (1, 5.0), (2, 10.0)] {
        let records = geometry.points(position).unwrap();
        assert_eq!(records.len(), 1);
        assert_eq!(
            records[0].data,
            vec![("light".to_string(), AttributeDataType::FLOAT(expected.to_bits()))]
        );
    }
    let err = geometry.points(3).unwrap_err();
    assert_eq!(err, MetaReadError::FrameOutOfRange);
}

#[test]
fn points_without_point_attributes_still_yields_vertex_records() {
    let metas = vec![meta_file("1_bake.json", meta_json(3, ""))];
    let geometry = reader(&["light"]).load_meta(&metas, &vec![]).unwrap();
    let records = geometry.points(0).unwrap();
    assert_eq!(records.len(), 3);
    assert_eq!(records[2].index, 2);
    assert!(records[2].data.is_empty());
}
