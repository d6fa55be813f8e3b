use geonodes_bake_tool::api::AttributeType;
use geonodes_bake_tool::bake_reader::blob::decode;
use geonodes_bake_tool::bake_reader::geometry::AttributeData;
use geonodes_bake_tool::errors::MetaReadError;

fn le_bytes_of_floats(values: &[f32]) -> Vec<u8> {
    let mut bytes = Vec::new();
    for v in values {
        bytes.extend_from_slice(&v.to_le_bytes());
    }
    bytes
}

#[test]
fn decode_float_known_buffer() {
    let values = [0.0f32, 1.0, -2.5, 3.25];
    let bytes = le_bytes_of_floats(&values);
    let decoded = decode(&bytes, 0, 16, &AttributeType::FLOAT).unwrap();
    match decoded {
        AttributeData::FLOAT(bits) => {
            assert_eq!(bits.len(), 4);
            let floats: Vec<f32> = bits.iter().map(|b| f32::from_bits(*b)).collect();
            assert_eq!(floats, vec![0.0f32, 1.0, -2.5, 3.25]);
        },
        other => panic!("expected FLOAT, got {:?}", other),
    }
}

#[test]
fn decode_float_at_offset() {
    let mut bytes = vec![0xAA, 0xBB];
    bytes.extend_from_slice(&7.5f32.to_le_bytes());
    let decoded = decode(&bytes, 2, 4, &AttributeType::FLOAT).unwrap();
    assert_eq!(decoded, AttributeData::FLOAT(vec![7.5f32.to_bits()]));
}

#[test]
fn decode_boolean_blob() {
    let bytes = vec![0x00, 0x01, 0xFF, 0x00];
    let decoded = decode(&bytes, 0, 4, &AttributeType::BOOLEAN).unwrap();
    assert_eq!(decoded, AttributeData::BOOL(vec![false, true, true, false]));
}

#[test]
fn decode_int_blob() {
    let mut bytes = Vec::new();
    bytes.extend_from_slice(&(-1i32).to_le_bytes());
    bytes.extend_from_slice(&305419896i32.to_le_bytes());
    let decoded = decode(&bytes, 0, 8, &AttributeType::INT).unwrap();
    assert_eq!(decoded, AttributeData::INT(vec![-1, 305419896]));
}

#[test]
fn decode_float_vector_blob() {
    let mut bytes = Vec::new();
    for v in [1.0f32, -2.0, 0.5] {
        bytes.extend_from_slice(&v.to_le_bytes());
    }
    let decoded = decode(&bytes, 0, 12, &AttributeType::FLOAT_VECTOR).unwrap();
    assert_eq!(
        decoded,
        AttributeData::FLOAT_VECTOR(vec![(
            1.0f32.to_bits(),
            (-2.0f32).to_bits(),
            0.5f32.to_bits()
        )])
    );
}

#[test]
fn decode_int_pair_blob() {
    let mut bytes = Vec::new();
    bytes.extend_from_slice(&(-7i32).to_le_bytes());
    bytes.extend_from_slice(&9i32.to_le_bytes());
    let decoded = decode(&bytes, 0, 8, &AttributeType::INT32_2D).unwrap();
    assert_eq!(decoded, AttributeData::INT32_2D(vec![(-7, 9)]));
}

#[test]
fn decode_size_not_multiple_of_width() {
    let bytes = vec![0u8; 10];
    let err = decode(&bytes, 0, 10, &AttributeType::FLOAT).unwrap_err();
    assert_eq!(err, MetaReadError::DecodeSizeError);
    let err = decode(&bytes, 0, 10, &AttributeType::INT32_2D).unwrap_err();
    assert_eq!(err, MetaReadError::DecodeSizeError);
}

#[test]
fn decode_short_range_is_io_error() {
    let bytes = vec![0u8; 8];
    let err = decode(&bytes, 4, 8, &AttributeType::FLOAT).unwrap_err();
    assert_eq!(err, MetaReadError::Io);
    let err = decode(&bytes, 9, 0, &AttributeType::BOOLEAN).unwrap_err();
    assert_eq!(err, MetaReadError::Io);
}

#[test]
fn decode_empty_range_is_empty() {
    let bytes = vec![1u8, 2, 3];
    let decoded = decode(&bytes, 3, 0, &AttributeType::FLOAT).unwrap();
    assert_eq!(decoded, AttributeData::FLOAT(vec![]));
}
