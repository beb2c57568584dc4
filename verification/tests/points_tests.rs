//! The point-field decoder against explicit byte-pattern fixtures: one per
//! datatype, plus per-point window arithmetic and validity checking.

use xcap::errors::Error;
use xcap::extract::decode_cloud_columns;
use xcap::msg::{Header, Time};
use xcap::points::{Datatype, PointCloud2, PointField};

fn header() -> Header {
    Header { stamp: Time { sec: 0, nanosec: 0 }, frame_id: "f".to_string() }
}

fn field(name: &str, offset: u32, datatype: u8, count: u32) -> PointField {
    PointField { name: name.to_string(), offset, datatype, count }
}

#[test]
fn int8_fixture() {
    let f = field("v", 0, 1, 1);
    let got = f.decode_bytes(&vec![0xff]);
    assert_eq!(got, vec![Datatype::INT8(-1)]);
}

#[test]
fn uint8_fixture() {
    let f = field("v", 0, 2, 1);
    assert_eq!(f.decode_bytes(&vec![0xfe]), vec![Datatype::UINT8(254)]);
}

#[test]
fn int16_fixture() {
    let f = field("v", 0, 3, 1);
    assert_eq!(f.decode_bytes(&vec![0x00, 0x80]), vec![Datatype::INT16(-32768)]);
}

#[test]
fn uint16_fixture() {
    let f = field("v", 0, 4, 1);
    assert_eq!(f.decode_bytes(&vec![0x34, 0x12]), vec![Datatype::UINT16(0x1234)]);
}

#[test]
fn int32_fixture() {
    let f = field("v", 0, 5, 1);
    assert_eq!(
        f.decode_bytes(&vec![0xff, 0xff, 0xff, 0xff]),
        vec![Datatype::INT32(-1)]
    );
}

#[test]
fn uint32_fixture() {
    let f = field("v", 0, 6, 1);
    assert_eq!(
        f.decode_bytes(&vec![0x78, 0x56, 0x34, 0x12]),
        vec![Datatype::UINT32(0x12345678)]
    );
}

#[test]
fn float32_fixture() {
    // 00 00 80 3F is 1.0
    let f = field("v", 0, 7, 1);
    let got = f.decode_bytes(&vec![0x00, 0x00, 0x80, 0x3f]);
    match got[0] {
        Datatype::FLOAT32(bits) => assert_eq!(f32::from_bits(bits), 1.0),
        ref other => panic!("wrong variant {:?}", other),
    }
}

#[test]
fn float64_fixture() {
    // 1.0 as an IEEE-754 double, little-endian
    let f = field("v", 0, 8, 1);
    let got = f.decode_bytes(&vec![0, 0, 0, 0, 0, 0, 0xf0, 0x3f]);
    match got[0] {
        Datatype::FLOAT64(bits) => assert_eq!(f64::from_bits(bits), 1.0),
        ref other => panic!("wrong variant {:?}", other),
    }
}

#[test]
fn multi_element_field_decodes_consecutively() {
    let f = field("v", 0, 4, 3);
    let got = f.decode_bytes(&vec![1, 0, 2, 0, 3, 0]);
    assert_eq!(
        got,
        vec![Datatype::UINT16(1), Datatype::UINT16(2), Datatype::UINT16(3)]
    );
}

#[test]
fn size_table() {
    assert_eq!(field("v", 0, 1, 1).size(), 1);
    assert_eq!(field("v", 0, 2, 1).size(), 1);
    assert_eq!(field("v", 0, 3, 1).size(), 2);
    assert_eq!(field("v", 0, 4, 1).size(), 2);
    assert_eq!(field("v", 0, 5, 1).size(), 4);
    assert_eq!(field("v", 0, 6, 1).size(), 4);
    assert_eq!(field("v", 0, 7, 1).size(), 4);
    assert_eq!(field("v", 0, 8, 1).size(), 8);
}

fn two_point_cloud() -> PointCloud2 {
    // point_step=16, width=2, height=1, x@0 FLOAT32, y@4 FLOAT32;
    // point 1 must be read from bytes [16..20] and [20..24].
    let mut data = vec![0u8; 32];
    data[0..4].copy_from_slice(&1.0f32.to_le_bytes());
    data[4..8].copy_from_slice(&2.0f32.to_le_bytes());
    data[16..20].copy_from_slice(&3.0f32.to_le_bytes());
    data[20..24].copy_from_slice(&4.0f32.to_le_bytes());
    PointCloud2 {
        header: header(),
        height: 1,
        width: 2,
        fields: vec![field("x", 0, 7, 1), field("y", 4, 7, 1)],
        is_bigendian: 0,
        point_step: 16,
        row_step: 32,
        data,
        is_dense: 1,
    }
}

#[test]
fn point_one_reads_its_own_window() {
    let cloud = two_point_cloud();
    assert!(cloud.check_wf());
    assert_eq!(cloud.len(), 2);
    let p1 = cloud.decode_by_idx(1).unwrap();
    assert_eq!(p1.len(), 2);
    match (p1[0][0], p1[1][0]) {
        (Datatype::FLOAT32(x), Datatype::FLOAT32(y)) => {
            assert_eq!(f32::from_bits(x), 3.0);
            assert_eq!(f32::from_bits(y), 4.0);
        }
        other => panic!("wrong variants {:?}", other),
    }
    // point 0 stays untouched by point 1's windows
    let p0 = cloud.decode_by_idx(0).unwrap();
    match (p0[0][0], p0[1][0]) {
        (Datatype::FLOAT32(x), Datatype::FLOAT32(y)) => {
            assert_eq!(f32::from_bits(x), 1.0);
            assert_eq!(f32::from_bits(y), 2.0);
        }
        other => panic!("wrong variants {:?}", other),
    }
}

#[test]
fn out_of_range_index_yields_none() {
    let cloud = two_point_cloud();
    assert!(cloud.decode_by_idx(2).is_none());
}

#[test]
fn big_endian_elements_decode_big_endian() {
    let mut cloud = two_point_cloud();
    cloud.is_bigendian = 1;
    cloud.data[0..4].copy_from_slice(&1.0f32.to_be_bytes());
    let p0 = cloud.decode_by_idx(0).unwrap();
    match p0[0][0] {
        Datatype::FLOAT32(x) => assert_eq!(f32::from_bits(x), 1.0),
        ref other => panic!("wrong variant {:?}", other),
    }
}

#[test]
fn unknown_datatype_is_invalid() {
    let mut cloud = two_point_cloud();
    cloud.fields[1].datatype = 99;
    assert!(!cloud.check_wf());
    assert_eq!(decode_cloud_columns(&cloud).unwrap_err(), Error::InvalidDatatype(99));
}

#[test]
fn short_data_fails_the_geometry_check() {
    let mut cloud = two_point_cloud();
    cloud.data.truncate(20);
    assert!(!cloud.check_wf());
    assert_eq!(decode_cloud_columns(&cloud).unwrap_err(), Error::Geometry);
}

#[test]
fn missing_required_column_is_reported_by_name() {
    let mut cloud = two_point_cloud();
    // x, y present; z absent
    cloud.fields.push(field("intensity", 8, 7, 1));
    assert_eq!(
        decode_cloud_columns(&cloud).unwrap_err(),
        Error::MissingField("z".to_string())
    );
}

#[test]
fn columns_extract_all_four_fields() {
    let mut cloud = two_point_cloud();
    cloud.fields.push(field("z", 8, 7, 1));
    cloud.fields.push(field("intensity", 12, 7, 1));
    cloud.data[8..12].copy_from_slice(&5.0f32.to_le_bytes());
    cloud.data[12..16].copy_from_slice(&0.5f32.to_le_bytes());
    let cols = decode_cloud_columns(&cloud).unwrap();
    assert_eq!(cols.x.len(), 2);
    assert_eq!(cols.y.len(), 2);
    assert_eq!(cols.z.len(), 2);
    assert_eq!(cols.intensity.len(), 2);
    match (cols.x[0], cols.z[0], cols.intensity[0]) {
        (Datatype::FLOAT32(x), Datatype::FLOAT32(z), Datatype::FLOAT32(i)) => {
            assert_eq!(f32::from_bits(x), 1.0);
            assert_eq!(f32::from_bits(z), 5.0);
            assert_eq!(f32::from_bits(i), 0.5);
        }
        other => panic!("wrong variants {:?}", other),
    }
}
