//! The codec layer against real encoders: pass-through and zstd
//! decompression, and record deserialization against an independent CDR
//! serializer.

use xcap::codec::{
    decompress, deserialize_compressed_image, deserialize_image, deserialize_pointcloud,
    deserialize_time,
};
use xcap::errors::Error;
use xcap::msg::Time;

type CdrHeader = ((i32, u32), String);

#[test]
fn decompress_passes_plain_payloads_through() {
    let payload: Vec<u8> = vec![1, 2, 3, 4, 5, 6];
    let out = decompress(&payload).unwrap();
    assert_eq!(out, payload);
}

#[test]
fn decompress_short_payloads_pass_through() {
    let payload: Vec<u8> = vec![0x28, 0xb5];
    let out = decompress(&payload).unwrap();
    assert_eq!(out, payload);
}

#[test]
fn decompress_inflates_compressed_payloads() {
    let original: Vec<u8> = (0..200u8).chain(0..200u8).collect();
    let compressed = zstd::stream::encode_all(original.as_slice(), 0).unwrap();
    assert_eq!(&compressed[..4], &[0x28, 0xb5, 0x2f, 0xfd]);
    let out = decompress(&compressed).unwrap();
    assert_eq!(out, original);
}

#[test]
fn decompress_rejects_corrupt_compressed_payloads() {
    let mut bad: Vec<u8> = vec![0x28, 0xb5, 0x2f, 0xfd];
    bad.extend_from_slice(&[9, 9, 9, 9, 9]);
    match decompress(&bad) {
        Err(Error::Decompress(_)) => {}
        other => panic!("expected a decompression failure, got {:?}", other),
    }
}

#[test]
fn time_record_round_trips() {
    let bytes = cdr::serialize::<_, _, cdr::CdrLe>(&(5i32, 7u32), cdr::Infinite).unwrap();
    let t = deserialize_time(&bytes).unwrap();
    assert_eq!(t, Time { sec: 5, nanosec: 7 });
}

#[test]
fn time_record_negative_seconds() {
    let bytes = cdr::serialize::<_, _, cdr::CdrLe>(&(-2i32, 999_999_999u32), cdr::Infinite)
        .unwrap();
    let t = deserialize_time(&bytes).unwrap();
    assert_eq!(t, Time { sec: -2, nanosec: 999_999_999 });
}

#[test]
fn truncated_time_record_is_a_codec_error() {
    let bytes = cdr::serialize::<_, _, cdr::CdrLe>(&(5i32, 7u32), cdr::Infinite).unwrap();
    let cut = bytes[..bytes.len() - 1].to_vec();
    assert_eq!(deserialize_time(&cut), Err(Error::Codec));
}

#[test]
fn compressed_image_record_round_trips() {
    let header: CdrHeader = ((12i32, 34u32), "camera_front".to_string());
    let value = (header, "h264".to_string(), vec![1u8, 2, 3, 4, 5]);
    let bytes = cdr::serialize::<_, _, cdr::CdrLe>(&value, cdr::Infinite).unwrap();
    let m = deserialize_compressed_image(&bytes).unwrap();
    assert_eq!(m.header.stamp, Time { sec: 12, nanosec: 34 });
    assert_eq!(m.header.frame_id, "camera_front");
    assert_eq!(m.format, "h264");
    assert_eq!(m.data, vec![1, 2, 3, 4, 5]);
}

#[test]
fn image_record_round_trips_with_alignment() {
    let header: CdrHeader = ((1i32, 2u32), "cam".to_string());
    // encoding "rgb8" and the single-byte endian flag force padding before
    // the row stride.
    let value = (header, 2u32, 3u32, "rgb8".to_string(), 0u8, 9u32, vec![7u8; 18]);
    let bytes = cdr::serialize::<_, _, cdr::CdrLe>(&value, cdr::Infinite).unwrap();
    let m = deserialize_image(&bytes).unwrap();
    assert_eq!(m.height, 2);
    assert_eq!(m.width, 3);
    assert_eq!(m.encoding, "rgb8");
    assert_eq!(m.is_bigendian, 0);
    assert_eq!(m.step, 9);
    assert_eq!(m.data.len(), 18);
}

#[test]
fn pointcloud_record_round_trips() {
    let header: CdrHeader = ((3i32, 4u32), "lidar".to_string());
    let fields = vec![
        ("x".to_string(), 0u32, 7u8, 1u32),
        ("y".to_string(), 4u32, 7u8, 1u32),
    ];
    let data: Vec<u8> = (0u8..32u8).collect();
    let value = (header, 1u32, 2u32, fields, 0u8, 16u32, 32u32, data.clone(), 1u8);
    let bytes = cdr::serialize::<_, _, cdr::CdrLe>(&value, cdr::Infinite).unwrap();
    let m = deserialize_pointcloud(&bytes).unwrap();
    assert_eq!(m.height, 1);
    assert_eq!(m.width, 2);
    assert_eq!(m.fields.len(), 2);
    assert_eq!(m.fields[0].name, "x");
    assert_eq!(m.fields[0].offset, 0);
    assert_eq!(m.fields[0].datatype, 7);
    assert_eq!(m.fields[0].count, 1);
    assert_eq!(m.fields[1].name, "y");
    assert_eq!(m.fields[1].offset, 4);
    assert_eq!(m.is_bigendian, 0);
    assert_eq!(m.point_step, 16);
    assert_eq!(m.row_step, 32);
    assert_eq!(m.data, data);
    assert_eq!(m.is_dense, 1);
}

#[test]
fn chroma_packed_height_is_two_thirds() {
    let header = xcap::msg::Header {
        stamp: Time { sec: 0, nanosec: 0 },
        frame_id: "f".to_string(),
    };
    let img = xcap::msg::Image::new(header, 6, 4, "nv12".to_string(), 0, 4, vec![0u8; 24]);
    assert_eq!(img.chroma_packed_rgb_height(), 4);
}

#[test]
fn empty_buffer_is_a_codec_error() {
    let empty: Vec<u8> = Vec::new();
    assert_eq!(deserialize_time(&empty), Err(Error::Codec));
    assert_eq!(deserialize_compressed_image(&empty).unwrap_err(), Error::Codec);
}

#[test]
fn declared_length_past_the_end_is_a_codec_error() {
    // encapsulation header, then a string length that overruns the buffer
    let bytes: Vec<u8> = vec![0x00, 0x01, 0x00, 0x00, 0x00, 0x00, 0x00, 0x00, 0x00, 0x00, 0x00,
        0x00, 0xff, 0x00, 0x00, 0x00];
    match deserialize_compressed_image(&bytes) {
        Err(Error::Codec) => {}
        other => panic!("expected a codec error, got {:?}", other),
    }
}
