//! The dispatcher: fail-fast topic validation, per-message routing through
//! the time window, file-then-stored processing order, and cancellation.

use xcap::cancel::CancelToken;
use xcap::catalog::Topic;
use xcap::container::MessageRecord;
use xcap::errors::Error;
use xcap::extract::{Dispatcher, Routed, StepOutcome};
use xcap::msg::Time;
use xcap::run::run_messages;
use xcap::window::Window;

fn topic(id: u16, name: &str, format: &str) -> Topic {
    Topic {
        id,
        name: name.to_string(),
        format: format.to_string(),
        description: "Encoding: cdr".to_string(),
        msg_count: Some(1),
    }
}

fn time_message(topic: &str, publish_time: u64, sec: i32, nanosec: u32) -> MessageRecord {
    let data = cdr::serialize::<_, _, cdr::CdrLe>(&(sec, nanosec), cdr::Infinite).unwrap();
    MessageRecord {
        channel_id: 1,
        topic: topic.to_string(),
        schema: None,
        message_encoding: "cdr".to_string(),
        sequence: 0,
        log_time: publish_time,
        publish_time,
        data,
    }
}

fn full_window() -> Window {
    Window { start: 0, stop: u64::MAX }
}

fn coded_message(topic: &str, publish_time: u64, coded: Vec<u8>) -> MessageRecord {
    let header = ((0i32, 0u32), "cam".to_string());
    let value = (header, "h264".to_string(), coded);
    MessageRecord {
        channel_id: 1,
        topic: topic.to_string(),
        schema: None,
        message_encoding: "cdr".to_string(),
        sequence: 0,
        log_time: publish_time,
        publish_time,
        data: cdr::serialize::<_, _, cdr::CdrLe>(&value, cdr::Infinite).unwrap(),
    }
}

#[test]
fn absent_topic_is_rejected_before_any_processing() {
    let cat = vec![topic(1, "/ts", "builtin_interfaces/msg/Time")];
    let requested = vec!["/nope".to_string()];
    assert_eq!(
        Dispatcher::new(&cat, &requested, full_window()).unwrap_err(),
        Error::InvalidTopic("/nope".to_string())
    );
}

#[test]
fn unsupported_schema_is_rejected_before_any_file_is_opened() {
    let cat = vec![topic(1, "/odo", "nav_msgs/msg/Odometry")];
    let requested = vec!["/odo".to_string()];
    assert_eq!(
        Dispatcher::new(&cat, &requested, full_window()).unwrap_err(),
        Error::UnsupportedTopicFormat("nav_msgs/msg/Odometry".to_string())
    );
}

#[test]
fn each_supported_schema_selects_a_decoder() {
    let cat = vec![
        topic(1, "/v", "sensor_msgs/msg/CompressedImage"),
        topic(2, "/i", "sensor_msgs/msg/Image"),
        topic(3, "/p", "sensor_msgs/msg/PointCloud2"),
        topic(4, "/t", "builtin_interfaces/msg/Time"),
    ];
    let requested = vec!["/v".to_string(), "/i".to_string(), "/p".to_string(), "/t".to_string()];
    let d = Dispatcher::new(&cat, &requested, full_window()).unwrap();
    assert_eq!(d.decs.len(), 4);
}

#[test]
fn window_gates_and_file_order_are_kept() {
    // file 1 has publish times [5, 15], file 2 has [10, 20]; the window is
    // [8, 16]; the processed sequence must be exactly 15 then 10 — no
    // cross-file re-sorting — and 20 stops the run.
    let cat = vec![topic(1, "/ts", "builtin_interfaces/msg/Time")];
    let requested = vec!["/ts".to_string()];
    let mut d = Dispatcher::new(&cat, &requested, Window { start: 8, stop: 16 }).unwrap();
    let msgs = vec![
        time_message("/ts", 5, 1, 0),
        time_message("/ts", 15, 2, 0),
        time_message("/ts", 10, 3, 0),
        time_message("/ts", 20, 4, 0),
    ];
    let token = CancelToken::new();
    let log = run_messages(&mut d, &msgs, &token).unwrap();
    let times: Vec<u64> = log.visited.iter().map(|v| v.1).collect();
    assert_eq!(times, vec![15, 10]);
    assert_eq!(log.outputs.len(), 2);
    match &log.outputs[0].1 {
        Routed::Stamp(t) => assert_eq!(*t, Time { sec: 2, nanosec: 0 }),
        other => panic!("wrong routing {:?}", other),
    }
    match &log.outputs[1].1 {
        Routed::Stamp(t) => assert_eq!(*t, Time { sec: 3, nanosec: 0 }),
        other => panic!("wrong routing {:?}", other),
    }
}

#[test]
fn unregistered_topics_are_skipped_silently() {
    let cat = vec![topic(1, "/ts", "builtin_interfaces/msg/Time")];
    let requested = vec!["/ts".to_string()];
    let mut d = Dispatcher::new(&cat, &requested, full_window()).unwrap();
    let other = time_message("/other", 5, 1, 0);
    let r = d.on_message(&other, false).unwrap();
    match r {
        StepOutcome::NoDecoder => {}
        other => panic!("expected a silent skip, got {:?}", other),
    }
}

#[test]
fn cancellation_interrupts_with_no_routing() {
    let cat = vec![topic(1, "/ts", "builtin_interfaces/msg/Time")];
    let requested = vec!["/ts".to_string()];
    let mut d = Dispatcher::new(&cat, &requested, full_window()).unwrap();
    let msgs = vec![time_message("/ts", 1, 1, 0), time_message("/ts", 2, 2, 0)];
    let token = CancelToken::new();
    token.cancel();
    assert_eq!(run_messages(&mut d, &msgs, &token).unwrap_err(), Error::Interrupted);
    // nothing was accumulated anywhere
    assert!(d.decs[0].video.cache.is_empty());
}

#[test]
fn a_malformed_message_aborts_the_whole_run() {
    let cat = vec![topic(1, "/ts", "builtin_interfaces/msg/Time")];
    let requested = vec!["/ts".to_string()];
    let mut d = Dispatcher::new(&cat, &requested, full_window()).unwrap();
    let mut bad = time_message("/ts", 1, 1, 0);
    bad.data.truncate(6);
    let msgs = vec![bad, time_message("/ts", 2, 2, 0)];
    let token = CancelToken::new();
    assert_eq!(run_messages(&mut d, &msgs, &token).unwrap_err(), Error::Codec);
}

#[test]
fn video_messages_accumulate_bytes_and_stamps() {
    let cat = vec![topic(1, "/cam", "sensor_msgs/msg/CompressedImage")];
    let requested = vec!["/cam".to_string()];
    let mut d = Dispatcher::new(&cat, &requested, full_window()).unwrap();
    let msgs = vec![
        coded_message("/cam", 100, vec![0u8, 0, 1, 9]),
        coded_message("/cam", 200, vec![8u8, 0, 0, 1, 7]),
    ];
    let token = CancelToken::new();
    let log = run_messages(&mut d, &msgs, &token).unwrap();
    assert_eq!(log.visited.len(), 2);
    assert_eq!(d.decs[0].video.cache, vec![0, 0, 1, 9, 8, 0, 0, 1, 7]);
    assert_eq!(d.decs[0].video.stamps, vec![100, 200]);
}

#[test]
fn compressed_payloads_are_inflated_before_decoding() {
    let cat = vec![topic(1, "/ts", "builtin_interfaces/msg/Time")];
    let requested = vec!["/ts".to_string()];
    let mut d = Dispatcher::new(&cat, &requested, full_window()).unwrap();
    let mut m = time_message("/ts", 1, 42, 9);
    m.data = zstd::stream::encode_all(m.data.as_slice(), 0).unwrap();
    let r = d.on_message(&m, false).unwrap();
    match r {
        StepOutcome::Routed(Routed::Stamp(t)) => assert_eq!(t, Time { sec: 42, nanosec: 9 }),
        other => panic!("wrong outcome {:?}", other),
    }
}

#[test]
fn image_messages_route_to_the_image_decoder() {
    let cat = vec![topic(1, "/img", "sensor_msgs/msg/Image")];
    let requested = vec!["/img".to_string()];
    let mut d = Dispatcher::new(&cat, &requested, full_window()).unwrap();
    let header = ((0i32, 0u32), "cam".to_string());
    let value = (header, 2u32, 2u32, "rgb8".to_string(), 0u8, 6u32, vec![9u8; 12]);
    let m = MessageRecord {
        channel_id: 1,
        topic: "/img".to_string(),
        schema: None,
        message_encoding: "cdr".to_string(),
        sequence: 0,
        log_time: 3,
        publish_time: 3,
        data: cdr::serialize::<_, _, cdr::CdrLe>(&value, cdr::Infinite).unwrap(),
    };
    match d.on_message(&m, false).unwrap() {
        StepOutcome::Routed(Routed::Image(img)) => {
            assert_eq!(img.width, 2);
            assert_eq!(img.height, 2);
            assert_eq!(img.step, 6);
            assert_eq!(img.data, vec![9u8; 12]);
        }
        other => panic!("wrong outcome {:?}", other),
    }
}

#[test]
fn an_image_shorter_than_its_stride_is_rejected() {
    let cat = vec![topic(1, "/img", "sensor_msgs/msg/Image")];
    let requested = vec!["/img".to_string()];
    let mut d = Dispatcher::new(&cat, &requested, full_window()).unwrap();
    let header = ((0i32, 0u32), "cam".to_string());
    // stride 9 over 2 rows needs 18 bytes; only 10 are carried
    let value = (header, 2u32, 3u32, "rgb8".to_string(), 0u8, 9u32, vec![7u8; 10]);
    let m = MessageRecord {
        channel_id: 1,
        topic: "/img".to_string(),
        schema: None,
        message_encoding: "cdr".to_string(),
        sequence: 0,
        log_time: 3,
        publish_time: 3,
        data: cdr::serialize::<_, _, cdr::CdrLe>(&value, cdr::Infinite).unwrap(),
    };
    assert_eq!(d.on_message(&m, false).unwrap_err(), Error::Geometry);
}

#[test]
fn cloud_messages_route_with_their_columns() {
    let cat = vec![topic(1, "/pc", "sensor_msgs/msg/PointCloud2")];
    let requested = vec!["/pc".to_string()];
    let mut d = Dispatcher::new(&cat, &requested, full_window()).unwrap();
    let header = ((0i32, 0u32), "lidar".to_string());
    let fields = vec![
        ("x".to_string(), 0u32, 7u8, 1u32),
        ("y".to_string(), 4u32, 7u8, 1u32),
        ("z".to_string(), 8u32, 7u8, 1u32),
        ("intensity".to_string(), 12u32, 7u8, 1u32),
    ];
    let mut data = vec![0u8; 16];
    data[0..4].copy_from_slice(&1.5f32.to_le_bytes());
    data[12..16].copy_from_slice(&0.25f32.to_le_bytes());
    let value = (header, 1u32, 1u32, fields, 0u8, 16u32, 16u32, data, 1u8);
    let m = MessageRecord {
        channel_id: 1,
        topic: "/pc".to_string(),
        schema: None,
        message_encoding: "cdr".to_string(),
        sequence: 0,
        log_time: 3,
        publish_time: 3,
        data: cdr::serialize::<_, _, cdr::CdrLe>(&value, cdr::Infinite).unwrap(),
    };
    match d.on_message(&m, false).unwrap() {
        StepOutcome::Routed(Routed::Cloud(cloud, cols)) => {
            assert_eq!(cloud.point_step, 16);
            assert_eq!(cols.x.len(), 1);
            match (cols.x[0], cols.intensity[0]) {
                (
                    xcap::points::Datatype::FLOAT32(x),
                    xcap::points::Datatype::FLOAT32(i),
                ) => {
                    assert_eq!(f32::from_bits(x), 1.5);
                    assert_eq!(f32::from_bits(i), 0.25);
                }
                other => panic!("wrong variants {:?}", other),
            }
        }
        other => panic!("wrong outcome {:?}", other),
    }
}

#[test]
fn cancelling_before_the_second_message_routes_at_most_one() {
    let cat = vec![topic(1, "/ts", "builtin_interfaces/msg/Time")];
    let requested = vec!["/ts".to_string()];
    let mut d = Dispatcher::new(&cat, &requested, full_window()).unwrap();
    let first = d.on_message(&time_message("/ts", 1, 1, 0), false).unwrap();
    assert!(matches!(first, StepOutcome::Routed(_)));
    // the token is set before the second message's poll: the run ends with
    // `Interrupted`, not a partial success, and nothing more is routed
    let second = d.on_message(&time_message("/ts", 2, 2, 0), true);
    assert_eq!(second.unwrap_err(), Error::Interrupted);
}

#[test]
fn finish_drains_every_decoder_once() {
    let cat = vec![
        topic(1, "/cam", "sensor_msgs/msg/CompressedImage"),
        topic(2, "/ts", "builtin_interfaces/msg/Time"),
    ];
    let requested = vec!["/cam".to_string(), "/ts".to_string()];
    let mut d = Dispatcher::new(&cat, &requested, full_window()).unwrap();
    // feed the video decoder bytes that hold no decodable picture
    let m = coded_message("/cam", 7, vec![0u8, 0, 1, 0x41, 0x99, 0x12]);
    d.on_message(&m, false).unwrap();
    let token = CancelToken::new();
    let out = d.finish(&token).unwrap();
    assert_eq!(out.len(), 2);
    assert_eq!(out[0].topic, "/cam");
    assert_eq!(out[1].topic, "/ts");
    // non-picture units are skipped, never failed on
    assert!(out[0].frames.is_empty());
    assert!(out[1].frames.is_empty());
}
