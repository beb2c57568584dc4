//! The trimmer: verbatim selection of in-window messages, full-window
//! idempotence against a real container file's statistics, and cancellation.

use std::collections::BTreeMap;
use std::io::Cursor;
use xcap::cancel::CancelToken;
use xcap::container::{FileRecord, MessageRecord};
use xcap::errors::Error;
use xcap::run::{trim_files, trim_select};
use xcap::window::Window;

fn msg(publish_time: u64, payload: Vec<u8>) -> MessageRecord {
    MessageRecord {
        channel_id: 4,
        topic: "/t".to_string(),
        schema: None,
        message_encoding: "cdr".to_string(),
        sequence: 0,
        log_time: publish_time,
        publish_time,
        data: payload,
    }
}

#[test]
fn full_window_keeps_every_message_verbatim() {
    let msgs = vec![msg(5, vec![1]), msg(15, vec![2, 2]), msg(25, vec![3, 3, 3])];
    let token = CancelToken::new();
    let out = trim_select(&msgs, Window::full(), &token).unwrap();
    assert_eq!(out.len(), msgs.len());
    for (a, b) in out.iter().zip(msgs.iter()) {
        assert_eq!(a.publish_time, b.publish_time);
        assert_eq!(a.data, b.data);
        assert_eq!(a.topic, b.topic);
        assert_eq!(a.channel_id, b.channel_id);
    }
}

#[test]
fn window_bounds_skip_and_stop() {
    let msgs = vec![msg(5, vec![1]), msg(15, vec![2]), msg(25, vec![3]), msg(18, vec![4])];
    let token = CancelToken::new();
    let out = trim_select(&msgs, Window { start: 8, stop: 20 }, &token).unwrap();
    // 5 skipped; 15 kept; 25 stops the run, so the later 18 is never seen
    let times: Vec<u64> = out.iter().map(|m| m.publish_time).collect();
    assert_eq!(times, vec![15]);
}

#[test]
fn cancellation_interrupts_a_trim() {
    let msgs = vec![msg(5, vec![1])];
    let token = CancelToken::new();
    token.cancel();
    assert_eq!(
        trim_select(&msgs, Window { start: 0, stop: u64::MAX }, &token).unwrap_err(),
        Error::Interrupted
    );
}

#[test]
fn full_window_trim_matches_the_statistics_count() {
    // one real container file; trimming with the whole time axis must keep
    // exactly as many messages as the file's statistics report.
    let mut cursor = Cursor::new(Vec::new());
    {
        let mut w = mcap::Writer::new(&mut cursor).unwrap();
        let sid = w.add_schema("builtin_interfaces/msg/Time", "cdr", b"").unwrap();
        let cid = w.add_channel(sid, "/ts", "cdr", &BTreeMap::new()).unwrap();
        for t in [10u64, 20, 30, 40] {
            let hdr = mcap::records::MessageHeader {
                channel_id: cid,
                sequence: 0,
                log_time: t,
                publish_time: t,
            };
            w.write_to_known_channel(&hdr, &[0, 1, 0, 0, 1, 0, 0, 0, 2, 0, 0, 0]).unwrap();
        }
        w.finish().unwrap();
    }
    let data = cursor.into_inner();
    let stats_count = mcap::read::Summary::read(&data)
        .unwrap()
        .unwrap()
        .stats
        .unwrap()
        .message_count;
    let files = vec![FileRecord { name: "one".to_string(), data }];
    let token = CancelToken::new();
    let out = trim_files(&files, Window { start: 0, stop: u64::MAX }, &token).unwrap();
    assert_eq!(out.len() as u64, stats_count);
    assert_eq!(out.len(), 4);
    // envelopes come out verbatim, schema included
    assert_eq!(out[0].topic, "/ts");
    assert_eq!(out[0].schema.as_ref().unwrap().name, "builtin_interfaces/msg/Time");
}

#[test]
fn unreadable_file_is_a_container_error() {
    let files = vec![FileRecord { name: "junk".to_string(), data: vec![9, 9, 9] }];
    let token = CancelToken::new();
    match trim_files(&files, Window { start: 0, stop: u64::MAX }, &token) {
        Err(Error::Container(_)) => {}
        other => panic!("expected a container error, got {:?}", other),
    }
}
