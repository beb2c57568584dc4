//! End to end over real container bytes: loading message streams, and a
//! whole extraction run from files to the visited trace.

use std::collections::BTreeMap;
use std::io::Cursor;
use xcap::cancel::CancelToken;
use xcap::container::{load_messages, summary, FileRecord};
use xcap::extract::Dispatcher;
use xcap::run::extract_files;
use xcap::window::Window;

fn time_payload(sec: i32, nanosec: u32) -> Vec<u8> {
    cdr::serialize::<_, _, cdr::CdrLe>(&(sec, nanosec), cdr::Infinite).unwrap()
}

fn build_time_mcap(times: &[u64]) -> Vec<u8> {
    let mut cursor = Cursor::new(Vec::new());
    {
        let mut w = mcap::Writer::new(&mut cursor).unwrap();
        let sid = w.add_schema("builtin_interfaces/msg/Time", "cdr", b"").unwrap();
        let cid = w.add_channel(sid, "/ts", "cdr", &BTreeMap::new()).unwrap();
        for (k, t) in times.iter().enumerate() {
            let hdr = mcap::records::MessageHeader {
                channel_id: cid,
                sequence: k as u32,
                log_time: *t,
                publish_time: *t,
            };
            w.write_to_known_channel(&hdr, &time_payload(*t as i32, 0)).unwrap();
        }
        w.finish().unwrap();
    }
    cursor.into_inner()
}

#[test]
fn messages_load_in_stored_order() {
    let data = build_time_mcap(&[5, 15, 25]);
    let msgs = load_messages(&data).unwrap();
    assert_eq!(msgs.len(), 3);
    let times: Vec<u64> = msgs.iter().map(|m| m.publish_time).collect();
    assert_eq!(times, vec![5, 15, 25]);
    assert_eq!(msgs[0].topic, "/ts");
    assert_eq!(msgs[0].message_encoding, "cdr");
    assert_eq!(msgs[0].data, time_payload(5, 0));
}

#[test]
fn junk_bytes_do_not_load() {
    assert!(load_messages(&vec![1, 2, 3, 4]).is_err());
}

#[test]
fn extraction_runs_files_in_order_through_the_window() {
    let a = build_time_mcap(&[5, 15]);
    let b = build_time_mcap(&[10, 20]);
    let files = vec![
        FileRecord { name: "a".to_string(), data: a },
        FileRecord { name: "b".to_string(), data: b },
    ];
    let topics = summary(&files).unwrap();
    let requested = vec!["/ts".to_string()];
    let mut d = Dispatcher::new(&topics, &requested, Window { start: 8, stop: 16 }).unwrap();
    let token = CancelToken::new();
    let log = extract_files(&mut d, &files, &token).unwrap();
    let times: Vec<u64> = log.visited.iter().map(|v| v.1).collect();
    assert_eq!(times, vec![15, 10]);
}
