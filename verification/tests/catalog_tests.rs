//! The topic catalog: merge semantics on plain per-file summaries, and the
//! whole summary path over real container files built in memory.

use std::collections::BTreeMap;
use std::io::Cursor;
use xcap::catalog::{merge_catalog, ChannelEntry, FileSummary, SchemaInfo};
use xcap::container::{summary, FileRecord};
use xcap::errors::Error;

fn chan(id: u16, topic: &str, schema: &str, encoding: &str) -> ChannelEntry {
    ChannelEntry {
        id,
        topic: topic.to_string(),
        schema: Some(SchemaInfo { name: schema.to_string(), encoding: encoding.to_string() }),
    }
}

fn file(name: &str, counts: Vec<(u16, u64)>, channels: Vec<ChannelEntry>) -> FileSummary {
    FileSummary { name: name.to_string(), has_stats: true, counts, channels }
}

#[test]
fn count_downgrades_to_unknown_when_a_file_reports_none() {
    // file A reports 10 messages for channel 3; file B has the channel but
    // no count for it: the merged count must be unknown, not 10.
    let a = file("a", vec![(3, 10)], vec![chan(3, "/t", "s", "cdr")]);
    let b = file("b", vec![], vec![chan(3, "/t", "s", "cdr")]);
    let topics = merge_catalog(&vec![a, b]).unwrap();
    assert_eq!(topics.len(), 1);
    assert_eq!(topics[0].id, 3);
    assert_eq!(topics[0].msg_count, None);
}

#[test]
fn unknown_count_never_reupgrades() {
    let a = file("a", vec![], vec![chan(3, "/t", "s", "cdr")]);
    let b = file("b", vec![(3, 7)], vec![chan(3, "/t", "s", "cdr")]);
    let topics = merge_catalog(&vec![a, b]).unwrap();
    assert_eq!(topics[0].msg_count, None);
}

#[test]
fn counts_sum_while_every_file_reports() {
    let a = file("a", vec![(3, 10)], vec![chan(3, "/t", "s", "cdr")]);
    let b = file("b", vec![(3, 5)], vec![chan(3, "/t", "s", "cdr")]);
    let topics = merge_catalog(&vec![a, b]).unwrap();
    assert_eq!(topics[0].msg_count, Some(15));
}

#[test]
fn name_and_schema_take_the_latest_file() {
    let a = file("a", vec![(1, 1)], vec![chan(1, "/old", "olds", "raw")]);
    let b = file("b", vec![(1, 2)], vec![chan(1, "/new", "news", "cdr")]);
    let topics = merge_catalog(&vec![a, b]).unwrap();
    assert_eq!(topics[0].name, "/new");
    assert_eq!(topics[0].format, "news");
    assert_eq!(topics[0].description, "Encoding: cdr");
}

#[test]
fn topics_come_out_sorted_by_channel_id() {
    let a = file(
        "a",
        vec![(9, 1), (2, 1), (5, 1)],
        vec![chan(9, "/i", "s", "cdr"), chan(2, "/b", "s", "cdr"), chan(5, "/e", "s", "cdr")],
    );
    let topics = merge_catalog(&vec![a]).unwrap();
    let ids: Vec<u16> = topics.iter().map(|t| t.id).collect();
    assert_eq!(ids, vec![2, 5, 9]);
}

#[test]
fn missing_statistics_names_the_first_offending_file() {
    let a = file("a", vec![], vec![]);
    let b = FileSummary { name: "b".to_string(), has_stats: false, counts: vec![], channels: vec![] };
    let c = FileSummary { name: "c".to_string(), has_stats: false, counts: vec![], channels: vec![] };
    assert_eq!(
        merge_catalog(&vec![a, b, c]).unwrap_err(),
        Error::NoStatistics("b".to_string())
    );
}

fn build_mcap(topics: &[(&str, &str, &[u64])]) -> Vec<u8> {
    let mut cursor = Cursor::new(Vec::new());
    {
        let mut w = mcap::Writer::new(&mut cursor).unwrap();
        for (topic, schema, times) in topics {
            let sid = w.add_schema(schema, "cdr", b"").unwrap();
            let cid = w.add_channel(sid, topic, "cdr", &BTreeMap::new()).unwrap();
            for (k, t) in times.iter().enumerate() {
                let hdr = mcap::records::MessageHeader {
                    channel_id: cid,
                    sequence: k as u32,
                    log_time: *t,
                    publish_time: *t,
                };
                w.write_to_known_channel(&hdr, &[1, 2, 3]).unwrap();
            }
        }
        w.finish().unwrap();
    }
    cursor.into_inner()
}

#[test]
fn summary_reads_real_container_files() {
    let data = build_mcap(&[("/cam", "sensor_msgs/msg/Image", &[1, 2, 3]), ("/ts",
        "builtin_interfaces/msg/Time", &[4])]);
    let files = vec![FileRecord { name: "one.mcap".to_string(), data }];
    let topics = summary(&files).unwrap();
    assert_eq!(topics.len(), 2);
    let cam = topics.iter().find(|t| t.name == "/cam").unwrap();
    assert_eq!(cam.format, "sensor_msgs/msg/Image");
    assert_eq!(cam.description, "Encoding: cdr");
    assert_eq!(cam.msg_count, Some(3));
    let ts = topics.iter().find(|t| t.name == "/ts").unwrap();
    assert_eq!(ts.msg_count, Some(1));
    // sorted ascending by channel id
    assert!(topics[0].id < topics[1].id);
}

#[test]
fn summary_counts_accumulate_across_files() {
    let a = build_mcap(&[("/cam", "sensor_msgs/msg/Image", &[1, 2])]);
    let b = build_mcap(&[("/cam", "sensor_msgs/msg/Image", &[3, 4, 5])]);
    let files = vec![
        FileRecord { name: "a".to_string(), data: a },
        FileRecord { name: "b".to_string(), data: b },
    ];
    let topics = summary(&files).unwrap();
    assert_eq!(topics.len(), 1);
    assert_eq!(topics[0].msg_count, Some(5));
}

#[test]
fn unreadable_summary_names_the_file() {
    let files = vec![FileRecord { name: "junk.mcap".to_string(), data: vec![1, 2, 3] }];
    assert_eq!(summary(&files).unwrap_err(), Error::NoSummary("junk.mcap".to_string()));
}
