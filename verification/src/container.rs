//! The boundary to the container-file library. The library is trusted for
//! three things only: reading a file's summary section, streaming a file's
//! messages in stored order, and (in the surrounding application) writing a
//! new container file. Everything read is converted at once to plain values,
//! and every contract speaks of the file's bytes alone.

use vstd::prelude::*;

use crate::catalog::{
    catalog_map, merge_catalog, summaries_view, topic_model, ChannelEntry, ChannelView,
    FileSummary, SchemaInfo, Topic, TopicModel,
};
use crate::errors::Error;

verus! {

/// One input container file: a display name and its raw bytes.
#[derive(Debug, Clone)]
pub struct FileRecord {
    pub name: String,
    pub data: Vec<u8>,
}

/// Whether the summary section of a container file can be read.
pub uninterp spec fn mcap_summary_ok(data: Seq<u8>) -> bool;

/// Whether the statistics sub-section is present in the file's summary.
pub uninterp spec fn mcap_has_stats(data: Seq<u8>) -> bool;

/// The per-channel message counts of the statistics sub-section, as the
/// ordered key-value pairs of its map.
pub uninterp spec fn mcap_counts(data: Seq<u8>) -> Seq<(u16, u64)>;

/// The channels of the file's summary, keyed by channel id.
pub uninterp spec fn mcap_channels(data: Seq<u8>) -> Map<u16, ChannelView>;

/// Relies on mcap::read::Summary::read: parses the summary section out of the
/// file's bytes; what it holds is a function of the bytes alone, though the
/// channel listing order is not, so the channels are pinned through the map
/// they form rather than through their order.
#[verifier::external_body]
fn read_summary_raw(data: &Vec<u8>) -> (r: Option<(bool, Vec<(u16, u64)>, Vec<ChannelEntry>)>)
    ensures
        r is Some <==> mcap_summary_ok(data@),
        r matches Some(t) ==> t.0 == mcap_has_stats(data@),
        r matches Some(t) ==> t.1@ == mcap_counts(data@),
        r matches Some(t) ==> forall|i: int, j: int|
            0 <= i < j < t.2@.len() ==> (#[trigger] t.2@[i]).id != (#[trigger] t.2@[j]).id,
        r matches Some(t) ==> forall|i: int|
            0 <= i < t.2@.len() ==> mcap_channels(data@).contains_pair(
                (#[trigger] t.2@[i]).id,
                t.2@[i]@,
            ),
        r matches Some(t) ==> forall|id: u16|
            mcap_channels(data@).dom().contains(id) ==> exists|i: int|
                0 <= i < t.2@.len() && (#[trigger] t.2@[i]).id == id,
{
    let s = match mcap::read::Summary::read(data) { Ok(Some(s)) => s, _ => return None };
    let mut counts = Vec::new();
    let mut channels = Vec::new();
    if let Some(st) = &s.stats {
        for (k, v) in st.channel_message_counts.iter() { counts.push((*k, *v)); }
    }
    for (k, ch) in s.channels.iter() {
        let schema = ch.schema.as_ref().map(|x| SchemaInfo { name: x.name.clone(), encoding: x.encoding.clone() });
        channels.push(ChannelEntry { id: *k, topic: ch.topic.clone(), schema });
    }
    Some((s.stats.is_some(), counts, channels))
}

/// A schema carried by a message's channel: name, encoding, and the schema
/// definition bytes.
#[derive(Debug, Clone)]
pub struct SchemaRecord {
    pub name: String,
    pub encoding: String,
    pub data: Vec<u8>,
}

/// One message envelope together with everything its channel declares, enough
/// to route it, decode it, or copy it verbatim into a new container file.
#[derive(Debug, Clone)]
pub struct MessageRecord {
    pub channel_id: u16,
    pub topic: String,
    pub schema: Option<SchemaRecord>,
    pub message_encoding: String,
    pub sequence: u32,
    pub log_time: u64,
    pub publish_time: u64,
    pub data: Vec<u8>,
}

/// Abstract value of a [`MessageRecord`].
pub struct MessageView {
    pub channel_id: u16,
    pub topic: Seq<char>,
    pub schema: Option<(Seq<char>, Seq<char>, Seq<u8>)>,
    pub message_encoding: Seq<char>,
    pub sequence: u32,
    pub log_time: u64,
    pub publish_time: u64,
    pub data: Seq<u8>,
}

impl View for MessageRecord {
    type V = MessageView;

    open spec fn view(&self) -> MessageView {
        MessageView {
            channel_id: self.channel_id,
            topic: self.topic@,
            schema: match self.schema {
                Some(s) => Some((s.name@, s.encoding@, s.data@)),
                None => None,
            },
            message_encoding: self.message_encoding@,
            sequence: self.sequence,
            log_time: self.log_time,
            publish_time: self.publish_time,
            data: self.data@,
        }
    }
}

/// The view of a message list.
pub open spec fn msgs_view(s: Seq<MessageRecord>) -> Seq<MessageView> {
    Seq::new(s.len(), |i: int| s[i]@)
}

/// Whether every message of a container file can be streamed out.
pub uninterp spec fn mcap_messages_ok(data: Seq<u8>) -> bool;

/// The messages of a container file, in stored order.
pub uninterp spec fn mcap_messages(data: Seq<u8>) -> Seq<MessageView>;

/// Relies on mcap::MessageStream: yields the file's messages in stored order,
/// a function of the file's bytes alone.
#[verifier::external_body]
fn read_messages_raw(data: &Vec<u8>) -> (r: Result<Vec<MessageRecord>, String>)
    ensures
        r is Ok <==> mcap_messages_ok(data@),
        r matches Ok(v) ==> msgs_view(v@) == mcap_messages(data@),
{
    let mut out = Vec::new();
    for m in mcap::MessageStream::new(data).map_err(|e| e.to_string())? {
        let m = m.map_err(|e| e.to_string())?;
        let c = &m.channel;
        let schema = c.schema.as_ref().map(|x| SchemaRecord { name: x.name.clone(), encoding: x.encoding.clone(), data: x.data.to_vec() });
        out.push(MessageRecord { channel_id: c.id, topic: c.topic.clone(), schema, message_encoding: c.message_encoding.clone(), sequence: m.sequence, log_time: m.log_time, publish_time: m.publish_time, data: m.data.to_vec() });
    }
    Ok(out)
}

/// Loads every message of one container file, in stored order. Fails with
/// `Container` exactly when the file cannot be streamed to its end.
pub fn load_messages(data: &Vec<u8>) -> (r: Result<Vec<MessageRecord>, Error>)
    ensures
        r is Ok <==> mcap_messages_ok(data@),
        r matches Ok(v) ==> msgs_view(v@) == mcap_messages(data@),
        r matches Err(e) ==> e matches Error::Container(_),
{
    match read_messages_raw(data) {
        Ok(v) => Ok(v),
        Err(e) => Err(Error::Container(e)),
    }
}

/// A file summary drawn faithfully from a file's bytes: same statistics
/// presence and counts, and a duplicate-free channel list that enumerates
/// exactly the file's channel map.
pub open spec fn file_sum_matches(v: crate::catalog::FileSummaryView, name: Seq<char>, data: Seq<u8>) -> bool {
    &&& v.name == name
    &&& v.has_stats == mcap_has_stats(data)
    &&& v.counts == mcap_counts(data)
    &&& forall|i: int, j: int|
        0 <= i < j < v.channels.len() ==> (#[trigger] v.channels[i]).id != (
        #[trigger] v.channels[j]).id
    &&& forall|i: int|
        0 <= i < v.channels.len() ==> mcap_channels(data).contains_pair(
            (#[trigger] v.channels[i]).id,
            v.channels[i],
        )
    &&& forall|id: u16|
        mcap_channels(data).dom().contains(id) ==> exists|i: int|
            0 <= i < v.channels.len() && (#[trigger] v.channels[i]).id == id
}

/// Each summary view drawn faithfully from the file at the same position.
pub open spec fn files_match(fsv: Seq<crate::catalog::FileSummaryView>, files: Seq<FileRecord>) -> bool {
    &&& fsv.len() == files.len()
    &&& forall|i: int|
        0 <= i < files.len() ==> file_sum_matches(
            #[trigger] fsv[i],
            files[i].name@,
            files[i].data@,
        )
}

/// A topic list that presents a catalog: sorted by strictly ascending id,
/// carrying exactly the catalog's pairs.
pub open spec fn presents_catalog(v: Seq<Topic>, m: Map<u16, TopicModel>) -> bool {
    &&& forall|j: int, k: int| 0 <= j < k < v.len() ==> v[j].id < v[k].id
    &&& forall|j: int| 0 <= j < v.len() ==> m.contains_pair((#[trigger] v[j]).id, topic_model(v[j]))
    &&& forall|id: u16|
        m.dom().contains(id) ==> exists|j: int| 0 <= j < v.len() && (#[trigger] v[j]).id == id
}

/// Reads the summary of every input file and merges them into one topic list
/// sorted by channel id. Fails with `NoSummary` naming the first file whose
/// summary cannot be read, then with `NoStatistics` naming the first file
/// whose statistics are absent; no partial result is returned.
pub fn summary(files: &Vec<FileRecord>) -> (r: Result<Vec<Topic>, Error>)
    ensures
        r matches Err(e) ==> (e matches Error::NoSummary(n) ==> exists|i: int|
            {
                &&& 0 <= i < files@.len()
                &&& !mcap_summary_ok((#[trigger] files@[i]).data@)
                &&& forall|j: int| 0 <= j < i ==> mcap_summary_ok((#[trigger] files@[j]).data@)
                &&& n@ == files@[i].name@
            }),
        r matches Err(e) ==> (e matches Error::NoStatistics(n) ==> {
            &&& forall|i: int| 0 <= i < files@.len() ==> mcap_summary_ok((#[trigger] files@[i]).data@)
            &&& exists|i: int|
                {
                    &&& 0 <= i < files@.len()
                    &&& !mcap_has_stats((#[trigger] files@[i]).data@)
                    &&& forall|j: int|
                        0 <= j < i ==> mcap_has_stats((#[trigger] files@[j]).data@)
                    &&& n@ == files@[i].name@
                }
        }),
        r matches Err(e) ==> (e matches Error::NoSummary(_) || e matches Error::NoStatistics(_)),
        r is Err <==> (exists|i: int|
            0 <= i < files@.len() && (!mcap_summary_ok((#[trigger] files@[i]).data@)
                || !mcap_has_stats(files@[i].data@))),
        r matches Ok(v) ==> exists|fsv: Seq<crate::catalog::FileSummaryView>|
            {
                &&& #[trigger] files_match(fsv, files@)
                &&& presents_catalog(v@, catalog_map(fsv))
            },
{
    let mut sums: Vec<FileSummary> = Vec::new();
    let n = files.len();
    let mut i: usize = 0;
    while i < n
        invariant
            i <= n == files@.len(),
            sums@.len() == i,
            forall|j: int|
                0 <= j < i ==> file_sum_matches(
                    #[trigger] sums@[j]@,
                    files@[j].name@,
                    files@[j].data@,
                ),
            forall|j: int| 0 <= j < i ==> mcap_summary_ok((#[trigger] files@[j]).data@),
        decreases n - i,
    {
        let file = &files[i];
        let (has_stats, counts, channels) = match read_summary_raw(&file.data) {
            Some(t) => t,
            None => {
                proof {
                    assert(!mcap_summary_ok(files@[i as int].data@));
                }
                return Err(Error::NoSummary(file.name.clone()));
            },
        };
        let s = FileSummary { name: file.name.clone(), has_stats, counts, channels };
        proof {
            let data = files@[i as int].data@;
            assert forall|k: int| 0 <= k < s.channels@.len() implies (#[trigger] s@.channels[k]).id
                == s.channels@[k].id by {
                assert(s@.channels[k] == s.channels@[k]@);
            }
            assert forall|k: int| 0 <= k < s@.channels.len() implies mcap_channels(
                data,
            ).contains_pair((#[trigger] s@.channels[k]).id, s@.channels[k]) by {
                assert(mcap_channels(data).contains_pair(s.channels@[k].id, s.channels@[k]@));
            }
            assert forall|id: u16| mcap_channels(data).dom().contains(id) implies exists|k: int|
                0 <= k < s@.channels.len() && (#[trigger] s@.channels[k]).id == id by {
                let k = choose|k: int| 0 <= k < s.channels@.len() && (#[trigger] s.channels@[k]).id
                    == id;
                assert(0 <= k < s@.channels.len() && s@.channels[k].id == id);
            }
            assert(file_sum_matches(s@, files@[i as int].name@, files@[i as int].data@));
        }
        sums.push(s);
        i = i + 1;
    }
    let ghost fsv = summaries_view(sums@);
    proof {
        assert(files_match(fsv, files@));
    }
    match merge_catalog(&sums) {
        Ok(v) => {
            proof {
                assert forall|q: int| 0 <= q < files@.len() implies mcap_has_stats(
                    (#[trigger] files@[q]).data@,
                ) by {
                    assert(sums@[q]@.has_stats);
                    assert(file_sum_matches(sums@[q]@, files@[q].name@, files@[q].data@));
                }
                assert(files_match(fsv, files@) && presents_catalog(v@, catalog_map(fsv)));
            }
            Ok(v)
        },
        Err(e) => {
            proof {
                let i = choose|i: int|
                    {
                        &&& 0 <= i < sums@.len()
                        &&& !(#[trigger] sums@[i]@).has_stats
                        &&& forall|j: int| 0 <= j < i ==> (#[trigger] sums@[j]@).has_stats
                        &&& e matches Error::NoStatistics(n) && n@ == sums@[i]@.name
                    };
                assert(file_sum_matches(sums@[i]@, files@[i].name@, files@[i].data@));
                assert(!mcap_has_stats(files@[i].data@));
                assert forall|j: int| 0 <= j < i implies mcap_has_stats(
                    (#[trigger] files@[j]).data@,
                ) by {
                    assert(sums@[j]@.has_stats);
                    assert(file_sum_matches(sums@[j]@, files@[j].name@, files@[j].data@));
                }
            }
            Err(e)
        },
    }
}

} // verus!
