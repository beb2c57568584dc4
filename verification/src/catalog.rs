//! The topic catalog: per-file summary data is merged into one consolidated
//! topic list, keyed by channel id.
//!
//! Name and schema fields are overwritten by the latest contributing file
//! (last write wins); `msg_count` is summed across files only while every
//! contributing file reports a count for the channel and the total stays
//! representable, and otherwise becomes unknown and stays unknown.

use vstd::prelude::*;

use crate::errors::Error;
use vstd::string::StringExecFns;

verus! {

/// A schema: its name and its encoding.
#[derive(Debug, Clone)]
pub struct SchemaInfo {
    pub name: String,
    pub encoding: String,
}

/// One channel as an input file's summary reports it.
#[derive(Debug, Clone)]
pub struct ChannelEntry {
    pub id: u16,
    pub topic: String,
    pub schema: Option<SchemaInfo>,
}

/// Abstract value of a [`ChannelEntry`]: a missing schema reads as empty
/// name and encoding.
pub struct ChannelView {
    pub id: u16,
    pub topic: Seq<char>,
    pub fmt: Seq<char>,
    pub enc: Seq<char>,
}

impl View for ChannelEntry {
    type V = ChannelView;

    open spec fn view(&self) -> ChannelView {
        match self.schema {
            Some(s) => ChannelView {
                id: self.id,
                topic: self.topic@,
                fmt: s.name@,
                enc: s.encoding@,
            },
            None => ChannelView {
                id: self.id,
                topic: self.topic@,
                fmt: Seq::empty(),
                enc: Seq::empty(),
            },
        }
    }
}

/// Everything the catalog needs from one input file: a display name, whether
/// the statistics sub-section is present, the per-channel message counts, and
/// the channel list.
#[derive(Debug, Clone)]
pub struct FileSummary {
    pub name: String,
    pub has_stats: bool,
    pub counts: Vec<(u16, u64)>,
    pub channels: Vec<ChannelEntry>,
}

/// Abstract value of a [`FileSummary`].
pub struct FileSummaryView {
    pub name: Seq<char>,
    pub has_stats: bool,
    pub counts: Seq<(u16, u64)>,
    pub channels: Seq<ChannelView>,
}

impl View for FileSummary {
    type V = FileSummaryView;

    open spec fn view(&self) -> FileSummaryView {
        FileSummaryView {
            name: self.name@,
            has_stats: self.has_stats,
            counts: self.counts@,
            channels: Seq::new(self.channels@.len(), |i: int| self.channels@[i]@),
        }
    }
}

/// One consolidated topic of the catalog.
#[derive(Debug, Clone)]
pub struct Topic {
    pub id: u16,
    pub name: String,
    pub format: String,
    pub description: String,
    pub msg_count: Option<u64>,
}

/// Abstract value of a merged topic.
pub struct TopicModel {
    pub topic: Seq<char>,
    pub format: Seq<char>,
    pub description: Seq<char>,
    pub count: Option<u64>,
}

/// The abstract value a [`Topic`] carries.
pub open spec fn topic_model(t: Topic) -> TopicModel {
    TopicModel {
        topic: t.name@,
        format: t.format@,
        description: t.description@,
        count: t.msg_count,
    }
}

/// The description text derived from a schema encoding.
pub open spec fn desc_of(enc: Seq<char>) -> Seq<char> {
    "Encoding: "@ + enc
}

/// The first count reported for `id`, if any.
pub open spec fn lookup_count(s: Seq<(u16, u64)>, id: u16) -> Option<u64>
    decreases s.len(),
{
    if s.len() == 0 {
        None
    } else if s[0].0 == id {
        Some(s[0].1)
    } else {
        lookup_count(s.drop_first(), id)
    }
}

/// Accumulates a channel's running count with one more file's report: the sum
/// while both are known and it stays representable, else unknown.
pub open spec fn combine_counts(prev: Option<u64>, cur: Option<u64>) -> Option<u64> {
    match (prev, cur) {
        (Some(p), Some(c)) => if p + c <= u64::MAX {
            Some((p + c) as u64)
        } else {
            None
        },
        _ => None,
    }
}

/// Folds one reported channel into the catalog.
pub open spec fn upd_entry(
    m: Map<u16, TopicModel>,
    counts: Seq<(u16, u64)>,
    e: ChannelView,
) -> Map<u16, TopicModel> {
    let c = lookup_count(counts, e.id);
    let count = if m.dom().contains(e.id) {
        combine_counts(m[e.id].count, c)
    } else {
        c
    };
    m.insert(e.id, TopicModel { topic: e.topic, format: e.fmt, description: desc_of(e.enc), count })
}

/// Folds one file's channel list into the catalog, in list order.
pub open spec fn upd_entries(
    m: Map<u16, TopicModel>,
    counts: Seq<(u16, u64)>,
    es: Seq<ChannelView>,
) -> Map<u16, TopicModel>
    decreases es.len(),
{
    if es.len() == 0 {
        m
    } else {
        upd_entries(upd_entry(m, counts, es[0]), counts, es.drop_first())
    }
}

/// Folds a run of files into the catalog, in file order.
pub open spec fn catalog_map_from(
    m: Map<u16, TopicModel>,
    files: Seq<FileSummaryView>,
) -> Map<u16, TopicModel>
    decreases files.len(),
{
    if files.len() == 0 {
        m
    } else {
        catalog_map_from(upd_entries(m, files[0].counts, files[0].channels), files.drop_first())
    }
}

/// The consolidated catalog of a run of files, keyed by channel id.
pub open spec fn catalog_map(files: Seq<FileSummaryView>) -> Map<u16, TopicModel> {
    catalog_map_from(Map::empty(), files)
}

/// The view of a sequence of file summaries.
pub open spec fn summaries_view(files: Seq<FileSummary>) -> Seq<FileSummaryView> {
    Seq::new(files.len(), |i: int| files[i]@)
}

/// The first count reported for `id`, scanned front to back.
fn lookup_count_exec(counts: &Vec<(u16, u64)>, id: u16) -> (r: Option<u64>)
    ensures
        r == lookup_count(counts@, id),
{
    let n = counts.len();
    proof {
        assert(counts@.subrange(0, n as int) =~= counts@);
    }
    let mut i: usize = 0;
    while i < n
        invariant
            i <= n == counts@.len(),
            lookup_count(counts@, id) == lookup_count(counts@.subrange(i as int, n as int), id),
        decreases n - i,
    {
        let ghost rest = counts@.subrange(i as int, n as int);
        if counts[i].0 == id {
            proof {
                assert(rest[0] == counts@[i as int]);
            }
            return Some(counts[i].1);
        }
        proof {
            assert(rest.drop_first() =~= counts@.subrange(i + 1, n as int));
        }
        i = i + 1;
    }
    proof {
        assert(counts@.subrange(n as int, n as int) =~= Seq::<(u16, u64)>::empty());
    }
    None
}

/// Merges the summaries of a run of files into one topic list sorted by
/// ascending channel id. Fails with `NoStatistics`, naming the first file
/// whose statistics sub-section is absent, and succeeds otherwise.
pub fn merge_catalog(files: &Vec<FileSummary>) -> (r: Result<Vec<Topic>, Error>)
    ensures
        r is Ok <==> (forall|i: int| 0 <= i < files@.len() ==> (#[trigger] files@[i]@).has_stats),
        r matches Err(e) ==> exists|i: int|
            {
                &&& 0 <= i < files@.len()
                &&& !(#[trigger] files@[i]@).has_stats
                &&& forall|j: int| 0 <= j < i ==> (#[trigger] files@[j]@).has_stats
                &&& e matches Error::NoStatistics(n) && n@ == files@[i]@.name
            },
        r matches Ok(v) ==> {
            let m = catalog_map(summaries_view(files@));
            &&& forall|j: int, k: int| 0 <= j < k < v@.len() ==> v@[j].id < v@[k].id
            &&& forall|j: int|
                0 <= j < v@.len() ==> m.contains_pair(
                    (#[trigger] v@[j]).id,
                    topic_model(v@[j]),
                )
            &&& forall|id: u16|
                m.dom().contains(id) ==> exists|j: int| 0 <= j < v@.len() && (#[trigger] v@[j]).id == id
        },
{
    let ghost all = summaries_view(files@);
    let mut out: Vec<Topic> = Vec::new();
    let nf = files.len();
    proof {
        assert(merged_of(out@) =~= Map::<u16, TopicModel>::empty());
        assert(all.subrange(0, nf as int) =~= all);
    }
    let mut fi: usize = 0;
    while fi < nf
        invariant
            fi <= nf == files@.len(),
            forall|j: int| 0 <= j < fi ==> (#[trigger] files@[j]@).has_stats,
            all == summaries_view(files@),
            catalog_map(all) == catalog_map_from(
                merged_of(out@),
                all.subrange(fi as int, nf as int),
            ),
            sorted_unique(out@),
        decreases nf - fi,
    {
        let file = &files[fi];
        if !file.has_stats {
            return Err(Error::NoStatistics(file.name.clone()));
        }
        let ghost m_before = merged_of(out@);
        let nc = file.channels.len();
        proof {
            assert(file@.channels.subrange(0, nc as int) =~= file@.channels);
        }
        let mut ei: usize = 0;
        while ei < nc
            invariant
                ei <= nc == file.channels@.len(),
                upd_entries(m_before, file.counts@, file@.channels) == upd_entries(
                    merged_of(out@),
                    file.counts@,
                    file@.channels.subrange(ei as int, nc as int),
                ),
                sorted_unique(out@),
            decreases nc - ei,
        {
            let ghost rest = file@.channels.subrange(ei as int, nc as int);
            let e = &file.channels[ei];
            proof {
                assert(rest[0] == file@.channels[ei as int]);
                assert(rest.drop_first() =~= file@.channels.subrange(ei + 1, nc as int));
            }
            apply_entry(&mut out, e, &file.counts);
            ei = ei + 1;
        }
        proof {
            assert(file@.channels.subrange(nc as int, nc as int) =~= Seq::<ChannelView>::empty());
            assert(all[fi as int] == file@);
            assert(all.subrange(fi as int, nf as int)[0] == all[fi as int]);
            assert(all.subrange(fi as int, nf as int).drop_first() =~= all.subrange(
                fi + 1,
                nf as int,
            ));
        }
        fi = fi + 1;
    }
    proof {
        assert(all.subrange(nf as int, nf as int) =~= Seq::<FileSummaryView>::empty());
        lemma_merged_pairs(out@);
    }
    Ok(out)
}

/// A sorted, duplicate-free topic list carries exactly the pairs of the
/// catalog it stands for.
proof fn lemma_merged_pairs(out: Seq<Topic>)
    requires
        sorted_unique(out),
    ensures
        forall|j: int|
            0 <= j < out.len() ==> merged_of(out).contains_pair(
                (#[trigger] out[j]).id,
                topic_model(out[j]),
            ),
        forall|id: u16|
            merged_of(out).dom().contains(id) ==> exists|j: int|
                0 <= j < out.len() && (#[trigger] out[j]).id == id,
{
    assert forall|j: int| 0 <= j < out.len() implies merged_of(out).contains_pair(
        (#[trigger] out[j]).id,
        topic_model(out[j]),
    ) by {
        let id = out[j].id;
        assert(merged_of(out).dom().contains(id));
        let k = choose|k: int| 0 <= k < out.len() && (#[trigger] out[k]).id == id;
        assert(k == j) by {
            if k != j {
                if k < j {
                    assert(out[k].id < out[j].id);
                } else {
                    assert(out[j].id < out[k].id);
                }
            }
        }
    }
}

/// The catalog a topic list stands for: each listed topic under its id.
pub open spec fn merged_of(out: Seq<Topic>) -> Map<u16, TopicModel> {
    Map::new(
        |id: u16| exists|j: int| 0 <= j < out.len() && (#[trigger] out[j]).id == id,
        |id: u16| topic_model(out[choose|j: int| 0 <= j < out.len() && (#[trigger] out[j]).id == id]),
    )
}

/// Ids strictly increase along the list.
pub open spec fn sorted_unique(out: Seq<Topic>) -> bool {
    forall|j: int, k: int| 0 <= j < k < out.len() ==> out[j].id < out[k].id
}

/// Folds one channel entry into the sorted topic list, updating the topic of
/// the same id in place or inserting a fresh one at its sorted position.
fn apply_entry(out: &mut Vec<Topic>, e: &ChannelEntry, counts: &Vec<(u16, u64)>)
    requires
        sorted_unique(old(out)@),
    ensures
        sorted_unique(final(out)@),
        merged_of(final(out)@) == upd_entry(merged_of(old(out)@), counts@, e@),
{
    let c = lookup_count_exec(counts, e.id);
    let (format, encoding) = match &e.schema {
        Some(s) => (s.name.clone(), s.encoding.clone()),
        None => (String::new(), String::new()),
    };
    let description = String::from_str("Encoding: ").concat(encoding.as_str());
    proof {
        assert(format@ == e@.fmt);
        assert(encoding@ == e@.enc);
        assert(description@ == desc_of(e@.enc));
    }
    let n = out.len();
    let mut j: usize = 0;
    while j < n && out[j].id < e.id
        invariant
            j <= n == out@.len(),
            forall|k: int| 0 <= k < j ==> (#[trigger] out@[k]).id < e.id,
            sorted_unique(out@),
        decreases n - j,
    {
        j = j + 1;
    }
    if j < n && out[j].id == e.id {
        let count = match (out[j].msg_count, c) {
            (Some(p), Some(x)) => if p <= u64::MAX - x {
                Some(p + x)
            } else {
                None
            },
            _ => None,
        };
        proof {
            assert(count == combine_counts(out@[j as int].msg_count, lookup_count(counts@, e.id)));
        }
        let t = Topic {
            id: e.id,
            name: e.topic.clone(),
            format: format.clone(),
            description: description.clone(),
            msg_count: count,
        };
        proof {
            assert(topic_model(t) == (TopicModel {
                topic: e@.topic,
                format: e@.fmt,
                description: desc_of(e@.enc),
                count: combine_counts(out@[j as int].msg_count, lookup_count(counts@, e@.id)),
            }));
        }
        let ghost before = out@;
        out[j] = t;
        proof {
            lemma_merged_update(before, out@, j as int, counts@, e@);
        }
    } else {
        proof {
            if j < n {
                assert(out@[j as int].id > e.id);
            }
            assert forall|k: int| j <= k < out@.len() implies (#[trigger] out@[k]).id > e.id by {
                if k > j {
                    assert(out@[j as int].id < out@[k].id);
                }
            }
        }
        let t = Topic { id: e.id, name: e.topic.clone(), format, description, msg_count: c };
        let ghost before = out@;
        out.insert(j, t);
        proof {
            lemma_merged_insert(before, out@, j as int, counts@, e@);
        }
    }
}

/// After replacing the one topic that carried `e.id`, the list stands for the
/// updated catalog.
proof fn lemma_merged_update(
    before: Seq<Topic>,
    after: Seq<Topic>,
    j: int,
    counts: Seq<(u16, u64)>,
    e: ChannelView,
)
    requires
        sorted_unique(before),
        0 <= j < before.len(),
        before[j].id == e.id,
        after == before.update(j, after[j]),
        after.len() == before.len(),
        after[j].id == e.id,
        topic_model(after[j]) == (TopicModel {
            topic: e.topic,
            format: e.fmt,
            description: desc_of(e.enc),
            count: combine_counts(before[j].msg_count, lookup_count(counts, e.id)),
        }),
    ensures
        sorted_unique(after),
        merged_of(after) == upd_entry(merged_of(before), counts, e),
{
    assert forall|p: int, k: int| 0 <= p < k < after.len() implies after[p].id < after[k].id by {
        assert(before[p].id < before[k].id);
    }
    let mb = merged_of(before);
    let ma = merged_of(after);
    let mu = upd_entry(mb, counts, e);
    assert(mb.dom().contains(e.id));
    assert forall|id: u16| ma.dom().contains(id) <==> mu.dom().contains(id) by {
        if id == e.id {
            assert(ma.dom().contains(id));
        } else {
            assert((exists|k: int| 0 <= k < after.len() && (#[trigger] after[k]).id == id)
                <==> (exists|k: int| 0 <= k < before.len() && (#[trigger] before[k]).id == id))
                by {
                if exists|k: int| 0 <= k < after.len() && (#[trigger] after[k]).id == id {
                    let k = choose|k: int|
                        0 <= k < after.len() && (#[trigger] after[k]).id == id;
                    assert(before[k].id == id);
                }
                if exists|k: int| 0 <= k < before.len() && (#[trigger] before[k]).id == id {
                    let k = choose|k: int|
                        0 <= k < before.len() && (#[trigger] before[k]).id == id;
                    assert(after[k].id == id);
                }
            }
        }
    }
    assert forall|id: u16| ma.dom().contains(id) implies ma[id] == mu[id] by {
        let k = choose|k: int| 0 <= k < after.len() && (#[trigger] after[k]).id == id;
        if id == e.id {
            assert(k == j) by {
                if k != j {
                    assert(after[k].id == after[j].id);
                    if k < j {
                        assert(after[k].id < after[j].id);
                    } else {
                        assert(after[j].id < after[k].id);
                    }
                }
            }
            assert(ma[id] == topic_model(after[j]));
            let kb = choose|k: int| 0 <= k < before.len() && (#[trigger] before[k]).id == id;
            assert(kb == j) by {
                if kb != j {
                    if kb < j {
                        assert(before[kb].id < before[j].id);
                    } else {
                        assert(before[j].id < before[kb].id);
                    }
                }
            }
            assert(mb[id] == topic_model(before[j]));
        } else {
            assert(k != j);
            assert(before[k].id == id);
            let kb = choose|k: int| 0 <= k < before.len() && (#[trigger] before[k]).id == id;
            assert(kb == k) by {
                if kb != k {
                    if kb < k {
                        assert(before[kb].id < before[k].id);
                    } else {
                        assert(before[k].id < before[kb].id);
                    }
                }
            }
            assert(after[k] == before[k]);
        }
    }
    assert(ma =~= mu);
}

/// After inserting a topic for an id the list did not carry, at its sorted
/// position, the list stands for the extended catalog.
proof fn lemma_merged_insert(
    before: Seq<Topic>,
    after: Seq<Topic>,
    j: int,
    counts: Seq<(u16, u64)>,
    e: ChannelView,
)
    requires
        sorted_unique(before),
        0 <= j <= before.len(),
        forall|k: int| 0 <= k < j ==> (#[trigger] before[k]).id < e.id,
        forall|k: int| j <= k < before.len() ==> (#[trigger] before[k]).id > e.id,
        after == before.insert(j, after[j]),
        after.len() == before.len() + 1,
        after[j].id == e.id,
        topic_model(after[j]) == (TopicModel {
            topic: e.topic,
            format: e.fmt,
            description: desc_of(e.enc),
            count: lookup_count(counts, e.id),
        }),
    ensures
        sorted_unique(after),
        merged_of(after) == upd_entry(merged_of(before), counts, e),
{
    assert forall|p: int, k: int| 0 <= p < k < after.len() implies after[p].id < after[k].id by {
        if p < j && k < j {
            assert(before[p].id < before[k].id);
        } else if p < j && k == j {
            assert(before[p].id < e.id);
        } else if p < j && k > j {
            assert(before[p].id < before[k - 1].id);
        } else if p == j {
            assert(before[k - 1].id > e.id);
        } else {
            assert(before[p - 1].id < before[k - 1].id);
        }
    }
    let mb = merged_of(before);
    let ma = merged_of(after);
    let mu = upd_entry(mb, counts, e);
    assert(!mb.dom().contains(e.id)) by {
        if exists|k: int| 0 <= k < before.len() && (#[trigger] before[k]).id == e.id {
            let k = choose|k: int| 0 <= k < before.len() && (#[trigger] before[k]).id == e.id;
            if k < j {
                assert(before[k].id < e.id);
            } else {
                assert(before[k].id > e.id);
            }
        }
    }
    assert forall|id: u16| ma.dom().contains(id) <==> mu.dom().contains(id) by {
        if id == e.id {
            assert(after[j].id == id);
            assert(ma.dom().contains(id));
        } else {
            if exists|k: int| 0 <= k < after.len() && (#[trigger] after[k]).id == id {
                let k = choose|k: int| 0 <= k < after.len() && (#[trigger] after[k]).id == id;
                if k < j {
                    assert(before[k].id == id);
                } else {
                    assert(k > j);
                    assert(before[k - 1].id == id);
                }
            }
            if exists|k: int| 0 <= k < before.len() && (#[trigger] before[k]).id == id {
                let k = choose|k: int| 0 <= k < before.len() && (#[trigger] before[k]).id == id;
                if k < j {
                    assert(after[k].id == id);
                } else {
                    assert(after[k + 1].id == id);
                }
            }
        }
    }
    assert forall|id: u16| ma.dom().contains(id) implies ma[id] == mu[id] by {
        let k = choose|k: int| 0 <= k < after.len() && (#[trigger] after[k]).id == id;
        if id == e.id {
            assert(k == j) by {
                if k != j {
                    if k < j {
                        assert(after[k].id < after[j].id);
                    } else {
                        assert(after[j].id < after[k].id);
                    }
                }
            }
        } else {
            assert(k != j);
            let kb: int = if k < j {
                k
            } else {
                k - 1
            };
            assert(before[kb].id == id);
            assert(after[k] == before[kb]);
            let kc = choose|k2: int| 0 <= k2 < before.len() && (#[trigger] before[k2]).id == id;
            assert(kc == kb) by {
                if kc != kb {
                    if kc < kb {
                        assert(before[kc].id < before[kb].id);
                    } else {
                        assert(before[kb].id < before[kc].id);
                    }
                }
            }
        }
    }
    assert(ma =~= mu);
}

} // verus!
