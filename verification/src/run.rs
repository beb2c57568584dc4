//! Whole-run drivers over in-memory message streams, and the run model the
//! laws are stated over. Files are visited in the order given and messages in
//! stored order; the pipeline never re-sorts across files, so the admitted
//! sequence interleaves files exactly as they stand.

use vstd::prelude::*;

use crate::cancel::CancelToken;
use crate::container::{
    load_messages, mcap_messages, mcap_messages_ok, msgs_view, FileRecord, MessageRecord,
    MessageView,
};
use crate::errors::Error;
use crate::extract::{
    lemma_reg_find_range, lemma_reg_find_shape, lemma_routed_err, lemma_routed_ok, reg_find,
    reg_shape_eq, routed_matches, step_error, Dispatcher, Routed, StepOutcome, TopicDecoder,
};
use crate::window::{gate, Gate, Window};

verus! {

/// The messages a run admits, in order: publish times before the window are
/// passed over, and the first publish time past the window ends the run.
pub open spec fn admitted(msgs: Seq<MessageView>, w: Window) -> Seq<MessageView>
    decreases msgs.len(),
{
    if msgs.len() == 0 {
        Seq::empty()
    } else {
        match gate(w, msgs[0].publish_time) {
            Gate::Before => admitted(msgs.drop_first(), w),
            Gate::After => Seq::empty(),
            Gate::Inside => seq![msgs[0]] + admitted(msgs.drop_first(), w),
        }
    }
}

/// The run model with cancellation: `cancels[i]` is what the poll before
/// message `i` observes. The result is the admitted messages up to the end,
/// paired with whether the run was interrupted.
pub open spec fn run_visits(msgs: Seq<MessageView>, cancels: Seq<bool>, w: Window) -> (
    Seq<MessageView>,
    bool,
)
    decreases msgs.len(),
{
    if msgs.len() == 0 {
        (Seq::empty(), false)
    } else if cancels[0] {
        (Seq::empty(), true)
    } else {
        match gate(w, msgs[0].publish_time) {
            Gate::Before => run_visits(msgs.drop_first(), cancels.drop_first(), w),
            Gate::After => (Seq::empty(), false),
            Gate::Inside => {
                let rest = run_visits(msgs.drop_first(), cancels.drop_first(), w);
                (seq![msgs[0]] + rest.0, rest.1)
            },
        }
    }
}

/// A run that observes no cancellation admits exactly [`admitted`] and is not
/// interrupted.
pub proof fn lemma_run_no_cancel(msgs: Seq<MessageView>, cancels: Seq<bool>, w: Window)
    requires
        forall|i: int| 0 <= i < cancels.len() ==> !(#[trigger] cancels[i]),
        cancels.len() == msgs.len(),
    ensures
        run_visits(msgs, cancels, w).0 == admitted(msgs, w),
        !run_visits(msgs, cancels, w).1,
    decreases msgs.len(),
{
    if msgs.len() > 0 {
        assert(!cancels[0]);
        lemma_run_no_cancel(msgs.drop_first(), cancels.drop_first(), w);
    }
}

/// Cancellation observed at the second poll: when the first message does not
/// already end the run, at most one message is admitted and the run is
/// interrupted — never reported as a completed run.
pub proof fn lemma_cancel_before_second(msgs: Seq<MessageView>, cancels: Seq<bool>, w: Window)
    requires
        msgs.len() >= 2,
        cancels.len() == msgs.len(),
        !cancels[0],
        cancels[1],
        gate(w, msgs[0].publish_time) != Gate::After,
    ensures
        run_visits(msgs, cancels, w).0.len() <= 1,
        run_visits(msgs, cancels, w).1,
{
    let m1 = msgs.drop_first();
    let c1 = cancels.drop_first();
    assert(c1[0]);
    assert(run_visits(m1, c1, w) == (Seq::<MessageView>::empty(), true));
    if gate(w, msgs[0].publish_time) == Gate::Before {
        assert(run_visits(msgs, cancels, w) == run_visits(m1, c1, w));
    } else {
        assert(run_visits(msgs, cancels, w) == (seq![msgs[0]] + run_visits(m1, c1, w).0, true));
    }
}

/// The full window admits every message, in order and unshortened.
pub proof fn lemma_full_window_admits(msgs: Seq<MessageView>)
    ensures
        admitted(msgs, Window { start: 0u64, stop: u64::MAX }) == msgs,
    decreases msgs.len(),
{
    let w = Window { start: 0u64, stop: u64::MAX };
    if msgs.len() > 0 {
        lemma_full_window_admits(msgs.drop_first());
        assert(gate(w, msgs[0].publish_time) == Gate::Inside);
        assert(seq![msgs[0]] + msgs.drop_first() =~= msgs);
    }
}

/// The (topic, publish time) pairs of a message sequence.
pub open spec fn pairs_of(ms: Seq<MessageView>) -> Seq<(Seq<char>, u64)> {
    Seq::new(ms.len(), |i: int| (ms[i].topic, ms[i].publish_time))
}

/// The view of a collected (topic, publish time) trace.
pub open spec fn pairs_view(v: Seq<(String, u64)>) -> Seq<(Seq<char>, u64)> {
    Seq::new(v.len(), |i: int| (v[i].0@, v[i].1))
}

/// The subsequence of [`admitted`] messages that carry a registered topic:
/// the messages a run routes to a decoder, in routing order.
pub open spec fn routed_of(msgs: Seq<MessageView>, decs: Seq<TopicDecoder>, w: Window) -> Seq<
    MessageView,
>
    decreases msgs.len(),
{
    if msgs.len() == 0 {
        Seq::empty()
    } else {
        match gate(w, msgs[0].publish_time) {
            Gate::Before => routed_of(msgs.drop_first(), decs, w),
            Gate::After => Seq::empty(),
            Gate::Inside => if reg_find(decs, msgs[0].topic) is Some {
                seq![msgs[0]] + routed_of(msgs.drop_first(), decs, w)
            } else {
                routed_of(msgs.drop_first(), decs, w)
            },
        }
    }
}

/// One collected output carries its message's topic and exactly what the
/// registered decoder of that topic owes for the message's payload.
pub open spec fn output_entry_ok(
    decs: Seq<TopicDecoder>,
    mv: MessageView,
    out: (String, Routed),
) -> bool {
    &&& out.0@ == mv.topic
    &&& (match reg_find(decs, mv.topic) {
        Some(j) => routed_matches(decs[j].kind, mv.data, out.1),
        None => false,
    })
}

/// The collected outputs are, entry by entry, exactly what the registered
/// decoder of each routed message owes for its payload.
pub open spec fn outputs_match(
    outs: Seq<(String, Routed)>,
    ms: Seq<MessageView>,
    decs: Seq<TopicDecoder>,
) -> bool {
    &&& outs.len() == ms.len()
    &&& forall|k: int| 0 <= k < outs.len() ==> output_entry_ok(decs, ms[k], #[trigger] outs[k])
}

/// Some message of the stream is admitted, carries a registered topic, and
/// fails to decode with this error.
pub open spec fn some_message_fails(
    msgs: Seq<MessageView>,
    decs: Seq<TopicDecoder>,
    w: Window,
    e: Error,
) -> bool {
    exists|i: int|
        {
            &&& 0 <= i < msgs.len()
            &&& gate(w, (#[trigger] msgs[i]).publish_time) == Gate::Inside
            &&& (match reg_find(decs, msgs[i].topic) {
                Some(j) => step_error(decs[j].kind, msgs[i].data, e),
                None => false,
            })
        }
}

/// Whatever a routed message did, the dispatcher's registry keeps its
/// length, its topics, and its kinds; only decoder `j`'s accumulator may
/// move.
proof fn lemma_routed_frame(
    pre: Dispatcher,
    post: Dispatcher,
    m: MessageRecord,
    j: int,
    r: Result<StepOutcome, Error>,
)
    requires
        crate::extract::routed_post(pre, post, m, j, r),
    ensures
        post.decs@.len() == pre.decs@.len(),
        forall|k: int|
            0 <= k < pre.decs@.len() && k != j ==> (#[trigger] post.decs@[k]) == pre.decs@[k],
        0 <= j < pre.decs@.len() ==> post.decs@[j].topic == pre.decs@[j].topic
            && post.decs@[j].kind == pre.decs@[j].kind,
{
}

/// A registry that keeps its topics and kinds position by position keeps its
/// shape.
proof fn lemma_shape_preserved(
    decs0: Seq<TopicDecoder>,
    d0: Seq<TopicDecoder>,
    d1: Seq<TopicDecoder>,
    j: int,
)
    requires
        reg_shape_eq(decs0, d0),
        d0.len() == d1.len(),
        forall|k: int| 0 <= k < d0.len() && k != j ==> (#[trigger] d1[k]) == d0[k],
        0 <= j < d0.len() ==> d1[j].topic == d0[j].topic && d1[j].kind == d0[j].kind,
    ensures
        reg_shape_eq(decs0, d1),
{
    assert forall|k: int| 0 <= k < decs0.len() implies {
        &&& (#[trigger] decs0[k]).topic@ == d1[k].topic@
        &&& decs0[k].kind == d1[k].kind
    } by {
        assert(decs0[k].topic@ == d0[k].topic@ && decs0[k].kind == d0[k].kind);
        if k != j {
            assert(d1[k] == d0[k]);
        }
    }
}

/// Appending one routed message and its owed output keeps the output
/// correspondence.
proof fn lemma_outputs_push(
    prev_out: Seq<(String, Routed)>,
    out1: Seq<(String, Routed)>,
    prev_rms: Seq<MessageView>,
    rms1: Seq<MessageView>,
    decs0: Seq<TopicDecoder>,
    mv: MessageView,
    p: (String, Routed),
)
    requires
        outputs_match(prev_out, prev_rms, decs0),
        out1 == prev_out.push(p),
        rms1 == prev_rms.push(mv),
        output_entry_ok(decs0, mv, p),
    ensures
        outputs_match(out1, rms1, decs0),
{
    assert(out1.len() == rms1.len());
    assert forall|k: int| 0 <= k < out1.len() implies output_entry_ok(
        decs0,
        rms1[k],
        #[trigger] out1[k],
    ) by {
        if k < prev_out.len() {
            assert(out1[k] == prev_out[k]);
            assert(rms1[k] == prev_rms[k]);
            assert(output_entry_ok(decs0, prev_rms[k], prev_out[k]));
        } else {
            assert(out1[k] == p);
            assert(rms1[k] == mv);
        }
    }
}

/// What one whole run produced: the in-window messages that were visited, as
/// (topic, publish time) pairs in visiting order, and everything the
/// decoders handed back, in routing order.
#[derive(Debug)]
pub struct RunLog {
    pub visited: Vec<(String, u64)>,
    pub outputs: Vec<(String, Routed)>,
}

/// Drives one dispatcher over an in-memory message stream, polling the token
/// once per message. On a completed run (the stream's end, or the first
/// message past the window), the visited trace is exactly the admitted
/// sequence, in order — nothing is re-sorted — and the outputs are exactly
/// what each routed message's decoder owes. The run fails only for an
/// observed cancellation or for the decode error of some admitted message on
/// a registered topic; an empty stream always completes.
#[verifier::rlimit(100)]
pub fn run_messages(disp: &mut Dispatcher, msgs: &Vec<MessageRecord>, token: &CancelToken) -> (r:
    Result<RunLog, Error>)
    ensures
        r matches Ok(log) ==> pairs_view(log.visited@) == pairs_of(
            admitted(msgs_view(msgs@), old(disp).window),
        ),
        r matches Ok(log) ==> outputs_match(
            log.outputs@,
            routed_of(msgs_view(msgs@), old(disp).decs@, old(disp).window),
            old(disp).decs@,
        ),
        r matches Err(e) ==> (e == Error::Interrupted || some_message_fails(
            msgs_view(msgs@),
            old(disp).decs@,
            old(disp).window,
            e,
        )),
        msgs@.len() == 0 ==> r is Ok,
        final(disp).window == old(disp).window,
    {
        let ghost w = disp.window;
        let ghost all = msgs_view(msgs@);
        let ghost decs0 = disp.decs@;
        let ghost mut rms: Seq<MessageView> = Seq::empty();
        let mut visited: Vec<(String, u64)> = Vec::new();
        let mut outputs: Vec<(String, Routed)> = Vec::new();
        let n = msgs.len();
        proof {
            assert(all.subrange(0, n as int) =~= all);
            assert(rms + routed_of(all, decs0, w) =~= routed_of(all, decs0, w));
            assert(reg_shape_eq(decs0, disp.decs@));
        }
        let mut i: usize = 0;
        while i < n
            invariant
                n == msgs@.len() == all.len(),
                i <= n,
                all == msgs_view(msgs@),
                disp.window == w,
                w == old(disp).window,
                decs0 == old(disp).decs@,
                reg_shape_eq(decs0, disp.decs@),
                pairs_of(admitted(all, w)) == pairs_view(visited@) + pairs_of(
                    admitted(all.subrange(i as int, n as int), w),
                ),
                routed_of(all, decs0, w) == rms + routed_of(
                    all.subrange(i as int, n as int),
                    decs0,
                    w,
                ),
                outputs_match(outputs@, rms, decs0),
            decreases n - i,
        {
            let ghost rest = all.subrange(i as int, n as int);
            let m = &msgs[i];
            proof {
                assert(rest[0] == all[i as int]);
                assert(all[i as int] == m@);
                assert(rest.drop_first() =~= all.subrange(i + 1, n as int));
                assert(m@.topic == m.topic@);
            }
            let cancelled = token.is_cancelled();
            let ghost disp0 = *disp;
            let outcome = match disp.on_message(m, cancelled) {
                Ok(o) => o,
                Err(e) => {
                    proof {
                        if !cancelled {
                            lemma_reg_find_shape(decs0, disp0.decs@, m.topic@, 0);
                            lemma_reg_find_range(disp0.decs@, m.topic@, 0);
                            match reg_find(disp0.decs@, m.topic@) {
                                Option::Some(j) => {
                                    if gate(w, m@.publish_time) == Gate::Inside {
                                        lemma_routed_err(disp0, *disp, *m, j, e);
                                        assert(decs0[j].kind == disp0.decs@[j].kind);
                                        assert(step_error(decs0[j].kind, all[i as int].data, e));
                                        assert(some_message_fails(all, decs0, w, e));
                                    } else {
                                        assert(false);
                                    }
                                },
                                Option::None => {
                                    assert(false);
                                },
                            }
                        }
                    }
                    return Err(e);
                },
            };
            proof {
                lemma_reg_find_shape(decs0, disp0.decs@, m.topic@, 0);
                lemma_reg_find_range(disp0.decs@, m.topic@, 0);
            }
            match outcome {
                StepOutcome::SkippedBefore => {
                    proof {
                        assert(gate(w, m@.publish_time) == Gate::Before) by {
                            if gate(w, m@.publish_time) == Gate::Inside {
                                match reg_find(disp0.decs@, m.topic@) {
                                    Option::Some(j) => {
                                        lemma_routed_ok(
                                            disp0,
                                            *disp,
                                            *m,
                                            j,
                                            StepOutcome::SkippedBefore,
                                        );
                                    },
                                    Option::None => {},
                                }
                            }
                        }
                    }
                },
                StepOutcome::Stopped => {
                    proof {
                        assert(gate(w, m@.publish_time) == Gate::After) by {
                            if gate(w, m@.publish_time) == Gate::Inside {
                                match reg_find(disp0.decs@, m.topic@) {
                                    Option::Some(j) => {
                                        lemma_routed_ok(disp0, *disp, *m, j, StepOutcome::Stopped);
                                    },
                                    Option::None => {},
                                }
                            }
                        }
                        assert(admitted(rest, w) =~= Seq::<MessageView>::empty());
                        assert(pairs_view(visited@) + pairs_of(admitted(rest, w)) =~= pairs_view(
                            visited@,
                        ));
                        assert(routed_of(rest, decs0, w) =~= Seq::<MessageView>::empty());
                        assert(rms + routed_of(rest, decs0, w) =~= rms);
                        assert(routed_of(all, decs0, w) == rms);
                    }
                    return Ok(RunLog { visited, outputs });
                },
                StepOutcome::NoDecoder => {
                    let ghost prev = visited@;
                    visited.push((m.topic.clone(), m.publish_time));
                    proof {
                        assert(gate(w, m@.publish_time) == Gate::Inside && reg_find(
                            disp0.decs@,
                            m.topic@,
                        ) is None) by {
                            if gate(w, m@.publish_time) == Gate::Inside {
                                match reg_find(disp0.decs@, m.topic@) {
                                    Option::Some(j) => {
                                        lemma_routed_ok(
                                            disp0,
                                            *disp,
                                            *m,
                                            j,
                                            StepOutcome::NoDecoder,
                                        );
                                    },
                                    Option::None => {},
                                }
                            }
                        }
                        assert(pairs_view(visited@) =~= pairs_view(prev) + seq![
                            (m.topic@, m.publish_time),
                        ]);
                        assert(admitted(rest, w) =~= seq![rest[0]] + admitted(
                            rest.drop_first(),
                            w,
                        ));
                        assert(pairs_of(seq![rest[0]] + admitted(rest.drop_first(), w)) =~= seq![
                            (m.topic@, m.publish_time),
                        ] + pairs_of(admitted(rest.drop_first(), w)));
                        assert(pairs_view(prev) + (seq![(m.topic@, m.publish_time)] + pairs_of(
                            admitted(rest.drop_first(), w),
                        )) =~= (pairs_view(prev) + seq![(m.topic@, m.publish_time)]) + pairs_of(
                            admitted(rest.drop_first(), w),
                        ));
                        assert(reg_find(decs0, rest[0].topic) is None);
                        assert(routed_of(rest, decs0, w) == routed_of(
                            rest.drop_first(),
                            decs0,
                            w,
                        ));
                    }
                },
                StepOutcome::Routed(routed) => {
                    let ghost prev = visited@;
                    let ghost prev_out = outputs@;
                    let ghost prev_rms = rms;
                    visited.push((m.topic.clone(), m.publish_time));
                    outputs.push((m.topic.clone(), routed));
                    proof {
                        assert(gate(w, m@.publish_time) == Gate::Inside);
                        let j = match reg_find(disp0.decs@, m.topic@) {
                            Option::Some(j) => j,
                            Option::None => {
                                assert(false);
                                0int
                            },
                        };
                        lemma_routed_ok(disp0, *disp, *m, j, StepOutcome::Routed(routed));
                        lemma_routed_frame(disp0, *disp, *m, j, Ok(StepOutcome::Routed(routed)));
                        lemma_shape_preserved(decs0, disp0.decs@, disp.decs@, j);
                        assert(decs0[j].kind == disp0.decs@[j].kind);
                        assert(reg_find(decs0, m@.topic) == Some(j));
                        rms = prev_rms.push(m@);
                        let p = outputs@[outputs@.len() - 1];
                        assert(outputs@ == prev_out.push(p));
                        assert(output_entry_ok(decs0, m@, p));
                        lemma_outputs_push(prev_out, outputs@, prev_rms, rms, decs0, m@, p);
                        assert(pairs_view(visited@) =~= pairs_view(prev) + seq![
                            (m.topic@, m.publish_time),
                        ]);
                        assert(admitted(rest, w) =~= seq![rest[0]] + admitted(
                            rest.drop_first(),
                            w,
                        ));
                        assert(pairs_of(seq![rest[0]] + admitted(rest.drop_first(), w)) =~= seq![
                            (m.topic@, m.publish_time),
                        ] + pairs_of(admitted(rest.drop_first(), w)));
                        assert(pairs_view(prev) + (seq![(m.topic@, m.publish_time)] + pairs_of(
                            admitted(rest.drop_first(), w),
                        )) =~= (pairs_view(prev) + seq![(m.topic@, m.publish_time)]) + pairs_of(
                            admitted(rest.drop_first(), w),
                        ));
                        assert(routed_of(rest, decs0, w) == seq![rest[0]] + routed_of(
                            rest.drop_first(),
                            decs0,
                            w,
                        ));
                        assert(prev_rms + (seq![rest[0]] + routed_of(rest.drop_first(), decs0, w))
                            =~= rms + routed_of(rest.drop_first(), decs0, w));
                    }
                },
            }
            i = i + 1;
        }
        proof {
            assert(all.subrange(n as int, n as int) =~= Seq::<MessageView>::empty());
            assert(pairs_view(visited@) + pairs_of(Seq::<MessageView>::empty()) =~= pairs_view(
                visited@,
            ));
            assert(rms + routed_of(Seq::<MessageView>::empty(), decs0, w) =~= rms);
            assert(routed_of(all, decs0, w) == rms);
        }
        Ok(RunLog { visited, outputs })
    }

/// A faithful copy of a message record.
fn duplicate_message(m: &MessageRecord) -> (r: MessageRecord)
    ensures
        r@ == m@,
{
    let schema = match &m.schema {
        Some(s) => Some(
            crate::container::SchemaRecord {
                name: s.name.clone(),
                encoding: s.encoding.clone(),
                data: clone_bytes(&s.data),
            },
        ),
        None => None,
    };
    MessageRecord {
        channel_id: m.channel_id,
        topic: m.topic.clone(),
        schema,
        message_encoding: m.message_encoding.clone(),
        sequence: m.sequence,
        log_time: m.log_time,
        publish_time: m.publish_time,
        data: clone_bytes(&m.data),
    }
}

/// Copies a byte vector.
fn clone_bytes(v: &Vec<u8>) -> (r: Vec<u8>)
    ensures
        r@ == v@,
{
    let mut r: Vec<u8> = Vec::new();
    let n = v.len();
    let mut i: usize = 0;
    while i < n
        invariant
            i <= n == v@.len(),
            r@ == v@.subrange(0, i as int),
        decreases n - i,
    {
        r.push(v[i]);
        i = i + 1;
    }
    proof {
        assert(v@.subrange(0, n as int) =~= v@);
    }
    r
}

/// Selects the messages a trim copies: iterates the stream exactly as the
/// dispatcher would — skip before the window, stop at the first message past
/// it — but keeps each admitted message verbatim instead of decoding it.
/// Cancellation is polled once per message and aborts with `Interrupted`.
pub fn trim_select(msgs: &Vec<MessageRecord>, w: Window, token: &CancelToken) -> (r: Result<
    Vec<MessageRecord>,
    Error,
>)
    ensures
        r matches Ok(v) ==> msgs_view(v@) == admitted(msgs_view(msgs@), w),
        r matches Err(e) ==> e == Error::Interrupted,
        msgs@.len() == 0 ==> r is Ok,
{
    let ghost all = msgs_view(msgs@);
    let mut out: Vec<MessageRecord> = Vec::new();
    let n = msgs.len();
    proof {
        assert(all.subrange(0, n as int) =~= all);
    }
    let mut i: usize = 0;
    while i < n
        invariant
            n == msgs@.len() == all.len(),
            i <= n,
            all == msgs_view(msgs@),
            admitted(all, w) == msgs_view(out@) + admitted(
                all.subrange(i as int, n as int),
                w,
            ),
        decreases n - i,
    {
        let ghost rest = all.subrange(i as int, n as int);
        let m = &msgs[i];
        proof {
            assert(rest[0] == all[i as int]);
            assert(all[i as int] == m@);
            assert(rest.drop_first() =~= all.subrange(i + 1, n as int));
        }
        if token.is_cancelled() {
            return Err(Error::Interrupted);
        }
        if m.publish_time < w.start {
        } else if m.publish_time > w.stop {
            proof {
                assert(admitted(rest, w) =~= Seq::<MessageView>::empty());
                assert(msgs_view(out@) + admitted(rest, w) =~= msgs_view(out@));
            }
            return Ok(out);
        } else {
            let ghost prev = out@;
            out.push(duplicate_message(m));
            proof {
                assert(msgs_view(out@) =~= msgs_view(prev) + seq![m@]);
                assert(admitted(rest, w) =~= seq![rest[0]] + admitted(rest.drop_first(), w));
                assert(msgs_view(prev) + (seq![m@] + admitted(rest.drop_first(), w)) =~= (
                msgs_view(prev) + seq![m@]) + admitted(rest.drop_first(), w));
            }
        }
        i = i + 1;
    }
    proof {
        assert(all.subrange(n as int, n as int) =~= Seq::<MessageView>::empty());
        assert(msgs_view(out@) + admitted(Seq::<MessageView>::empty(), w) =~= msgs_view(out@));
    }
    Ok(out)
}

/// The messages of a run of container files, concatenated in file order.
pub open spec fn files_messages(files: Seq<FileRecord>) -> Seq<MessageView>
    decreases files.len(),
{
    if files.len() == 0 {
        Seq::empty()
    } else {
        mcap_messages(files[0].data@) + files_messages(files.drop_first())
    }
}

/// Loads every file's messages and concatenates them in file order. Fails
/// with `Container` if any file cannot be streamed to its end.
pub fn load_all_messages(files: &Vec<FileRecord>) -> (r: Result<Vec<MessageRecord>, Error>)
    ensures
        r matches Ok(v) ==> (msgs_view(v@) == files_messages(files@) && (forall|i: int|
            0 <= i < files@.len() ==> mcap_messages_ok((#[trigger] files@[i]).data@))),
        r matches Err(e) ==> (e matches Error::Container(_) && exists|i: int|
            0 <= i < files@.len() && !mcap_messages_ok((#[trigger] files@[i]).data@)),
{
    let mut out: Vec<MessageRecord> = Vec::new();
    let n = files.len();
    proof {
        assert(files@.subrange(0, n as int) =~= files@);
        assert(msgs_view(out@) + files_messages(files@) =~= files_messages(files@));
    }
    let mut i: usize = 0;
    while i < n
        invariant
            i <= n == files@.len(),
            forall|j: int| 0 <= j < i ==> mcap_messages_ok((#[trigger] files@[j]).data@),
            files_messages(files@) == msgs_view(out@) + files_messages(
                files@.subrange(i as int, n as int),
            ),
        decreases n - i,
    {
        let ghost restf = files@.subrange(i as int, n as int);
        proof {
            assert(restf[0] == files@[i as int]);
            assert(restf.drop_first() =~= files@.subrange(i + 1, n as int));
        }
        let mut part = match load_messages(&files[i].data) {
            Ok(v) => v,
            Err(e) => {
                proof {
                    assert(!mcap_messages_ok(files@[i as int].data@));
                }
                return Err(e);
            },
        };
        let ghost prev = out@;
        let ghost partv = part@;
        append_messages(&mut out, part);
        proof {
            assert(msgs_view(out@) =~= msgs_view(prev) + msgs_view(partv));
            assert(msgs_view(prev) + (mcap_messages(files@[i as int].data@) + files_messages(
                files@.subrange(i + 1, n as int),
            )) =~= (msgs_view(prev) + mcap_messages(files@[i as int].data@)) + files_messages(
                files@.subrange(i + 1, n as int),
            ));
        }
        i = i + 1;
    }
    proof {
        assert(files@.subrange(n as int, n as int) =~= Seq::<FileRecord>::empty());
        assert(msgs_view(out@) + files_messages(Seq::<FileRecord>::empty()) =~= msgs_view(out@));
    }
    Ok(out)
}

/// Moves every element of `src` onto the end of `dst`.
fn append_messages(dst: &mut Vec<MessageRecord>, src: Vec<MessageRecord>)
    ensures
        final(dst)@ == old(dst)@ + src@,
{
    let mut src = src;
    let n = src.len();
    let ghost srcv = src@;
    let mut i: usize = 0;
    while i < n
        invariant
            i <= n == srcv.len(),
            src@ == srcv.subrange(i as int, n as int),
            dst@ == old(dst)@ + srcv.subrange(0, i as int),
        decreases n - i,
    {
        proof {
            assert(src@[0] == srcv[i as int]);
            assert(src@.remove(0) =~= srcv.subrange(i + 1, n as int));
        }
        let m = src.remove(0);
        dst.push(m);
        proof {
            assert(old(dst)@ + srcv.subrange(0, i as int) + seq![srcv[i as int]] =~= old(dst)@
                + srcv.subrange(0, i + 1));
        }
        i = i + 1;
    }
    proof {
        assert(srcv.subrange(0, n as int) =~= srcv);
    }
}

/// Runs an extraction over a run of container files: loads each file's
/// messages, concatenates them in file order, and drives the dispatcher over
/// the whole stream. On a completed run the visited trace is exactly the
/// admitted sequence of the concatenated stream.
pub fn extract_files(disp: &mut Dispatcher, files: &Vec<FileRecord>, token: &CancelToken) -> (r:
    Result<RunLog, Error>)
    ensures
        r matches Ok(log) ==> pairs_view(log.visited@) == pairs_of(
            admitted(files_messages(files@), old(disp).window),
        ),
        r matches Ok(log) ==> outputs_match(
            log.outputs@,
            routed_of(files_messages(files@), old(disp).decs@, old(disp).window),
            old(disp).decs@,
        ),
        r matches Ok(log) ==> (forall|i: int|
            0 <= i < files@.len() ==> mcap_messages_ok((#[trigger] files@[i]).data@)),
        r matches Err(e) ==> {
            ||| e == Error::Interrupted
            ||| (e matches Error::Container(_) && exists|i: int|
                0 <= i < files@.len() && !mcap_messages_ok((#[trigger] files@[i]).data@))
            ||| some_message_fails(
                files_messages(files@),
                old(disp).decs@,
                old(disp).window,
                e,
            )
        },
        files@.len() == 0 ==> r is Ok,
        final(disp).window == old(disp).window,
{
    let msgs = match load_all_messages(files) {
        Ok(v) => v,
        Err(e) => {
            return Err(e);
        },
    };
    proof {
        if files@.len() == 0 {
            assert(files_messages(files@) == Seq::<MessageView>::empty());
        }
    }
    run_messages(disp, &msgs, token)
}

/// Selects the messages a trim of these files copies: every in-window
/// message of the concatenated stream, verbatim and in order.
pub fn trim_files(files: &Vec<FileRecord>, w: Window, token: &CancelToken) -> (r: Result<
    Vec<MessageRecord>,
    Error,
>)
    ensures
        r matches Ok(v) ==> (msgs_view(v@) == admitted(files_messages(files@), w) && (forall|
            i: int,
        |
            0 <= i < files@.len() ==> mcap_messages_ok((#[trigger] files@[i]).data@))),
        r matches Err(e) ==> (e == Error::Interrupted || (e matches Error::Container(_)
            && exists|i: int|
            0 <= i < files@.len() && !mcap_messages_ok((#[trigger] files@[i]).data@))),
        files@.len() == 0 ==> r is Ok,
{
    let msgs = match load_all_messages(files) {
        Ok(v) => v,
        Err(e) => {
            return Err(e);
        },
    };
    proof {
        if files@.len() == 0 {
            assert(files_messages(files@) == Seq::<MessageView>::empty());
        }
    }
    trim_select(&msgs, w, token)
}

} // verus!
