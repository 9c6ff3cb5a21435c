//! The server loop and the per-frame request task.
//!
//! Frames are read strictly in arrival order; each one becomes a task that
//! decodes, dispatches and reports, and no failure of any kind escapes its
//! own frame: the loop's contract accounts for every event the stream
//! holds and every record the sink received.

use vstd::prelude::*;
use vstd::utf8::decode_utf8;
use vstd::utf8::valid_utf8;

use crate::dispatch::dispatch_outcome;
use crate::dispatch::report;
use crate::dispatch::report_of;
use crate::dispatch::DispatchOutcome;
use crate::dispatch::Dispatcher;
use crate::dispatch::OutcomeModel;
use crate::dispatch::RequestHandler;
use crate::frame::frame_read;
use crate::frame::lemma_frame_read_advances;
use crate::frame::read_frame;
use crate::frame::FrameErrorKind;
use crate::frame::FrameModel;
use crate::frame::FrameOutcomeKind;
use crate::frame::FrameRead;
use crate::json::json_wf;
use crate::json::string_from_bytes;
use crate::message::DecodeError;
use crate::sink::Logger;
use crate::sink::RecordModel;
use crate::sink::Severity;

verus! {

/// What one frame body must have come to: both decode failures exactly
/// when the bytes force them, and a body that decodes gets exactly the
/// outcome its message's content and the registry dictate.
pub open spec fn body_outcome_ok(reg: Seq<Seq<char>>, body: Seq<u8>, o: OutcomeModel) -> bool {
    &&& (o == OutcomeModel::DecodeFailed(DecodeError::Encoding) <==> !valid_utf8(body))
    &&& (o == OutcomeModel::DecodeFailed(DecodeError::Syntax) <==> (valid_utf8(body) && !json_wf(
        decode_utf8(body),
    )))
    &&& (valid_utf8(body) && json_wf(decode_utf8(body)) ==> o == dispatch_outcome(
        reg,
        decode_utf8(body),
    ))
}

/// One request task, end to end: decode one frame body, dispatch it, and
/// report exactly one record. A failure never outlives its own frame.
pub fn run_task(body: Vec<u8>, dispatcher: &Dispatcher, sink: &mut Logger) -> (o: DispatchOutcome)
    ensures
        final(sink)@ =~= old(sink)@.push(report_of(o@)),
        body_outcome_ok(dispatcher@, body@, o@),
{
    match string_from_bytes(body) {
        None => {
            let o = DispatchOutcome::DecodeFailed(DecodeError::Encoding);
            report(&o, sink);
            o
        },
        Some(text) => RequestHandler::new(text).handle(dispatcher, sink),
    }
}

/// The record a frame-level failure owes the sink.
pub open spec fn frame_report_of(k: FrameErrorKind) -> RecordModel {
    match k {
        FrameErrorKind::InvalidHeader => RecordModel {
            severity: Severity::Error,
            text: "Error in reading the request header"@,
        },
        FrameErrorKind::TruncatedBody => RecordModel {
            severity: Severity::Error,
            text: "Error in reading the request body"@,
        },
    }
}

/// Report a frame-level failure to the sink.
pub fn report_frame_error(k: FrameErrorKind, sink: &mut Logger)
    ensures
        final(sink)@ =~= old(sink)@.push(frame_report_of(k)),
{
    match k {
        FrameErrorKind::InvalidHeader => sink.error("Error in reading the request header"),
        FrameErrorKind::TruncatedBody => sink.error("Error in reading the request body"),
    }
}

/// Every read the loop performs on this stream, in order. Each event is
/// one frame or one frame-level failure; the orderly end of the stream is
/// no event. The reader provably advances, so the range guards cannot
/// fire; they only keep the recursion visibly bounded.
pub open spec fn stream_events(s: Seq<u8>, pos: int) -> Seq<FrameModel>
    decreases s.len() - pos when 0 <= pos <= s.len()
{
    let m = frame_read(s, pos);
    if m.kind == FrameOutcomeKind::EndOfStream {
        Seq::empty()
    } else if m.next <= pos || m.next > s.len() {
        seq![m]
    } else {
        seq![m] + stream_events(s, m.next)
    }
}

/// How one pass of the loop shows in what it returned and what the sink
/// received, event by event: a frame event contributes its task's outcome
/// and that outcome's record; a failure event contributes its fixed
/// record and no outcome; nothing else is contributed at all.
pub open spec fn trace_ok(
    reg: Seq<Seq<char>>,
    evs: Seq<FrameModel>,
    outs: Seq<OutcomeModel>,
    recs: Seq<RecordModel>,
) -> bool
    decreases evs.len(),
{
    if evs.len() == 0 {
        outs.len() == 0 && recs.len() == 0
    } else {
        let ev = evs[0];
        if ev.kind == FrameOutcomeKind::Frame {
            &&& outs.len() > 0
            &&& recs.len() > 0
            &&& body_outcome_ok(reg, ev.body, outs[0])
            &&& recs[0] == report_of(outs[0])
            &&& trace_ok(reg, evs.drop_first(), outs.drop_first(), recs.drop_first())
        } else {
            &&& (ev.kind == FrameOutcomeKind::InvalidHeader || ev.kind
                == FrameOutcomeKind::TruncatedBody)
            &&& recs.len() > 0
            &&& recs[0] == frame_report_of(
                if ev.kind == FrameOutcomeKind::InvalidHeader {
                    FrameErrorKind::InvalidHeader
                } else {
                    FrameErrorKind::TruncatedBody
                },
            )
            &&& trace_ok(reg, evs.drop_first(), outs, recs.drop_first())
        }
    }
}

/// Appending one event to a trace that already holds keeps it holding,
/// provided the new event contributes exactly what the trace expects.
proof fn lemma_trace_ok_snoc(
    reg: Seq<Seq<char>>,
    evs: Seq<FrameModel>,
    outs: Seq<OutcomeModel>,
    recs: Seq<RecordModel>,
    ev: FrameModel,
    o: Option<OutcomeModel>,
    r: RecordModel,
)
    requires
        trace_ok(reg, evs, outs, recs),
        ev.kind == FrameOutcomeKind::Frame ==> (o matches Some(oo) && body_outcome_ok(
            reg,
            ev.body,
            oo,
        ) && r == report_of(oo)),
        ev.kind != FrameOutcomeKind::Frame ==> (ev.kind == FrameOutcomeKind::InvalidHeader
            || ev.kind == FrameOutcomeKind::TruncatedBody) && o is None && r == frame_report_of(
            if ev.kind == FrameOutcomeKind::InvalidHeader {
                FrameErrorKind::InvalidHeader
            } else {
                FrameErrorKind::TruncatedBody
            },
        ),
    ensures
        trace_ok(
            reg,
            evs.push(ev),
            match o {
                Some(oo) => outs.push(oo),
                None => outs,
            },
            recs.push(r),
        ),
    decreases evs.len(),
{
    let outs2 = match o {
        Some(oo) => outs.push(oo),
        None => outs,
    };
    if evs.len() == 0 {
        assert(evs.push(ev)[0] == ev);
        assert(evs.push(ev).drop_first() =~= Seq::<FrameModel>::empty());
        assert(recs.push(r).drop_first() =~= Seq::<RecordModel>::empty());
        assert(recs.push(r)[0] == r);
        assert(trace_ok(
            reg,
            Seq::<FrameModel>::empty(),
            Seq::<OutcomeModel>::empty(),
            Seq::<RecordModel>::empty(),
        ));
        if ev.kind == FrameOutcomeKind::Frame {
            assert(outs2.drop_first() =~= Seq::<OutcomeModel>::empty());
            assert(outs2[0] == o->0);
        } else {
            assert(outs2 =~= Seq::<OutcomeModel>::empty());
        }
    } else {
        assert(evs.push(ev)[0] == evs[0]);
        assert(evs.push(ev).drop_first() =~= evs.drop_first().push(ev));
        assert(recs.push(r).drop_first() =~= recs.drop_first().push(r));
        assert(recs.push(r)[0] == recs[0]);
        if evs[0].kind == FrameOutcomeKind::Frame {
            if o is Some {
                assert(outs2.drop_first() =~= outs.drop_first().push(o->0));
                assert(outs2[0] == outs[0]);
                lemma_trace_ok_snoc(
                    reg,
                    evs.drop_first(),
                    outs.drop_first(),
                    recs.drop_first(),
                    ev,
                    o,
                    r,
                );
            } else {
                assert(outs2[0] == outs[0]);
                lemma_trace_ok_snoc(
                    reg,
                    evs.drop_first(),
                    outs.drop_first(),
                    recs.drop_first(),
                    ev,
                    o,
                    r,
                );
            }
        } else {
            lemma_trace_ok_snoc(reg, evs.drop_first(), outs, recs.drop_first(), ev, o, r);
        }
    }
}

/// Drive the whole buffered stream: read frames in arrival order, run one
/// task per frame, report every frame-level failure, stop at the orderly
/// end. The returned outcomes and the records the sink gained are exactly
/// the stream's events, in order; records already in the sink are
/// untouched.
pub fn run_server(input: &[u8], dispatcher: &Dispatcher, sink: &mut Logger) -> (outcomes: Vec<
    DispatchOutcome,
>)
    ensures
        final(sink)@.len() >= old(sink)@.len(),
        final(sink)@.subrange(0, old(sink)@.len() as int) =~= old(sink)@,
        trace_ok(
            dispatcher@,
            stream_events(input@, 0),
            outcomes@.map_values(|o: DispatchOutcome| o@),
            final(sink)@.skip(old(sink)@.len() as int),
        ),
{
    let ghost s = input@;
    let ghost base = sink@;
    let ghost reg = dispatcher@;
    let mut outcomes: Vec<DispatchOutcome> = Vec::new();
    let mut cur: usize = 0;
    let ghost mut processed: Seq<FrameModel> = Seq::empty();
    proof {
        assert(sink@.skip(base.len() as int) =~= Seq::<RecordModel>::empty());
        assert(outcomes@.map_values(|o: DispatchOutcome| o@) =~= Seq::<OutcomeModel>::empty());
    }
    loop
        invariant
            cur <= s.len(),
            input@ == s,
            base == old(sink)@,
            dispatcher@ == reg,
            sink@.len() >= base.len(),
            sink@.subrange(0, base.len() as int) =~= base,
            stream_events(s, 0) =~= processed + stream_events(s, cur as int),
            trace_ok(
                reg,
                processed,
                outcomes@.map_values(|o: DispatchOutcome| o@),
                sink@.skip(base.len() as int),
            ),
        decreases s.len() - cur,
    {
        let ghost m = frame_read(s, cur as int);
        proof {
            lemma_frame_read_advances(s, cur as int);
        }
        let (res, next) = read_frame(input, cur);
        match res {
            FrameRead::EndOfStream => {
                proof {
                    assert(stream_events(s, cur as int) =~= Seq::<FrameModel>::empty());
                    assert(stream_events(s, 0) =~= processed);
                }
                return outcomes;
            },
            FrameRead::Frame(f) => {
                let ghost recs0 = sink@.skip(base.len() as int);
                let ghost outs0 = outcomes@.map_values(|o: DispatchOutcome| o@);
                let o = run_task(f.body, dispatcher, sink);
                outcomes.push(o);
                proof {
                    assert(stream_events(s, cur as int) =~= seq![m] + stream_events(
                        s,
                        m.next,
                    ));
                    lemma_trace_ok_snoc(reg, processed, outs0, recs0, m, Some(o@), report_of(o@));
                    processed = processed.push(m);
                    assert(stream_events(s, 0) =~= processed + stream_events(s, next as int));
                    assert(outcomes@.map_values(|x: DispatchOutcome| x@) =~= outs0.push(o@));
                    assert(sink@.skip(base.len() as int) =~= recs0.push(report_of(o@)));
                    assert(sink@.subrange(0, base.len() as int) =~= base);
                }
                cur = next;
            },
            FrameRead::FrameError(k) => {
                let ghost recs0 = sink@.skip(base.len() as int);
                let ghost outs0 = outcomes@.map_values(|o: DispatchOutcome| o@);
                report_frame_error(k, sink);
                proof {
                    assert(stream_events(s, cur as int) =~= seq![m] + stream_events(
                        s,
                        m.next,
                    ));
                    lemma_trace_ok_snoc(reg, processed, outs0, recs0, m, None, frame_report_of(k));
                    processed = processed.push(m);
                    assert(stream_events(s, 0) =~= processed + stream_events(s, next as int));
                    assert(sink@.skip(base.len() as int) =~= recs0.push(frame_report_of(k)));
                    assert(sink@.subrange(0, base.len() as int) =~= base);
                }
                cur = next;
            },
        }
    }
}

} // verus!
