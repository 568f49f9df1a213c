//! The event router: classifies the sidecar's lifecycle and output events
//! and turns each into a log write, stopping at the termination event.
//!
//! Output bytes are decoded as text best-effort: invalid encoding is
//! replaced, never propagated as a failure.  A spawn-failure event is
//! logged and does not stop the router; the termination event is logged
//! and ends consumption — events wrongly delivered after it are never
//! processed.

use vstd::prelude::*;

verus! {

/// How the sidecar process ended: the platform's exit code or the signal
/// that terminated it.
#[derive(Clone, Copy, PartialEq, Eq, Debug)]
pub struct ExitStatus {
    pub code: Option<i32>,
    pub signal: Option<i32>,
}

/// One event from the spawned process's output channel.
#[derive(PartialEq, Eq, Debug)]
pub enum ServiceEvent {
    /// A line of the process's standard output.
    StandardOutput(Vec<u8>),
    /// A line of the process's error output.
    ErrorOutput(Vec<u8>),
    /// The process could not be spawned or its channel failed.
    SpawnFailure(String),
    /// The process ended; no further event follows.
    Terminated(ExitStatus),
}

/// One write to the logging sink.
#[derive(PartialEq, Eq, Debug)]
pub enum LogWrite {
    /// Decoded standard output, for the standard log channel.
    Output(String),
    /// Decoded error output, for the error log channel.
    Error(String),
    /// A spawn-failure report, for the error log channel.
    Fault(String),
    /// The termination notice with the exit status.
    Exit(ExitStatus),
}

/// The mathematical shape of a `ServiceEvent`.
pub enum EventModel {
    StandardOutput(Seq<u8>),
    ErrorOutput(Seq<u8>),
    SpawnFailure(Seq<char>),
    Terminated(ExitStatus),
}

/// The mathematical shape of a `LogWrite`.
pub enum WriteModel {
    Output(Seq<char>),
    Error(Seq<char>),
    Fault(Seq<char>),
    Exit(ExitStatus),
}

impl View for ServiceEvent {
    type V = EventModel;

    open spec fn view(&self) -> EventModel {
        match self {
            ServiceEvent::StandardOutput(bytes) => EventModel::StandardOutput(bytes@),
            ServiceEvent::ErrorOutput(bytes) => EventModel::ErrorOutput(bytes@),
            ServiceEvent::SpawnFailure(message) => EventModel::SpawnFailure(message@),
            ServiceEvent::Terminated(status) => EventModel::Terminated(*status),
        }
    }
}

impl View for LogWrite {
    type V = WriteModel;

    open spec fn view(&self) -> WriteModel {
        match self {
            LogWrite::Output(text) => WriteModel::Output(text@),
            LogWrite::Error(text) => WriteModel::Error(text@),
            LogWrite::Fault(text) => WriteModel::Fault(text@),
            LogWrite::Exit(status) => WriteModel::Exit(*status),
        }
    }
}

/// The text that best-effort decoding gives for a byte sequence.  The
/// result depends on the bytes alone.
pub uninterp spec fn lossy_text_of(bytes: Seq<u8>) -> Seq<char>;

/// Relies on String::from_utf8_lossy: decodes the bytes, replacing
/// invalid encoding instead of failing, and depends on the bytes alone.
#[verifier::external_body]
fn decode_lossy(bytes: &[u8]) -> (text: String)
    ensures
        text@ == lossy_text_of(bytes@),
{
    String::from_utf8_lossy(bytes).into_owned()
}

/// The log write for one event.
pub open spec fn route_model(event: EventModel) -> WriteModel {
    match event {
        EventModel::StandardOutput(bytes) => WriteModel::Output(lossy_text_of(bytes)),
        EventModel::ErrorOutput(bytes) => WriteModel::Error(lossy_text_of(bytes)),
        EventModel::SpawnFailure(message) => WriteModel::Fault(message),
        EventModel::Terminated(status) => WriteModel::Exit(status),
    }
}

/// Whether an event ends the stream.
pub open spec fn ends_stream(event: EventModel) -> bool {
    event is Terminated
}

/// The log writes for a delivered event sequence: one write per event up
/// to and including the first termination event, nothing beyond it.
pub open spec fn routed_writes(events: Seq<EventModel>) -> Seq<WriteModel>
    decreases events.len(),
{
    if events.len() == 0 {
        Seq::empty()
    } else if ends_stream(events.first()) {
        seq![route_model(events.first())]
    } else {
        seq![route_model(events.first())] + routed_writes(events.drop_first())
    }
}

/// The views of delivered events.
pub open spec fn event_models(events: Seq<ServiceEvent>) -> Seq<EventModel> {
    events.map_values(|e: ServiceEvent| e@)
}

/// The views of produced writes.
pub open spec fn write_models(writes: Seq<LogWrite>) -> Seq<WriteModel> {
    writes.map_values(|w: LogWrite| w@)
}

/// Classifies one event into its log write.
pub fn route_event(event: &ServiceEvent) -> (write: LogWrite)
    ensures
        write@ == route_model(event@),
{
    match event {
        ServiceEvent::StandardOutput(bytes) => LogWrite::Output(decode_lossy(bytes.as_slice())),
        ServiceEvent::ErrorOutput(bytes) => LogWrite::Error(decode_lossy(bytes.as_slice())),
        ServiceEvent::SpawnFailure(message) => LogWrite::Fault(message.clone()),
        ServiceEvent::Terminated(status) => LogWrite::Exit(*status),
    }
}

/// Consumes a delivered event sequence as the router's background loop
/// does: one log write per event, stopping after the first termination
/// event.  Events delivered after it are not processed.
pub fn route_all(events: Vec<ServiceEvent>) -> (writes: Vec<LogWrite>)
    ensures
        write_models(writes@) == routed_writes(event_models(events@)),
{
    let ghost evs = event_models(events@);
    let mut writes: Vec<LogWrite> = Vec::new();
    let mut i: usize = 0;
    let mut done = false;
    assert(evs.skip(0) =~= evs);
    assert(write_models(writes@) + routed_writes(evs.skip(0)) =~= routed_writes(evs));
    while i < events.len() && !done
        invariant
            0 <= i <= events@.len(),
            evs == event_models(events@),
            evs.len() == events@.len(),
            !done ==> routed_writes(evs) == write_models(writes@) + routed_writes(
                evs.skip(i as int),
            ),
            done ==> routed_writes(evs) == write_models(writes@),
        decreases events@.len() - i,
    {
        proof {
            assert(evs.skip(i as int).first() == evs[i as int]);
            assert(evs.skip(i as int).drop_first() =~= evs.skip(i as int + 1));
            assert(evs[i as int] == events@[i as int]@);
        }
        let event = &events[i];
        let write = route_event(event);
        let stops = matches!(event, ServiceEvent::Terminated(_));
        proof {
            assert(stops == ends_stream(evs[i as int]));
            assert(write_models(writes@.push(write)) =~= write_models(writes@).push(write@));
            assert(write_models(writes@) + seq![route_model(evs[i as int])] =~= write_models(
                writes@,
            ).push(write@));
            if !stops {
                assert(write_models(writes@).push(write@) + routed_writes(evs.skip(i as int + 1))
                    =~= write_models(writes@) + (seq![route_model(evs[i as int])] + routed_writes(
                    evs.skip(i as int + 1),
                )));
            }
        }
        writes.push(write);
        if stops {
            done = true;
        }
        i = i + 1;
    }
    proof {
        if !done {
            assert(evs.skip(evs.len() as int) =~= Seq::<EventModel>::empty());
            assert(write_models(writes@) + routed_writes(evs.skip(evs.len() as int)) =~= write_models(
                writes@,
            ));
        }
    }
    writes
}

/// The router never processes an event delivered after the termination
/// event: whatever follows the first termination, the log writes are
/// those of the stream up to and including it.
pub proof fn lemma_router_ignores_after_exit(
    before: Seq<EventModel>,
    status: ExitStatus,
    after: Seq<EventModel>,
)
    requires
        forall|k: int| 0 <= k < before.len() ==> !ends_stream(#[trigger] before[k]),
    ensures
        routed_writes(before + seq![EventModel::Terminated(status)] + after) == routed_writes(
            before + seq![EventModel::Terminated(status)],
        ),
    decreases before.len(),
{
    let with_tail = before + seq![EventModel::Terminated(status)] + after;
    let closed_stream = before + seq![EventModel::Terminated(status)];
    if before.len() == 0 {
        assert(with_tail.first() == EventModel::Terminated(status));
        assert(closed_stream.first() == EventModel::Terminated(status));
        assert(routed_writes(with_tail) =~= routed_writes(closed_stream));
    } else {
        lemma_router_ignores_after_exit(before.drop_first(), status, after);
        assert(with_tail.first() == before[0]);
        assert(closed_stream.first() == before[0]);
        assert(with_tail.drop_first() =~= before.drop_first() + seq![EventModel::Terminated(status)]
            + after);
        assert(closed_stream.drop_first() =~= before.drop_first() + seq![EventModel::Terminated(
            status,
        )]);
        assert(routed_writes(with_tail) == seq![route_model(before[0])] + routed_writes(
            with_tail.drop_first(),
        ));
        assert(routed_writes(closed_stream) == seq![route_model(before[0])] + routed_writes(
            closed_stream.drop_first(),
        ));
    }
}

/// Two output events followed by the termination event give exactly two
/// output log writes and the termination notice, the router stopping
/// there: further deliveries contribute nothing.
pub proof fn lemma_two_outputs_then_exit(
    first_line: Seq<u8>,
    second_line: Seq<u8>,
    status: ExitStatus,
    after: Seq<EventModel>,
)
    ensures
        routed_writes(
            seq![
                EventModel::StandardOutput(first_line),
                EventModel::StandardOutput(second_line),
                EventModel::Terminated(status),
            ] + after,
        ) == seq![
            WriteModel::Output(lossy_text_of(first_line)),
            WriteModel::Output(lossy_text_of(second_line)),
            WriteModel::Exit(status),
        ],
{
    let before = seq![
        EventModel::StandardOutput(first_line),
        EventModel::StandardOutput(second_line),
    ];
    lemma_router_ignores_after_exit(before, status, after);
    assert(before + seq![EventModel::Terminated(status)] + after =~= seq![
        EventModel::StandardOutput(first_line),
        EventModel::StandardOutput(second_line),
        EventModel::Terminated(status),
    ] + after);
    let closed_stream = before + seq![EventModel::Terminated(status)];
    let second_on = closed_stream.drop_first();
    let exit_on = second_on.drop_first();
    assert(closed_stream.first() == EventModel::StandardOutput(first_line));
    assert(second_on.first() == EventModel::StandardOutput(second_line));
    assert(exit_on =~= seq![EventModel::Terminated(status)]);
    assert(routed_writes(exit_on) =~= seq![WriteModel::Exit(status)]);
    assert(routed_writes(second_on) == seq![WriteModel::Output(lossy_text_of(second_line))]
        + routed_writes(exit_on));
    assert(routed_writes(closed_stream) == seq![WriteModel::Output(lossy_text_of(first_line))]
        + routed_writes(second_on));
    assert(routed_writes(closed_stream) =~= seq![
        WriteModel::Output(lossy_text_of(first_line)),
        WriteModel::Output(lossy_text_of(second_line)),
        WriteModel::Exit(status),
    ]);
}

} // verus!