//! The client side of one exchange cycle.
//!
//! The surrounding loop owns the channel, the camera and the clock; it
//! reports what happened as events, and this state machine decides what
//! to do next. The machine walks Idle → Capturing → Encoding →
//! Exchanging (the send-and-await runs beside local post-processing) →
//! Joining → a terminal outcome → Idle. A late or malformed reply is
//! non-fatal: the cycle is discarded and never retried.

use vstd::prelude::*;

use crate::codec::decode_response;
use crate::messages::VmecResponseFields;
use crate::wire::dec_response;

verus! {

/// How one client cycle ended.
pub enum CycleOutcome {
    /// The reply arrived within the deadline and decoded: the measured
    /// round trip in microseconds, and the decoded record.
    Success { round_trip_us: u64, reply: VmecResponseFields },
    /// Nothing arrived within the receive timeout.
    TimedOut,
    /// A reply arrived but its bytes did not decode.
    DecodeFailed,
}

/// Decide how a cycle ended from what joining the exchange yielded:
/// nothing when the deadline passed, otherwise the measured round trip
/// in microseconds and the raw reply bytes.
pub fn conclude_cycle(joined: Option<(u64, Vec<u8>)>) -> (r: CycleOutcome)
    ensures
        match joined {
            None => r is TimedOut,
            Some((rtt, bytes)) => match dec_response(bytes@) {
                Some(v) => r matches CycleOutcome::Success { round_trip_us, reply }
                    && round_trip_us == rtt && reply@ == v,
                None => r is DecodeFailed,
            },
        },
{
    match joined {
        None => CycleOutcome::TimedOut,
        Some((rtt, bytes)) => match decode_response(bytes.as_slice()) {
            Ok(reply) => CycleOutcome::Success { round_trip_us: rtt, reply },
            Err(_) => CycleOutcome::DecodeFailed,
        },
    }
}

/// Where the per-frame client cycle stands.
#[derive(Clone, Copy, PartialEq, Eq, Structural, Debug)]
pub enum ClientPhase {
    /// Between cycles.
    Idle,
    /// Waiting on the camera for a frame.
    Capturing,
    /// Building and serializing the request record.
    Encoding,
    /// The exchange is in flight while local post-processing runs.
    Exchanging,
    /// Local work is done; the exchange has yet to be joined.
    Joining,
}

/// What the surrounding loop reports to the state machine.
pub enum ClientEvent {
    /// A new cycle begins.
    CycleStarted,
    /// The camera yielded a compressed frame.
    FrameCaptured(Vec<u8>),
    /// The request record was serialized to these bytes.
    RequestEncoded(Vec<u8>),
    /// The overlapped local post-processing finished.
    LocalWorkDone,
    /// The exchange was joined: the round trip in microseconds and the
    /// reply bytes, or nothing when the receive deadline passed.
    Joined(Option<(u64, Vec<u8>)>),
}

/// What the state machine asks the surrounding loop to do next.
pub enum ClientAction {
    /// Ask the camera for a frame.
    CaptureFrame,
    /// Build a request record around these frame bytes and encode it.
    EncodeRequest(Vec<u8>),
    /// Start the concurrent send-and-await with these request bytes,
    /// then run local post-processing beside it.
    StartExchange(Vec<u8>),
    /// Block until the in-flight exchange finishes.
    AwaitJoin,
    /// The cycle ended this way: log it and move on. The next cycle
    /// supersedes this one; nothing is retried.
    FinishCycle(CycleOutcome),
    /// The event does not belong to the phase: drop the cycle.
    AbandonCycle,
}

/// One transition of the client cycle state machine. Every terminal
/// action — finishing or abandoning a cycle — returns the machine to
/// `Idle`.
pub fn client_step(phase: ClientPhase, event: ClientEvent) -> (r: (ClientPhase, ClientAction))
    ensures
        match (phase, event) {
            (ClientPhase::Idle, ClientEvent::CycleStarted) => r.0 is Capturing
                && r.1 is CaptureFrame,
            (ClientPhase::Capturing, ClientEvent::FrameCaptured(frame)) => {
                &&& r.0 is Encoding
                &&& r.1 matches ClientAction::EncodeRequest(f)
                &&& f@ == frame@
            },
            (ClientPhase::Encoding, ClientEvent::RequestEncoded(bytes)) => {
                &&& r.0 is Exchanging
                &&& r.1 matches ClientAction::StartExchange(b)
                &&& b@ == bytes@
            },
            (ClientPhase::Exchanging, ClientEvent::LocalWorkDone) => r.0 is Joining
                && r.1 is AwaitJoin,
            (ClientPhase::Joining, ClientEvent::Joined(joined)) => {
                &&& r.0 is Idle
                &&& r.1 matches ClientAction::FinishCycle(out)
                &&& (match joined {
                    None => out is TimedOut,
                    Some((rtt, bytes)) => match dec_response(bytes@) {
                        Some(v) => {
                            &&& out matches CycleOutcome::Success { round_trip_us, reply }
                            &&& round_trip_us == rtt
                            &&& reply@ == v
                        },
                        None => out is DecodeFailed,
                    },
                })
            },
            _ => r.0 is Idle && r.1 is AbandonCycle,
        },
{
    match (phase, event) {
        (ClientPhase::Idle, ClientEvent::CycleStarted) => (
            ClientPhase::Capturing,
            ClientAction::CaptureFrame,
        ),
        (ClientPhase::Capturing, ClientEvent::FrameCaptured(frame)) => (
            ClientPhase::Encoding,
            ClientAction::EncodeRequest(frame),
        ),
        (ClientPhase::Encoding, ClientEvent::RequestEncoded(bytes)) => (
            ClientPhase::Exchanging,
            ClientAction::StartExchange(bytes),
        ),
        (ClientPhase::Exchanging, ClientEvent::LocalWorkDone) => (
            ClientPhase::Joining,
            ClientAction::AwaitJoin,
        ),
        (ClientPhase::Joining, ClientEvent::Joined(joined)) => (
            ClientPhase::Idle,
            ClientAction::FinishCycle(conclude_cycle(joined)),
        ),
        _ => (ClientPhase::Idle, ClientAction::AbandonCycle),
    }
}

} // verus!
