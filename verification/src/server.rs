//! The server side of one exchange: decode the request, run the
//! placeholder processing step, encode the reply. The surrounding loop
//! owns the channel; it blocks for a request's bytes, hands them here,
//! and sends the returned bytes back on the same turn — exactly one
//! reply per accepted request.

use vstd::prelude::*;

use crate::codec::DecodeError;
use crate::codec::decode_request;
use crate::codec::encode_response;
use crate::messages::RespView;
use crate::messages::VmecRequestFields;
use crate::messages::VmecResponseFields;
use crate::wire::dec_request;
use crate::wire::enc_response;

verus! {

/// The response the placeholder processing step builds at server time
/// `t`: the fixed server identity and placeholder strings around the
/// clock reading.
pub open spec fn resp_of(t: u64) -> RespView {
    RespView {
        timestamp_ms: t,
        server_hash: "server_hash blah blash"@,
        response_hash: "respond_hash"@,
        neural_output: "neural_output"@,
    }
}

/// Milliseconds since the Unix epoch by the wall clock.
///
/// Relies on `std::time::SystemTime::now` and `duration_since`:
/// nothing is promised of the reading, which depends on the clock
/// alone. Should the clock stand before the epoch the call aborts,
/// as the serving process always has.
#[verifier::external_body]
pub fn ms_now() -> u64 {
    let now = std::time::SystemTime::now();
    let since_the_epoch = now.duration_since(std::time::UNIX_EPOCH).expect(
        "Time went backwards",
    );
    let in_ms = since_the_epoch.as_millis();
    in_ms as u64
}

/// The server-side processing step, a placeholder for future
/// inference: whatever the request holds, the response carries the
/// fixed server identity and placeholder output, stamped with the
/// clock.
pub fn process_request(request: &VmecRequestFields) -> (r: VmecResponseFields)
    ensures
        r@ == resp_of(r.timestamp_ms),
{
    VmecResponseFields {
        timestamp_ms: ms_now(),
        server_hash: "server_hash blah blash".to_owned(),
        response_hash: "respond_hash".to_owned(),
        neural_output: "neural_output".to_owned(),
    }
}

/// One full server turn around the processing step: decode the request
/// bytes, process, encode the reply. Malformed bytes come back as the
/// decode error — to be logged and skipped by the loop, never to abort
/// the serving process.
pub fn handle_request(request_bytes: &[u8]) -> (r: Result<Vec<u8>, DecodeError>)
    ensures
        r is Ok <==> dec_request(request_bytes@) is Some,
        r matches Ok(out) ==> exists|t: u64|
            out@ == enc_response(#[trigger] resp_of(t)) && crate::wire::dec_response(out@)
                == Some(resp_of(t)),
{
    match decode_request(request_bytes) {
        Ok(req) => {
            let resp = process_request(&req);
            let ghost t = resp.timestamp_ms;
            let out = encode_response(resp);
            proof {
                crate::codec::lemma_response_round_trip(resp@);
                assert(out@ == enc_response(resp_of(t)));
                assert(crate::wire::dec_response(out@) == Some(resp_of(t)));
            }
            Ok(out)
        },
        Err(e) => Err(e),
    }
}

} // verus!
