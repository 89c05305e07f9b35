use cornflakes::VmecRequestFields;
use cornflakes::codec::decode_response;
use cornflakes::codec::encode_request;
use cornflakes::server::handle_request;
use cornflakes::server::ms_now;
use cornflakes::server::process_request;

fn sample_request() -> VmecRequestFields {
    VmecRequestFields {
        timestamp_ms: 101010101111,
        device_hash: String::from("ee70384492767846"),
        request_hash: String::from("hamilton"),
        image_front: vec![1, 2, 3],
        image_rear: vec![4, 5],
    }
}

#[test]
fn processing_builds_the_placeholder_response() {
    let response = process_request(&sample_request());
    assert_eq!(response.server_hash, "server_hash blah blash");
    assert_eq!(response.response_hash, "respond_hash");
    assert_eq!(response.neural_output, "neural_output");
}

#[test]
fn a_server_turn_replies_with_an_encoded_placeholder_response() {
    let request_bytes = encode_request(sample_request());
    let reply_bytes = handle_request(&request_bytes).unwrap();
    let reply = decode_response(&reply_bytes).unwrap();
    assert_eq!(reply.server_hash, "server_hash blah blash");
    assert_eq!(reply.response_hash, "respond_hash");
    assert_eq!(reply.neural_output, "neural_output");
}

#[test]
fn a_malformed_request_is_an_error_not_an_abort() {
    assert!(handle_request(&[0x13, 0x37]).is_err());
    let request_bytes = encode_request(sample_request());
    assert!(handle_request(&request_bytes[..3]).is_err());
}

#[test]
fn the_clock_reads_as_milliseconds_since_the_epoch() {
    let now = ms_now();
    // Past 2020-01-01 and below the year 10000, whatever the machine.
    assert!(now > 1_577_836_800_000);
    assert!(now < 253_402_300_800_000);
}
