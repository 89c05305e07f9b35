use cornflakes::CameraDirection;
use cornflakes::CameraImage;
use cornflakes::VmecRequestFields;
use cornflakes::VmecResponseFields;
use cornflakes::codec::DecodeError;
use cornflakes::codec::decode_request;
use cornflakes::codec::decode_response;
use cornflakes::codec::encode_request;
use cornflakes::codec::encode_request_images;
use cornflakes::codec::encode_response;

fn sample_request() -> VmecRequestFields {
    VmecRequestFields {
        timestamp_ms: 101010101111,
        device_hash: String::from("ee70384492767846"),
        request_hash: String::from("hamilton"),
        image_front: vec![0xFF, 0xD8, 0xFF, 0xE0, 7, 8, 9],
        image_rear: vec![42; 1000],
    }
}

fn sample_response() -> VmecResponseFields {
    VmecResponseFields {
        timestamp_ms: 1689881234567,
        server_hash: String::from("server_hash blah blash"),
        response_hash: String::from("respond_hash"),
        neural_output: String::from("neural_output"),
    }
}

#[test]
fn request_round_trip_is_bit_exact() {
    let original = sample_request();
    let encoded = encode_request(sample_request());
    let decoded = decode_request(&encoded).unwrap();
    assert_eq!(decoded.timestamp_ms, original.timestamp_ms);
    assert_eq!(decoded.device_hash, original.device_hash);
    assert_eq!(decoded.request_hash, original.request_hash);
    assert_eq!(decoded.image_front, original.image_front);
    assert_eq!(decoded.image_rear, original.image_rear);
}

#[test]
fn request_round_trip_with_zero_length_fields() {
    let encoded = encode_request(VmecRequestFields {
        timestamp_ms: 0,
        device_hash: String::new(),
        request_hash: String::new(),
        image_front: Vec::new(),
        image_rear: Vec::new(),
    });
    let decoded = decode_request(&encoded).unwrap();
    assert_eq!(decoded.timestamp_ms, 0);
    assert!(decoded.device_hash.is_empty());
    assert!(decoded.request_hash.is_empty());
    assert!(decoded.image_front.is_empty());
    assert!(decoded.image_rear.is_empty());
}

#[test]
fn request_round_trip_with_large_images() {
    let front: Vec<u8> = (0..300_000u32).map(|i| (i % 251) as u8).collect();
    let rear: Vec<u8> = (0..200_000u32).map(|i| (i % 163) as u8).collect();
    let encoded = encode_request(VmecRequestFields {
        timestamp_ms: u64::MAX,
        device_hash: String::from("d"),
        request_hash: String::from("r"),
        image_front: front.clone(),
        image_rear: rear.clone(),
    });
    let decoded = decode_request(&encoded).unwrap();
    assert_eq!(decoded.timestamp_ms, u64::MAX);
    assert_eq!(decoded.image_front, front);
    assert_eq!(decoded.image_rear, rear);
}

#[test]
fn request_round_trip_with_multibyte_characters() {
    let encoded = encode_request(VmecRequestFields {
        timestamp_ms: 7,
        device_hash: String::from("κάμερα-前-📷"),
        request_hash: String::from("αίτημα-后"),
        image_front: vec![1],
        image_rear: vec![2],
    });
    let decoded = decode_request(&encoded).unwrap();
    assert_eq!(decoded.device_hash, "κάμερα-前-📷");
    assert_eq!(decoded.request_hash, "αίτημα-后");
}

#[test]
fn response_round_trip_is_bit_exact() {
    let original = sample_response();
    let encoded = encode_response(sample_response());
    let decoded = decode_response(&encoded).unwrap();
    assert_eq!(decoded.timestamp_ms, original.timestamp_ms);
    assert_eq!(decoded.server_hash, original.server_hash);
    assert_eq!(decoded.response_hash, original.response_hash);
    assert_eq!(decoded.neural_output, original.neural_output);
}

#[test]
fn response_round_trip_with_empty_strings() {
    let encoded = encode_response(VmecResponseFields {
        timestamp_ms: 3,
        server_hash: String::new(),
        response_hash: String::new(),
        neural_output: String::new(),
    });
    let decoded = decode_response(&encoded).unwrap();
    assert_eq!(decoded.timestamp_ms, 3);
    assert!(decoded.server_hash.is_empty());
    assert!(decoded.response_hash.is_empty());
    assert!(decoded.neural_output.is_empty());
}

#[test]
fn duplicate_front_tags_last_one_wins() {
    let images = vec![
        CameraImage { direction: CameraDirection::Frontcam, jpeg_bytes: vec![1, 1, 1] },
        CameraImage { direction: CameraDirection::Frontcam, jpeg_bytes: vec![2, 2] },
    ];
    let encoded = encode_request_images(5, "dev", "req", &images);
    let decoded = decode_request(&encoded).unwrap();
    assert_eq!(decoded.image_front, vec![2, 2]);
    assert!(decoded.image_rear.is_empty());
}

#[test]
fn classification_goes_by_tag_not_position() {
    let images = vec![
        CameraImage { direction: CameraDirection::Rearcam, jpeg_bytes: vec![9, 9] },
        CameraImage { direction: CameraDirection::Frontcam, jpeg_bytes: vec![4] },
    ];
    let encoded = encode_request_images(5, "dev", "req", &images);
    let decoded = decode_request(&encoded).unwrap();
    assert_eq!(decoded.image_front, vec![4]);
    assert_eq!(decoded.image_rear, vec![9, 9]);
}

#[test]
fn missing_tag_leaves_slot_empty() {
    let images = vec![
        CameraImage { direction: CameraDirection::Rearcam, jpeg_bytes: vec![6, 7] },
    ];
    let encoded = encode_request_images(5, "dev", "req", &images);
    let decoded = decode_request(&encoded).unwrap();
    assert!(decoded.image_front.is_empty());
    assert_eq!(decoded.image_rear, vec![6, 7]);
}

#[test]
fn empty_image_list_leaves_both_slots_empty() {
    let encoded = encode_request_images(5, "dev", "req", &Vec::new());
    let decoded = decode_request(&encoded).unwrap();
    assert!(decoded.image_front.is_empty());
    assert!(decoded.image_rear.is_empty());
}

#[test]
fn first_three_bytes_of_a_request_do_not_decode() {
    let encoded = encode_request(sample_request());
    let truncated = &encoded[..3];
    assert!(decode_request(truncated).is_err());
}

#[test]
fn no_strict_prefix_of_a_request_decodes() {
    let mut small = sample_request();
    small.image_front = vec![1, 2];
    small.image_rear = vec![3];
    let encoded = encode_request(small);
    for n in 0..encoded.len() {
        assert!(decode_request(&encoded[..n]).is_err());
    }
}

#[test]
fn no_strict_prefix_of_a_response_decodes() {
    let encoded = encode_response(sample_response());
    for n in 0..encoded.len() {
        assert!(decode_response(&encoded[..n]).is_err());
    }
}

#[test]
fn wrong_kind_byte_is_rejected() {
    let as_response = encode_response(sample_response());
    assert_eq!(
        decode_request(&as_response).unwrap_err(),
        DecodeError::WrongMessageKind
    );
    let as_request = encode_request(sample_request());
    assert_eq!(
        decode_response(&as_request).unwrap_err(),
        DecodeError::WrongMessageKind
    );
}

#[test]
fn empty_input_is_rejected() {
    assert!(decode_request(&[]).is_err());
    assert!(decode_response(&[]).is_err());
}

#[test]
fn trailing_bytes_are_rejected() {
    let mut encoded = encode_request(sample_request());
    encoded.push(0);
    assert_eq!(decode_request(&encoded).unwrap_err(), DecodeError::TrailingBytes);
}

#[test]
fn unknown_direction_tag_is_rejected() {
    // kind, frame count 1, timestamp, two empty strings, image count 1,
    // then a tag byte that names no direction.
    let mut bytes: Vec<u8> = vec![1];
    bytes.extend_from_slice(&1u64.to_le_bytes());
    bytes.extend_from_slice(&5u64.to_le_bytes());
    bytes.extend_from_slice(&0u64.to_le_bytes());
    bytes.extend_from_slice(&0u64.to_le_bytes());
    bytes.extend_from_slice(&1u64.to_le_bytes());
    bytes.push(9);
    bytes.extend_from_slice(&0u64.to_le_bytes());
    assert_eq!(decode_request(&bytes).unwrap_err(), DecodeError::Malformed);
}

#[test]
fn invalid_utf8_in_a_hash_is_rejected() {
    // kind, frame count 1, timestamp, then a device-hash chunk holding
    // one byte that is no UTF-8.
    let mut bytes: Vec<u8> = vec![1];
    bytes.extend_from_slice(&1u64.to_le_bytes());
    bytes.extend_from_slice(&5u64.to_le_bytes());
    bytes.extend_from_slice(&1u64.to_le_bytes());
    bytes.push(0xFF);
    assert_eq!(decode_request(&bytes).unwrap_err(), DecodeError::Malformed);
}

#[test]
fn length_prefix_past_the_end_is_rejected() {
    // kind, frame count 1, timestamp, then a device-hash chunk that
    // claims more bytes than follow.
    let mut bytes: Vec<u8> = vec![1];
    bytes.extend_from_slice(&1u64.to_le_bytes());
    bytes.extend_from_slice(&5u64.to_le_bytes());
    bytes.extend_from_slice(&1000u64.to_le_bytes());
    bytes.push(b'a');
    assert_eq!(decode_request(&bytes).unwrap_err(), DecodeError::Malformed);
}

#[test]
fn zero_frames_decode_to_the_unset_record() {
    let mut bytes: Vec<u8> = vec![1];
    bytes.extend_from_slice(&0u64.to_le_bytes());
    let decoded = decode_request(&bytes).unwrap();
    assert_eq!(decoded.timestamp_ms, 0);
    assert!(decoded.device_hash.is_empty());
    assert!(decoded.request_hash.is_empty());
    assert!(decoded.image_front.is_empty());
    assert!(decoded.image_rear.is_empty());
}

#[test]
fn with_two_frames_the_later_frame_wins() {
    let mut first = sample_request();
    first.request_hash = String::from("first");
    let mut second = sample_request();
    second.request_hash = String::from("second");
    second.timestamp_ms = 222;
    // A frame body is a whole encoded message minus the kind byte and
    // the 8-byte frame count.
    let body_one = encode_request(first)[9..].to_vec();
    let body_two = encode_request(second)[9..].to_vec();
    let mut bytes: Vec<u8> = vec![1];
    bytes.extend_from_slice(&2u64.to_le_bytes());
    bytes.extend_from_slice(&body_one);
    bytes.extend_from_slice(&body_two);
    let decoded = decode_request(&bytes).unwrap();
    assert_eq!(decoded.request_hash, "second");
    assert_eq!(decoded.timestamp_ms, 222);
}

#[test]
fn encoding_is_deterministic() {
    let a = encode_request(sample_request());
    let b = encode_request(sample_request());
    assert_eq!(a, b);
    let c = encode_response(sample_response());
    let d = encode_response(sample_response());
    assert_eq!(c, d);
}

#[test]
fn a_longer_mixed_list_keeps_the_last_image_under_each_tag() {
    let images = vec![
        CameraImage { direction: CameraDirection::Frontcam, jpeg_bytes: vec![1] },
        CameraImage { direction: CameraDirection::Rearcam, jpeg_bytes: vec![2] },
        CameraImage { direction: CameraDirection::Frontcam, jpeg_bytes: vec![3, 3] },
        CameraImage { direction: CameraDirection::Rearcam, jpeg_bytes: vec![4, 4] },
        CameraImage { direction: CameraDirection::Rearcam, jpeg_bytes: vec![5] },
    ];
    let encoded = encode_request_images(5, "dev", "req", &images);
    let decoded = decode_request(&encoded).unwrap();
    assert_eq!(decoded.image_front, vec![3, 3]);
    assert_eq!(decoded.image_rear, vec![5]);
}

#[test]
fn with_two_response_frames_the_later_frame_wins() {
    let mut first = sample_response();
    first.neural_output = String::from("first");
    let mut second = sample_response();
    second.neural_output = String::from("second");
    let body_one = encode_response(first)[9..].to_vec();
    let body_two = encode_response(second)[9..].to_vec();
    let mut bytes: Vec<u8> = vec![2];
    bytes.extend_from_slice(&2u64.to_le_bytes());
    bytes.extend_from_slice(&body_one);
    bytes.extend_from_slice(&body_two);
    let decoded = decode_response(&bytes).unwrap();
    assert_eq!(decoded.neural_output, "second");
}
