use cornflakes::byte_io::CapnpDecoding;
use cornflakes::byte_io::CapnpEncoding;

#[test]
fn the_sink_collects_writes_in_order() {
    let mut sink = CapnpEncoding { encoded_bytes: Vec::new() };
    assert_eq!(sink.write(&[1, 2, 3]), 3);
    assert_eq!(sink.write(&[]), 0);
    assert_eq!(sink.write(&[4]), 1);
    sink.flush();
    assert_eq!(sink.encoded_bytes, vec![1, 2, 3, 4]);
}

#[test]
fn the_source_copies_into_the_front_of_a_buffer() {
    let source = CapnpDecoding { bytes_to_decode: vec![7, 8, 9] };
    let mut buf = vec![0; 5];
    let n = source.read(&mut buf);
    assert_eq!(n, 3);
    assert_eq!(buf, vec![7, 8, 9, 0, 0]);
}

#[test]
fn the_source_hands_out_and_consumes_what_it_holds() {
    let mut source = CapnpDecoding { bytes_to_decode: vec![5, 6, 7, 8] };
    assert_eq!(source.fill_buf(), &vec![5, 6, 7, 8]);
    source.consume(2);
    assert_eq!(source.fill_buf(), &vec![7, 8]);
    source.consume(2);
    assert!(source.bytes_to_decode.is_empty());
}
