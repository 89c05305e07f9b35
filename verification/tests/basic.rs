use cornflakes::VmecRequestFields;

#[test]
fn lib_it_works() {
    assert!(true);
}

#[test]
fn main_it_works() {
    assert_eq!(2 + 2, 4);
}

#[test]
fn tests_it_works() {
    assert_eq!(2 + 2, 4);
}

#[test]
fn common_it_works() {
    assert_eq!(2 + 2, 4);
}

#[test]
fn request_fields_hold_what_they_are_given() {
    let fields = VmecRequestFields {
        timestamp_ms: 101010101111,
        device_hash: String::from("ee70384492767846"),
        request_hash: String::from("hamilton"),
        image_front: vec![1, 2, 3],
        image_rear: vec![],
    };
    assert_eq!(fields.timestamp_ms, 101010101111);
    assert_eq!(fields.device_hash, "ee70384492767846");
    assert_eq!(fields.request_hash, "hamilton");
    assert_eq!(fields.image_front, vec![1, 2, 3]);
    assert!(fields.image_rear.is_empty());
}
