use tracestore::shared_structs::{LineItem, TimeStamp};

#[test]
fn sentinel_has_no_address() {
    let ts = TimeStamp::new_at_ft(7);
    assert_eq!(ts.frame_time, 7);
    assert_eq!(ts.addr, None);
    assert_eq!(ts.instance_of_addr, None);
}

#[test]
fn coordinates_compare_by_all_fields() {
    let a = TimeStamp { frame_time: 1, addr: Some(2), instance_of_addr: Some(3) };
    let b = TimeStamp { frame_time: 1, addr: Some(2), instance_of_addr: Some(3) };
    let c = TimeStamp { frame_time: 1, addr: Some(2), instance_of_addr: Some(4) };
    assert!(a.same_coordinate(&b));
    assert!(!a.same_coordinate(&c));
    assert!(!a.same_coordinate(&TimeStamp::new_at_ft(1)));
}

#[test]
fn line_items_carry_their_payload() {
    let raw = LineItem::RawString("mov eax, 1".to_string());
    let fun = LineItem::FunctionReference { address: 64 };
    assert_eq!(raw, LineItem::RawString("mov eax, 1".to_string()));
    assert_ne!(fun, LineItem::TypeReference { address: 64 });
}
