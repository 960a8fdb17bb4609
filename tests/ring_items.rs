use rustogrammer::ring_items::triggers_item::PhysicsEventCountItem;
use rustogrammer::ring_items::{BodyHeader, RingItem, RingItemError, RingVersion, PHYSICS_EVENT_COUNT};

#[test]
fn new_items_have_header_sizes() {
    let item = RingItem::new(5);
    assert_eq!(12, item.size());
    assert_eq!(5, item.type_id());
    assert!(!item.has_body_header());
    assert!(item.get_bodyheader().is_none());

    let item = RingItem::new_with_body_header(7, 0x0102030405060708, 9, 11);
    assert_eq!(12 + 16, item.size());
    assert!(item.has_body_header());
    assert_eq!(
        Some(BodyHeader { timestamp: 0x0102030405060708, source_id: 9, barrier_type: 11 }),
        item.get_bodyheader()
    );
    assert_eq!(8, item.payload()[0]);
    assert_eq!(1, item.payload()[7]);
}

#[test]
fn read_item_reports_short_input() {
    assert_eq!(Some(RingItemError::HeaderReadFailed), RingItem::read_item(&[1, 2]).err());
    assert_eq!(Some(RingItemError::InvalidHeader), RingItem::read_item(&[4, 0, 0, 0, 0, 0]).err());
    assert_eq!(Some(RingItemError::HeaderReadFailed), RingItem::read_item(&[20, 0, 0, 0, 0, 0]).err());
    let mut bytes = vec![20, 0, 0, 0, 1, 0, 0, 0, 4, 0, 0, 0];
    bytes.extend_from_slice(&[0, 0, 0]);
    assert_eq!(Some(RingItemError::FileTooSmall), RingItem::read_item(&bytes).err());
}

#[test]
fn items_survive_bytes() {
    let mut item = RingItem::new_with_body_header(3, 77, 2, 1);
    item.add_u32(0xdeadbeef);
    item.add_u64(42);
    let bytes = item.to_bytes();
    assert_eq!(item.size() as usize, bytes.len());
    let back = RingItem::read_item(&bytes).ok().unwrap();
    assert_eq!(item.size(), back.size());
    assert_eq!(3, back.type_id());
    assert_eq!(item.body_header_size(), back.body_header_size());
    assert_eq!(item.payload(), back.payload());
    assert_eq!(Some(0xef), back.payload().get(16).copied());
}

#[test]
fn trigger_counts_round_trip() {
    let c = PhysicsEventCountItem::at_time(1_600_000_000);
    let raw = c.to_raw();
    assert_eq!(PHYSICS_EVENT_COUNT, raw.type_id());
    assert_eq!(12 + 20, raw.size());
    let back = PhysicsEventCountItem::from_raw(&raw, RingVersion::V11).unwrap();
    assert_eq!(0, back.get_timeoffset());
    assert_eq!(1, back.get_time_divisor());
    assert_eq!(1_600_000_000, back.get_absolute_time());
    assert_eq!(None, back.get_original_sid());
    assert_eq!(0, back.get_event_count());
    assert!(back.get_bodyheader().is_none());
    // Too short for the longer layout.
    assert!(PhysicsEventCountItem::from_raw(&raw, RingVersion::V12).is_none());
    // Wrong type.
    assert!(PhysicsEventCountItem::from_raw(&RingItem::new(1), RingVersion::V11).is_none());
}

#[test]
fn trigger_counts_with_body_header() {
    let mut raw = RingItem::new_with_body_header(PHYSICS_EVENT_COUNT, 1234, 5, 0);
    raw.add_u32(10);
    raw.add_u32(2);
    raw.add_u32(99);
    raw.add_u32(6);
    raw.add_u64(1_000_000);
    let c = PhysicsEventCountItem::from_raw(&raw, RingVersion::V12).unwrap();
    assert_eq!(Some(BodyHeader { timestamp: 1234, source_id: 5, barrier_type: 0 }), c.get_bodyheader());
    assert_eq!(10, c.get_timeoffset());
    assert_eq!(2, c.get_time_divisor());
    assert_eq!(99, c.get_absolute_time());
    assert_eq!(Some(6), c.get_original_sid());
    assert_eq!(1_000_000, c.get_event_count());
    let again = c.to_raw();
    assert_eq!(raw.payload(), again.payload());
    assert_eq!(raw.size(), again.size());
}

#[test]
fn new_trigger_count_is_stamped_now() {
    let c = PhysicsEventCountItem::new();
    assert!(c.get_absolute_time() > 1_500_000_000);
    assert_eq!(0, c.get_event_count());
}
