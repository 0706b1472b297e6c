use stream_recorder::channel::RoomChannel;
use stream_recorder::rooms::Rooms;

#[test]
fn fanout_reaches_every_other_subscriber() {
    let mut rooms = Rooms::new();
    let r1 = "r1".to_string();
    let r2 = "r2".to_string();
    rooms.subscribe(&r1, 1);
    rooms.subscribe(&r1, 2);
    rooms.subscribe(&r1, 3);
    rooms.subscribe(&r2, 4);

    let payload = vec![0xAAu8, 0xBB];
    rooms.publish(&r1, 1, &payload);

    // The sender receives nothing; both other subscribers of r1 do.
    assert_eq!(rooms.poll(&r1, 1), None);
    assert_eq!(rooms.poll(&r1, 2), Some(payload.clone()));
    assert_eq!(rooms.poll(&r1, 3), Some(payload.clone()));
    // A subscriber in a different room receives nothing.
    assert_eq!(rooms.poll(&r2, 4), None);
}

#[test]
fn fanout_preserves_order() {
    let mut rooms = Rooms::new();
    let rid = "ordered".to_string();
    rooms.subscribe(&rid, 1);
    rooms.subscribe(&rid, 2);
    rooms.publish(&rid, 1, &vec![1]);
    rooms.publish(&rid, 1, &vec![2]);
    rooms.publish(&rid, 1, &vec![3]);
    assert_eq!(rooms.poll(&rid, 2), Some(vec![1]));
    assert_eq!(rooms.poll(&rid, 2), Some(vec![2]));
    assert_eq!(rooms.poll(&rid, 2), Some(vec![3]));
    assert_eq!(rooms.poll(&rid, 2), None);
}

#[test]
fn slow_subscriber_drops_oldest() {
    // A channel bounded at 2: the third publish evicts the oldest.
    let mut ch = RoomChannel::new("tiny".to_string(), 2);
    ch.subscribe(7);
    ch.publish(1, &vec![10]);
    ch.publish(1, &vec![20]);
    ch.publish(1, &vec![30]);
    assert_eq!(ch.poll(7), Some(vec![20]));
    assert_eq!(ch.poll(7), Some(vec![30]));
    assert_eq!(ch.poll(7), None);
}

#[test]
fn unsubscribe_stops_delivery() {
    let mut rooms = Rooms::new();
    let rid = "leavers".to_string();
    rooms.subscribe(&rid, 1);
    rooms.subscribe(&rid, 2);
    rooms.unsubscribe(&rid, 2);
    rooms.publish(&rid, 1, &vec![42]);
    assert_eq!(rooms.poll(&rid, 2), None);
}

#[test]
fn subscribe_twice_is_harmless() {
    let mut rooms = Rooms::new();
    let rid = "again".to_string();
    rooms.subscribe(&rid, 9);
    rooms.publish(&rid, 1, &vec![5]);
    // A second subscribe must not clear the pending buffer.
    rooms.subscribe(&rid, 9);
    assert_eq!(rooms.poll(&rid, 9), Some(vec![5]));
}

#[test]
fn get_stream_is_lazy_and_cached() {
    let mut rooms = Rooms::new();
    let rid = "lazy".to_string();
    assert!(rooms.get_stream(&rid));
    assert!(!rooms.get_stream(&rid));
}
